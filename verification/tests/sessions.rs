use hey::sessions::{
    generate_session_id, page, pending_transcript, pick_audio_file, raw_transcript_to_store,
    session_id_at, session_id_from_parts, sort_newest_first, status_after_transcription, AudioFile,
    SessionStatus,
};

#[test]
fn status_follows_the_transcription() {
    assert_eq!(status_after_transcription(true), SessionStatus::Completed);
    assert_eq!(status_after_transcription(false), SessionStatus::Failed);
    assert_eq!(SessionStatus::default(), SessionStatus::Pending);
}

#[test]
fn raw_text_is_kept_only_when_it_differs() {
    assert_eq!(raw_transcript_to_store("Hello.", Some("hello")), Some("hello".to_string()));
    assert_eq!(raw_transcript_to_store("same", Some("same")), None);
    assert_eq!(raw_transcript_to_store("text", None), None);
}

#[test]
fn pending_text() {
    assert_eq!(pending_transcript(), "[Transcription pending...]");
}

#[test]
fn audio_file_preference() {
    assert_eq!(pick_audio_file(true, true), Some(AudioFile::M4a));
    assert_eq!(pick_audio_file(true, false), Some(AudioFile::M4a));
    assert_eq!(pick_audio_file(false, true), Some(AudioFile::Wav));
    assert_eq!(pick_audio_file(false, false), None);
    assert_eq!(AudioFile::M4a.file_name(), "audio.m4a");
    assert_eq!(AudioFile::Wav.file_name(), "audio.wav");
}

#[test]
fn session_id_layout() {
    assert_eq!(
        session_id_from_parts("2024-01-02_030405", "0123abcd-ef01-4234-8567-89abcdef0123"),
        "2024-01-02_030405_0123abcd"
    );
}

#[test]
fn session_ids_from_clock_readings() {
    let uuid = "0123abcd-ef01-4234-8567-89abcdef0123";
    assert_eq!(session_id_at(Some(1431648000), uuid), Some("2015-05-15_000000_0123abcd".to_string()));
    assert_eq!(session_id_at(Some(0), uuid), Some("1970-01-01_000000_0123abcd".to_string()));
    assert_eq!(session_id_at(Some(1234567890), uuid), Some("2009-02-13_233130_0123abcd".to_string()));
    assert_eq!(
        session_id_at(Some(253402300800), uuid),
        Some("+10000-01-01_000000_0123abcd".to_string())
    );
    assert_eq!(session_id_at(None, uuid), None);
    assert_eq!(session_id_at(Some(u64::MAX), uuid), None);
    assert_eq!(session_id_at(Some(i64::MAX as u64), uuid), None);
}

#[test]
fn generated_session_ids_end_in_eight_hex_digits() {
    let before = chrono::Utc::now().format("%Y-%m-%d_%H%M%S").to_string();
    let id = generate_session_id().expect("the clock reads a time after 1970");
    let after = chrono::Utc::now().format("%Y-%m-%d_%H%M%S").to_string();
    let chars: Vec<char> = id.chars().collect();
    assert_eq!(chars.len(), 26);
    assert_eq!(chars[17], '_');
    assert!(chars[18..].iter().all(|c| c.is_ascii_digit() || ('a'..='f').contains(c)));
    assert_eq!(chars[4], '-');
    assert_eq!(chars[7], '-');
    assert_eq!(chars[10], '_');
    for (i, c) in chars[..17].iter().enumerate() {
        if i != 4 && i != 7 && i != 10 {
            assert!(c.is_ascii_digit());
        }
    }
    let label = &id[..17];
    assert!(before.as_str() <= label && label <= after.as_str());
    let other = generate_session_id().unwrap();
    assert_ne!(id[18..], other[18..]);
}

#[test]
fn sessions_sort_newest_first() {
    let names = vec![
        "2024-01-02_101010_aaaaaaaa".to_string(),
        "2024-03-01_000000_bbbbbbbb".to_string(),
        "2023-12-31_235959_cccccccc".to_string(),
        "2024-01-02_101010_aaaaaaab".to_string(),
    ];
    let sorted = sort_newest_first(&names);
    assert_eq!(
        sorted,
        vec![
            "2024-03-01_000000_bbbbbbbb".to_string(),
            "2024-01-02_101010_aaaaaaab".to_string(),
            "2024-01-02_101010_aaaaaaaa".to_string(),
            "2023-12-31_235959_cccccccc".to_string(),
        ]
    );
}

#[test]
fn sorting_orders_by_code_point() {
    let names = vec!["b".to_string(), "ab".to_string(), "a".to_string(), "é".to_string(), "".to_string()];
    let sorted = sort_newest_first(&names);
    assert_eq!(sorted, vec!["é", "b", "ab", "a", ""]);
}

#[test]
fn pagination_skips_and_limits() {
    let items = vec![1, 2, 3, 4, 5];
    assert_eq!(page(items.clone(), 2, 1), vec![2, 3]);
    assert_eq!(page(items.clone(), 10, 3), vec![4, 5]);
    assert_eq!(page(items.clone(), 2, 5), Vec::<i32>::new());
    assert_eq!(page(items.clone(), 2, 99), Vec::<i32>::new());
    assert_eq!(page(items.clone(), 0, 0), Vec::<i32>::new());
    assert_eq!(page(items, usize::MAX, 0), vec![1, 2, 3, 4, 5]);
}

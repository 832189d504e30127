use hey::chunking::{merge_transcripts, overlap_length, remove_overlap, split_audio, ChunkConfig};

#[test]
fn test_merge_transcripts_with_overlap() {
    let transcripts = vec![
        "Hello world, this is a test.".to_string(),
        "this is a test. And here is more content.".to_string(),
    ];

    let merged = merge_transcripts(&transcripts);
    assert!(merged.contains("Hello world"));
    assert!(merged.contains("more content"));
    // Should not have duplicate "this is a test"
    assert_eq!(merged.matches("this is a test").count(), 1);
}

#[test]
fn merge_with_overlap_gives_exact_text() {
    let transcripts = vec![
        "Hello world, this is a test.".to_string(),
        "this is a test. And here is more content.".to_string(),
    ];
    assert_eq!(
        merge_transcripts(&transcripts),
        "Hello world, this is a test. And here is more content."
    );
}

#[test]
fn merge_of_nothing_is_empty() {
    let transcripts: Vec<String> = Vec::new();
    assert_eq!(merge_transcripts(&transcripts), "");
}

#[test]
fn merge_of_one_transcript_keeps_it_unchanged() {
    let transcripts = vec!["  spaced   out text ".to_string()];
    assert_eq!(merge_transcripts(&transcripts), "  spaced   out text ");
}

#[test]
fn merge_without_overlap_joins_and_tidies_spaces() {
    let transcripts = vec!["  hello   world ".to_string(), "\tfoo\nbar".to_string()];
    assert_eq!(merge_transcripts(&transcripts), "hello world foo bar");
}

#[test]
fn merge_result_has_single_spaces_only() {
    let transcripts = vec![
        " one  two\u{2003}three ".to_string(),
        "four\u{a0} five".to_string(),
        "".to_string(),
    ];
    let merged = merge_transcripts(&transcripts);
    assert_eq!(merged, "one two three four five");
    assert!(!merged.starts_with(' ') && !merged.ends_with(' '));
    assert!(!merged.contains("  "));
}

#[test]
fn overlap_found_ignoring_case() {
    assert_eq!(
        remove_overlap("The quick brown fox jumps", "the QUICK brown fox jumps over"),
        "over"
    );
}

#[test]
fn overlap_found_when_four_of_five_words_agree() {
    assert_eq!(remove_overlap("a b c d e", "a b X d e f"), "f");
}

#[test]
fn overlap_of_fewer_than_three_words_is_kept() {
    assert_eq!(remove_overlap("hello world", "world again"), "world again");
    let transcripts = vec!["hello world".to_string(), "world again".to_string()];
    assert_eq!(merge_transcripts(&transcripts), "hello world world again");
}

#[test]
fn remove_overlap_keeps_current_when_previous_is_blank() {
    assert_eq!(remove_overlap("   ", "  keep  this "), "  keep  this ");
    assert_eq!(remove_overlap("words here", "   "), "   ");
}

#[test]
fn overlap_length_prefers_the_longest_match() {
    let p: Vec<String> = "x a b c a b c".split(' ').map(String::from).collect();
    let c: Vec<String> = "a b c a b c y".split(' ').map(String::from).collect();
    let pl = p.clone();
    let cl = c.clone();
    assert_eq!(overlap_length(&p, &c, &pl, &cl), 6);
}

#[test]
fn overlap_length_is_zero_without_agreement() {
    let p: Vec<String> = "a b c d".split(' ').map(String::from).collect();
    let c: Vec<String> = "e f g h".split(' ').map(String::from).collect();
    assert_eq!(overlap_length(&p, &c, &p.clone(), &c.clone()), 0);
}

#[test]
fn short_audio_is_one_chunk() {
    let data: Vec<u8> = (0..50u8).collect();
    let chunks = split_audio(&data, &ChunkConfig::for_openai());
    assert_eq!(chunks.len(), 1);
    assert_eq!(chunks[0].data, data);
}

#[test]
fn empty_audio_is_one_empty_chunk() {
    let chunks = split_audio(&[], &ChunkConfig::for_groq());
    assert_eq!(chunks.len(), 1);
    assert!(chunks[0].data.is_empty());
}

#[test]
fn long_audio_is_cut_into_overlapping_chunks() {
    // One second at one sample (two bytes) per second: an overlap of 2 bytes, a stride of 7.
    let config = ChunkConfig { max_size_bytes: 10, overlap_millis: 1000, sample_rate: 1 };
    let data: Vec<u8> = (0..20u8).collect();
    let chunks = split_audio(&data, &config);
    assert_eq!(chunks.len(), 3);
    assert_eq!(chunks[0].data, (0..10u8).collect::<Vec<u8>>());
    assert_eq!(chunks[1].data, (7..17u8).collect::<Vec<u8>>());
    assert_eq!(chunks[2].data, (14..20u8).collect::<Vec<u8>>());
}

#[test]
fn chunks_without_overlap_adjoin() {
    let config = ChunkConfig { max_size_bytes: 4, overlap_millis: 0, sample_rate: 16000 };
    let data: Vec<u8> = (0..10u8).collect();
    let chunks = split_audio(&data, &config);
    let lens: Vec<usize> = chunks.iter().map(|c| c.data.len()).collect();
    assert_eq!(lens, vec![4, 4, 2]);
    let joined: Vec<u8> = chunks.iter().flat_map(|c| c.data.clone()).collect();
    assert_eq!(joined, data);
}

#[test]
fn openai_audio_over_the_limit_is_cut_in_two() {
    let data = vec![7u8; 30_000_000];
    let config = ChunkConfig::for_openai();
    let chunks = split_audio(&data, &config);
    assert_eq!(chunks.len(), 2);
    assert_eq!(chunks[0].data.len(), 25_165_824);
    // The second chunk starts one stride (24 MiB less 96 000 bytes) in.
    assert_eq!(chunks[1].data.len(), 30_000_000 - 25_069_824);
}

#[test]
fn provider_configs_have_their_limits() {
    let o = ChunkConfig::for_openai();
    assert_eq!((o.max_size_bytes, o.overlap_millis, o.sample_rate), (24 * 1024 * 1024, 2000, 16000));
    let g = ChunkConfig::for_groq();
    assert_eq!((g.max_size_bytes, g.overlap_millis, g.sample_rate), (18 * 1024 * 1024, 2000, 16000));
    let a = ChunkConfig::for_assemblyai();
    assert_eq!((a.max_size_bytes, a.overlap_millis, a.sample_rate), (usize::MAX, 0, 16000));
}

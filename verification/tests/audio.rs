use hey::audio::{
    describe_devices, encode_recording, find_device, push_level, AudioError, LEVEL_HISTORY,
};

#[test]
fn devices_are_listed_with_the_default_marked() {
    let names = vec!["Built-in".to_string(), "USB Mic".to_string()];
    let devices = describe_devices(names, Some("USB Mic".to_string()));
    assert_eq!(devices.len(), 2);
    assert_eq!(devices[0].name, "Built-in");
    assert!(!devices[0].is_default);
    assert_eq!(devices[1].name, "USB Mic");
    assert!(devices[1].is_default);
    let none = describe_devices(vec!["A".to_string()], None);
    assert!(!none[0].is_default);
}

#[test]
fn selected_device_is_found_by_name() {
    let names = vec!["A".to_string(), "B".to_string(), "B".to_string()];
    assert_eq!(find_device(&names, &Some("B".to_string())), Some(1));
    assert_eq!(find_device(&names, &Some("C".to_string())), None);
    assert_eq!(find_device(&names, &None), None);
}

#[test]
fn level_history_keeps_the_last_hundred() {
    let mut levels: Vec<u32> = Vec::new();
    for i in 0..150u32 {
        push_level(&mut levels, i);
        assert!(levels.len() <= LEVEL_HISTORY);
    }
    assert_eq!(levels.len(), 100);
    assert_eq!(levels[0], 50);
    assert_eq!(levels[99], 149);
}

#[test]
fn empty_recording_is_refused() {
    assert!(matches!(encode_recording(&[], 16000), Err(AudioError::NoAudioRecorded)));
}

#[test]
fn recording_is_encoded_as_pcm_wav() {
    let bytes = match encode_recording(&[1, -1, 256], 16000) {
        Ok(b) => b,
        Err(_) => panic!("encoding failed"),
    };
    let mut expected: Vec<u8> = Vec::new();
    expected.extend_from_slice(b"RIFF");
    expected.extend_from_slice(&(36u32 + 6).to_le_bytes());
    expected.extend_from_slice(b"WAVEfmt ");
    expected.extend_from_slice(&16u32.to_le_bytes());
    expected.extend_from_slice(&1u16.to_le_bytes());
    expected.extend_from_slice(&1u16.to_le_bytes());
    expected.extend_from_slice(&16000u32.to_le_bytes());
    expected.extend_from_slice(&32000u32.to_le_bytes());
    expected.extend_from_slice(&2u16.to_le_bytes());
    expected.extend_from_slice(&16u16.to_le_bytes());
    expected.extend_from_slice(b"data");
    expected.extend_from_slice(&6u32.to_le_bytes());
    expected.extend_from_slice(&[0x01, 0x00, 0xff, 0xff, 0x00, 0x01]);
    assert_eq!(bytes, expected);
    assert_eq!(bytes.len(), 44 + 6);
}

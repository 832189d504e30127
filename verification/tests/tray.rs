use hey::tray::{menu_action, microphone_item_id, tray_icon, update_dialog, MenuAction, UpdateCheck};

#[test]
fn fixed_menu_items() {
    assert!(matches!(menu_action("show"), MenuAction::Show));
    assert!(matches!(menu_action("copy"), MenuAction::CopyLastTranscript));
    assert!(matches!(menu_action("settings"), MenuAction::OpenSettings));
    assert!(matches!(menu_action("update"), MenuAction::CheckForUpdates));
    assert!(matches!(menu_action("quit"), MenuAction::Quit));
    assert!(matches!(menu_action("other"), MenuAction::Ignore));
    assert!(matches!(menu_action("mic"), MenuAction::Ignore));
}

#[test]
fn microphone_items_select_their_device() {
    let id = microphone_item_id("USB Mic – Ünïcode");
    assert_eq!(id, "mic_USB Mic – Ünïcode");
    match menu_action(&id) {
        MenuAction::SelectMicrophone(name) => assert_eq!(name, "USB Mic – Ünïcode"),
        _ => panic!("expected a microphone selection"),
    }
    match menu_action("mic_") {
        MenuAction::SelectMicrophone(name) => assert_eq!(name, ""),
        _ => panic!("expected a microphone selection"),
    }
}

#[test]
fn update_dialogs() {
    let d = update_dialog(UpdateCheck::Available("1.2.3".to_string()));
    assert_eq!((d.title.as_str(), d.message.as_str(), d.is_error), ("Update Available", "Version 1.2.3 is available.", false));
    let d = update_dialog(UpdateCheck::UpToDate);
    assert_eq!((d.title.as_str(), d.message.as_str(), d.is_error), ("No Updates", "You are on the latest version.", false));
    let d = update_dialog(UpdateCheck::CheckFailed("timeout".to_string()));
    assert_eq!((d.title.as_str(), d.message.as_str(), d.is_error), ("Update Check Failed", "Error: timeout", true));
    let d = update_dialog(UpdateCheck::UpdaterUnavailable("no key".to_string()));
    assert_eq!((d.title.as_str(), d.message.as_str(), d.is_error), ("Updater Error", "Failed to initialize updater: no key", true));
}

#[test]
fn icon_is_decoded_to_rgba() {
    let mut img = image::RgbaImage::new(2, 1);
    img.put_pixel(0, 0, image::Rgba([1, 2, 3, 4]));
    img.put_pixel(1, 0, image::Rgba([5, 6, 7, 8]));
    let mut png: Vec<u8> = Vec::new();
    img.write_to(&mut std::io::Cursor::new(&mut png), image::ImageFormat::Png).unwrap();
    let icon = tray_icon(&png).expect("decodes");
    assert_eq!((icon.width, icon.height), (2, 1));
    assert_eq!(icon.rgba, vec![1, 2, 3, 4, 5, 6, 7, 8]);
}

#[test]
fn garbage_is_no_icon() {
    assert!(tray_icon(b"not an image").is_none());
}

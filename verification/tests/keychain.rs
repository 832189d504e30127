use hey::keychain::{deletion_result, keychain_service, lookup_result, KeyringFailure};

#[test]
fn lookups() {
    assert_eq!(lookup_result(Ok("k".to_string())), Ok(Some("k".to_string())));
    assert_eq!(lookup_result(Err(KeyringFailure::NoEntry)), Ok(None));
    assert_eq!(
        lookup_result(Err(KeyringFailure::Other("locked".to_string()))),
        Err("Keyring error: locked".to_string())
    );
}

#[test]
fn deletions() {
    assert_eq!(deletion_result(Ok(())), Ok(()));
    assert_eq!(deletion_result(Err(KeyringFailure::NoEntry)), Ok(()));
    assert_eq!(
        deletion_result(Err(KeyringFailure::Other("denied".to_string()))),
        Err("Failed to delete key: denied".to_string())
    );
    assert_eq!(keychain_service(), "io.firstfinger.hey");
}

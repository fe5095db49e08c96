use djls_core::config::{to_hex, Config};

#[test]
fn a_missing_id_is_created_once() {
    let mut cfg = Config::default();
    assert!(cfg.watch_folder.is_none());
    assert!(!cfg.accept_shorter);
    let first = cfg.device_id_or_create().unwrap();
    assert!(first.is_new);
    assert_eq!(first.id.len(), 32);
    assert!(first.id.chars().all(|c| c.is_ascii_hexdigit() && !c.is_ascii_uppercase()));
    let second = cfg.device_id_or_create().unwrap();
    assert!(!second.is_new);
    assert_eq!(second.id, first.id);
}

#[test]
fn a_short_id_is_replaced_and_a_usable_one_kept() {
    let mut cfg = Config::default();
    cfg.device_id = Some("1234567".into());
    assert_eq!(cfg.known_device_id(), None);
    assert!(cfg.device_id_or_create().unwrap().is_new);
    // Eight bytes are enough, in however many characters.
    cfg.device_id = Some("éééé".into());
    assert_eq!(cfg.known_device_id().as_deref(), Some("éééé"));
}

#[test]
fn bytes_are_written_in_hexadecimal() {
    assert_eq!(to_hex(&[0, 1, 0xab, 0xff]), "0001abff");
    let mut cfg = Config::default();
    assert_eq!(cfg.adopt_device_id(&[0x10]), "10");
    assert_eq!(cfg.device_id.as_deref(), Some("10"));
}

#[test]
fn the_environment_wins_over_the_stored_client_id() {
    let mut cfg = Config::default();
    assert_eq!(cfg.client_id(None), None);
    cfg.spotify_client_id = Some("stored".into());
    assert_eq!(cfg.client_id(None).as_deref(), Some("stored"));
    assert_eq!(cfg.client_id(Some("".into())).as_deref(), Some("stored"));
    assert_eq!(cfg.client_id(Some("env".into())).as_deref(), Some("env"));
}

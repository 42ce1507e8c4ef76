use raw_pty_stream::product::require_release_source;

#[test]
fn upstream_release_downloads_are_disabled() {
    assert!(require_release_source().unwrap_err().contains("disabled"));
}

#[test]
fn refusal_names_the_remedy() {
    assert_eq!(
        require_release_source(),
        Err("Mastr self-updates and release downloads are disabled: no Mastr release source is configured. Build locally; for a different remote platform provide MASTR_REMOTE_BINARY.".to_string())
    );
}

use hutc::update::{is_newer_version, notice_from_payload, parse_version, update_notice};

#[test]
fn parse_version_reads_parts_and_prerelease() {
    assert_eq!(parse_version("1.2.3"), Some((vec![1, 2, 3], false)));
    assert_eq!(parse_version("v0.10.0-beta.1"), Some((vec![0, 10, 0], true)));
    assert_eq!(parse_version(" 1 . +2 ..3"), Some((vec![1, 2, 3], false)));
    assert_eq!(parse_version(""), None);
    assert_eq!(parse_version("..."), None);
    assert_eq!(parse_version("1.x"), None);
    assert_eq!(parse_version("18446744073709551616"), None);
    assert_eq!(parse_version("18446744073709551615"), Some((vec![u64::MAX], false)));
}

#[test]
fn newer_versions() {
    assert!(is_newer_version("0.2.0", "0.1.9"));
    assert!(is_newer_version("1.0", "0.9.9"));
    assert!(!is_newer_version("1.0.0", "1.0"));
    assert!(!is_newer_version("0.1.0", "0.1.0"));
    assert!(is_newer_version("0.1.0", "0.1.0-rc.1"));
    assert!(!is_newer_version("0.1.0-rc.1", "0.1.0"));
    assert!(!is_newer_version("abc", "0.1.0"));
    assert!(!is_newer_version("1.0.1", "1.0.2"));
}

#[test]
fn update_notice_text() {
    assert_eq!(
        update_notice("0.2.0", "0.1.0"),
        Some("update available (0.1.0 -> 0.2.0), run `cargo install hutc` to update".to_string())
    );
    assert_eq!(update_notice("0.1.0", "0.1.0"), None);
}

#[test]
fn notice_from_crates_io_answer() {
    let payload = r#"{"crate":{"name":"hutc","max_version":"0.3.1"},"versions":[]}"#;
    assert_eq!(
        notice_from_payload(payload, "0.2.0"),
        Some("update available (0.2.0 -> 0.3.1), run `cargo install hutc` to update".to_string())
    );
    assert_eq!(notice_from_payload(payload, "0.3.1"), None);
    assert_eq!(notice_from_payload(r#"{"crate":{"max_version":3}}"#, "0.1.0"), None);
    assert_eq!(notice_from_payload(r#"{"krate":{}}"#, "0.1.0"), None);
    assert_eq!(notice_from_payload("not json", "0.1.0"), None);
}

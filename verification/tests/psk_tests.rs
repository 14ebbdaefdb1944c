use lima::text::trim_str;
use lima::psk::{parse_psk, resolve_db_path_from, PskError, DEFAULT_DB_PATH};

#[test]
fn test_parse_psk_valid() {
    let hex = "a".repeat(64);
    let key = parse_psk(&hex).unwrap();
    assert_eq!(key.len(), 32);
    assert!(key.iter().all(|&b| b == 0xaa));
}

#[test]
fn test_parse_psk_trims_whitespace() {
    let hex = format!("  {}  \n", "ab".repeat(32));
    assert!(parse_psk(&hex).is_ok());
}

#[test]
fn test_parse_psk_rejects_odd_hex() {
    let hex = "a".repeat(63);
    assert!(parse_psk(&hex).is_err());
}

#[test]
fn test_parse_psk_rejects_wrong_length_short() {
    let hex = "ab".repeat(16);
    let err = parse_psk(&hex).unwrap_err();
    assert!(err.message().contains("32 bytes"));
}

#[test]
fn test_parse_psk_rejects_wrong_length_long() {
    let hex = "ab".repeat(64);
    let err = parse_psk(&hex).unwrap_err();
    assert!(err.message().contains("32 bytes"));
}

#[test]
fn test_parse_psk_rejects_non_hex() {
    let bad = "zz".repeat(32);
    assert!(parse_psk(&bad).is_err());
}

#[test]
fn test_parse_psk_rejects_empty() {
    assert!(parse_psk("").is_err());
}

#[test]
fn parse_psk_decodes_mixed_case_and_reports_errors() {
    let hex = format!("\t{}{}\r\n", "0123456789ABCDEF".repeat(2), "fedcba9876543210".repeat(2));
    let key = parse_psk(&hex).unwrap();
    assert_eq!(key[0], 0x01);
    assert_eq!(key[7], 0xEF);
    assert_eq!(key[16], 0xFE);
    assert_eq!(key[31], 0x10);
    assert_eq!(parse_psk("abc").unwrap_err(), PskError::NotHex);
    assert_eq!(parse_psk("zz").unwrap_err(), PskError::NotHex);
    assert_eq!(parse_psk(" ab ").unwrap_err(), PskError::WrongLength { got: 1 });
    assert_eq!(
        PskError::WrongLength { got: 16 }.message(),
        "PSK must be 32 bytes (64 hex chars), got 16"
    );
    assert_eq!(PskError::NotHex.message(), "PSK is not valid hex");
}

#[test]
fn test_resolve_db_path_default() {
    let path = resolve_db_path_from(None);
    assert_eq!(path, DEFAULT_DB_PATH);
}

#[test]
fn test_resolve_db_path_env_override() {
    let path = resolve_db_path_from(Some("/tmp/test.db".to_string()));
    assert_eq!(path, "/tmp/test.db");
}

#[test]
fn trimming_removes_unicode_white_space_at_both_ends() {
    assert_eq!(trim_str("  ab c \t\n"), "ab c");
    assert_eq!(trim_str("\u{3000}\u{a0}x\u{2028}"), "x");
    assert_eq!(trim_str(" \r\n "), "");
    assert_eq!(trim_str(""), "");
    assert_eq!(trim_str("x"), "x");
    assert_eq!(trim_str("\u{200b}x"), "\u{200b}x");
}

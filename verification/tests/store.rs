use mailkit::envars::{AppConfig, CONFIG_FILE_DELIMITER};

#[test]
fn create() {
    let text = b"MAIL:SMTP_SERVER=smtp.example.com\nMAIL:SMTP_PORT=587\n".to_vec();
    let config = AppConfig::init(&text, CONFIG_FILE_DELIMITER);
    assert!(config.get_var(b"MAIL:SMTP_SERVER").is_some(), "Env vars map is empty");
}

#[test]
fn lookup_returns_the_value() {
    let text = b"key=value\nport=587\n".to_vec();
    let config = AppConfig::init(&text, CONFIG_FILE_DELIMITER);
    assert_eq!(config.get_var(b"key"), Some(&b"value".to_vec()));
    assert_eq!(config.get_var(b"port"), Some(&b"587".to_vec()));
}

#[test]
fn missing_key_is_none() {
    let text = b"key=value\n".to_vec();
    let config = AppConfig::init(&text, CONFIG_FILE_DELIMITER);
    assert_eq!(config.get_var(b"other"), None);
}

#[test]
fn later_line_overrides_earlier_one() {
    let text = b"key=first\nkey=second\n".to_vec();
    let config = AppConfig::init(&text, CONFIG_FILE_DELIMITER);
    assert_eq!(config.get_var(b"key"), Some(&b"second".to_vec()));
}

#[test]
fn lines_are_trimmed_at_their_ends_only() {
    let text = b"  key=value \r\nname = spaced \n\x0c\x0bother=1\x0b\x0c\n".to_vec();
    let config = AppConfig::init(&text, CONFIG_FILE_DELIMITER);
    assert_eq!(config.get_var(b"key"), Some(&b"value".to_vec()));
    assert_eq!(config.get_var(b"name "), Some(&b" spaced".to_vec()));
    assert_eq!(config.get_var(b"other"), Some(&b"1".to_vec()));
}

#[test]
fn value_keeps_later_delimiters() {
    let text = b"expr=a=b\n".to_vec();
    let config = AppConfig::init(&text, CONFIG_FILE_DELIMITER);
    assert_eq!(config.get_var(b"expr"), Some(&b"a=b".to_vec()));
}

#[test]
fn lines_without_delimiter_yield_nothing() {
    let text = b"no delimiter here\n\nkey=value".to_vec();
    let config = AppConfig::init(&text, CONFIG_FILE_DELIMITER);
    assert_eq!(config.get_var(b"no delimiter here"), None);
    assert_eq!(config.get_var(b"key"), Some(&b"value".to_vec()));
}

use hookbuffer::config::{destination_for, destination_from_setting, parse_port, port_from_setting};

#[test]
fn env_default() {
    assert_eq!(port_from_setting(None), 8000);
}

#[test]
fn env_custom() {
    assert_eq!(port_from_setting(Some("1234")), 1234);
}

#[test]
fn custom_invalid() {
    assert_eq!(port_from_setting(Some("abc")), 8000);
}

#[test]
fn port_edge_cases() {
    assert_eq!(parse_port("65535"), Some(65535));
    assert_eq!(parse_port("65536"), None);
    assert_eq!(parse_port("+80"), Some(80));
    assert_eq!(parse_port("0080"), Some(80));
    assert_eq!(parse_port(""), None);
    assert_eq!(parse_port("+"), None);
    assert_eq!(parse_port("-1"), None);
    assert_eq!(parse_port("12a"), None);
    assert_eq!(parse_port("99999999999999999999"), None);
}

#[test]
fn destination_default() {
    assert_eq!(destination_from_setting(None), "https://discord.com/");
}

#[test]
fn destination_custom() {
    assert_eq!(destination_from_setting(Some("https://example.com".to_string())), "https://example.com/");
    assert_eq!(destination_from_setting(Some("https://example.com/".to_string())), "https://example.com/");
}

#[test]
fn custom_no_trailing_slash() {
    assert_eq!(destination_from_setting(Some("https://example.com".to_string())), "https://example.com/");
}

#[test]
fn destination_appends_path() {
    assert_eq!(
        destination_for("https://discord.com/", "api/webhooks/1/abc"),
        "https://discord.com/api/webhooks/1/abc"
    );
}

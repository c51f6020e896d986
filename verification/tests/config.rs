use base64::{engine::general_purpose::STANDARD, Engine};
use spotify_canvas_downloader::config::{
    bind_addr_text, non_empty, parse_totp_override, service_config, spotify_settings,
    totp_override_from_env, ConfigError, CANVAS_URL, CATALOG_URL, TOKEN_URL,
};
use spotify_canvas_downloader::decimal::{parse_u32, u32_to_decimal_string};

#[test]
fn parses_absent_and_valid_totp_overrides() {
    assert!(parse_totp_override(None, None).unwrap().is_none());
    let secret = parse_totp_override(Some("61".into()), Some(STANDARD.encode([44_u8, 55, 47])))
        .unwrap()
        .unwrap();
    assert_eq!(secret.version, 61);
    assert_eq!(secret.bytes, [44, 55, 47]);
}

#[test]
fn rejects_invalid_totp_overrides() {
    assert!(matches!(
        parse_totp_override(Some("61".into()), None),
        Err(ConfigError::IncompleteTotpOverride)
    ));
    assert!(matches!(
        parse_totp_override(Some("x".into()), Some("QQ==".into())),
        Err(ConfigError::InvalidTotpVersion)
    ));
    assert!(matches!(
        parse_totp_override(Some("61".into()), Some("!".into())),
        Err(ConfigError::InvalidTotpSecret)
    ));
    assert!(matches!(
        parse_totp_override(Some("61".into()), Some(String::new())),
        Err(ConfigError::InvalidTotpSecret)
    ));
}

#[test]
fn secret_without_version_is_incomplete() {
    assert!(matches!(
        parse_totp_override(None, Some("QQ==".into())),
        Err(ConfigError::IncompleteTotpOverride)
    ));
}

#[test]
fn blank_settings_count_as_unset() {
    assert_eq!(non_empty(Some("  value \n".into())), Some("value".to_owned()));
    assert_eq!(non_empty(Some(" \t\u{3000} ".into())), None);
    assert_eq!(non_empty(Some(String::new())), None);
    assert_eq!(non_empty(None), None);
    let secret = totp_override_from_env(Some(" 61 ".into()), Some(" QQ== ".into()))
        .unwrap()
        .unwrap();
    assert_eq!(secret.version, 61);
    assert_eq!(secret.bytes, [65]);
    assert!(totp_override_from_env(Some(" ".into()), Some("".into())).unwrap().is_none());
}

#[test]
fn sp_dc_is_required() {
    assert!(matches!(
        spotify_settings(None, None, None, None, None),
        Err(ConfigError::MissingSpDc)
    ));
    assert!(matches!(
        spotify_settings(Some("   ".into()), None, None, None, None),
        Err(ConfigError::MissingSpDc)
    ));
}

#[test]
fn settings_have_defaults_and_overrides() {
    let settings = spotify_settings(Some(" dc ".into()), Some("".into()), None, None, None).unwrap();
    assert_eq!(settings.sp_dc, "dc");
    assert_eq!(settings.sp_key, None);
    assert_eq!(settings.token_url, TOKEN_URL);
    assert_eq!(settings.canvas_url, CANVAS_URL);
    assert_eq!(settings.catalog_url, CATALOG_URL);
    assert!(settings.totp_override.is_none());

    let settings = spotify_settings(
        Some("dc".into()),
        Some("key".into()),
        Some("https://example.test/catalog.json".into()),
        Some("7".into()),
        Some("AQI=".into()),
    )
    .unwrap();
    assert_eq!(settings.sp_key.as_deref(), Some("key"));
    assert_eq!(settings.catalog_url, "https://example.test/catalog.json");
    let secret = settings.totp_override.unwrap();
    assert_eq!(secret.version, 7);
    assert_eq!(secret.bytes, [1, 2]);

    assert!(matches!(
        spotify_settings(Some("dc".into()), None, None, Some("7".into()), None),
        Err(ConfigError::IncompleteTotpOverride)
    ));
}

#[test]
fn parses_u32_as_std_does() {
    for text in ["0", "61", "+61", "0061", "4294967295", "4294967296", "", "+", "-", "-1", "1 ", "x", "+-1", "٣"] {
        assert_eq!(parse_u32(text), text.parse::<u32>().ok(), "{text:?}");
    }
}

#[test]
fn decimal_strings_parse_back() {
    for n in [0u32, 7, 10, 61, 99, 100, 65_535, u32::MAX] {
        let text = u32_to_decimal_string(n);
        assert_eq!(text, n.to_string());
        assert_eq!(parse_u32(&text), Some(n));
    }
}

#[test]
fn configuration_errors_come_in_order() {
    assert!(matches!(
        service_config::<u16>(None, None, None, Some("x".into()), None, None, None),
        Err(ConfigError::MissingSpDc)
    ));
    assert!(matches!(
        service_config::<u16>(Some("dc".into()), None, None, Some("x".into()), None, None, None),
        Err(ConfigError::InvalidBindAddress)
    ));
    assert!(matches!(
        service_config(Some("dc".into()), None, None, Some("x".into()), None, None, Some(1u16)),
        Err(ConfigError::IncompleteTotpOverride)
    ));
    let config = service_config(
        Some("dc".into()),
        None,
        None,
        None,
        None,
        Some(" https://example.test ".into()),
        Some(8000u16),
    )
    .unwrap();
    assert_eq!(config.bind_addr, 8000);
    assert_eq!(config.host_origin.as_deref(), Some("https://example.test"));
    assert_eq!(config.spotify.sp_dc, "dc");
}

#[test]
fn listen_address_defaults_and_is_not_trimmed() {
    assert_eq!(bind_addr_text(None), "127.0.0.1:8000");
    assert_eq!(bind_addr_text(Some(" 0.0.0.0:80".into())), " 0.0.0.0:80");
    assert_eq!(bind_addr_text(Some(String::new())), "");
}

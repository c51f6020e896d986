use std::collections::HashMap;

use serde_json::Value;
use spotify_canvas_downloader::spotify::auth::{
    after_token_request, auth_cookie, begin_refresh_after_unauthorized, begin_token_lookup,
    catalog_secret, check_catalog_status, check_token_status, fallback_secret, millis_as_u64,
    normalize_catalog, secret_after_fetch, secret_from_cache, secret_totp, select_latest,
    spotify_totp_key, token_from_body, token_is_valid, token_is_valid_at, token_query,
    token_request_query, unix_milliseconds, unix_seconds, CachedToken, TokenResponse, TokenStep,
    TotpSecret, FALLBACK_BYTES,
};
use spotify_canvas_downloader::spotify::{retry_after, SpotifyError};
use totp_rs::{Algorithm, TOTP};

/// A catalog value as the service hands it to the library: the JSON array
/// with each element read as an unsigned integer where it is one.
fn catalog_entries(catalog: HashMap<String, Value>) -> Vec<(String, Option<Vec<Option<u64>>>)> {
    catalog
        .into_iter()
        .map(|(name, value)| {
            let items = value
                .as_array()
                .map(|items| items.iter().map(Value::as_u64).collect());
            (name, items)
        })
        .collect()
}

#[test]
fn fallback_is_the_current_catalog_version() {
    let secret = fallback_secret();
    assert_eq!(secret.version, 61);
    assert_eq!(secret.bytes, FALLBACK_BYTES);
}

#[test]
fn generates_stable_totp_for_fixed_time() {
    let key = spotify_totp_key(&FALLBACK_BYTES);
    let totp = TOTP::new(Algorithm::SHA1, 6, 1, 30, key).unwrap();
    assert_eq!(totp.generate(1_785_531_000), "352797");
}

#[test]
fn selects_highest_catalog_version() {
    let catalog = HashMap::from([
        ("invalid".to_owned(), vec![9]),
        ("2".to_owned(), vec![1, 2]),
        ("10".to_owned(), vec![3, 4]),
        ("11".to_owned(), vec![]),
    ]);
    let secret = select_latest(catalog.into_iter().collect()).unwrap();
    assert_eq!(secret.version, 10);
    assert_eq!(secret.bytes, [3, 4]);
}

#[test]
fn discards_only_malformed_catalog_entries() {
    let catalog = HashMap::from([
        ("61".to_owned(), Value::from(vec![44, 55, 47])),
        ("62".to_owned(), Value::from(vec![1, 999])),
        ("63".to_owned(), Value::from("invalid")),
    ]);

    let secret = select_latest(normalize_catalog(catalog_entries(catalog))).unwrap();
    assert_eq!(secret.version, 61);
    assert_eq!(secret.bytes, [44, 55, 47]);
}

#[test]
fn totp_key_writes_mixed_bytes_in_decimal() {
    // 44 ^ 9 = 37, 55 ^ 10 = 61, 47 ^ 11 = 36
    assert_eq!(spotify_totp_key(&[44, 55, 47]), b"376136".to_vec());
    assert_eq!(spotify_totp_key(&[]), Vec::<u8>::new());
    // at position 32 the mask is 41 and at 33 it starts again at 9
    let mut bytes = vec![0u8; 34];
    bytes[32] = 41;
    bytes[33] = 9;
    let key = spotify_totp_key(&bytes);
    assert!(key.ends_with(b"00"));
    // 255 ^ 9 = 246, three digits
    assert_eq!(spotify_totp_key(&[255]), b"246".to_vec());
}

#[test]
fn totp_of_the_fallback_secret_is_stable() {
    let code = secret_totp(&fallback_secret(), 1_785_531_000).unwrap();
    assert_eq!(code, "352797");
    let other = secret_totp(&fallback_secret(), 1_785_531_030).unwrap();
    assert_eq!(other.len(), 6);
}

#[test]
fn short_secret_keys_are_refused() {
    let short = TotpSecret { version: 1, bytes: vec![1, 2, 3] };
    assert!(matches!(
        secret_totp(&short, 0),
        Err(SpotifyError::Authentication(_))
    ));
    assert!(matches!(
        token_request_query(&short, 0),
        Err(SpotifyError::Authentication(_))
    ));
}

#[test]
fn token_query_names_code_and_version() {
    let query = token_query("123456".to_owned(), 61);
    let expected: Vec<(String, String)> = [
        ("reason", "init"),
        ("productType", "web-player"),
        ("totp", "123456"),
        ("totpServer", "123456"),
        ("totpVer", "61"),
    ]
    .iter()
    .map(|(k, v)| (k.to_string(), v.to_string()))
    .collect();
    assert_eq!(query, expected);
    let query = token_request_query(&fallback_secret(), 1_785_531_000).unwrap();
    assert_eq!(query[2].1, "352797");
    assert_eq!(query[4].1, "61");
}

#[test]
fn catalog_ties_go_to_the_later_entry() {
    let catalog = vec![
        ("10".to_owned(), vec![1]),
        ("+10".to_owned(), vec![2]),
        ("010".to_owned(), vec![3]),
        ("9".to_owned(), vec![4]),
    ];
    let secret = select_latest(catalog).unwrap();
    assert_eq!(secret.version, 10);
    assert_eq!(secret.bytes, [3]);
    assert!(select_latest(vec![("x".to_owned(), vec![1])]).is_none());
    assert!(select_latest(vec![]).is_none());
}

#[test]
fn empty_catalog_is_an_authentication_failure() {
    match catalog_secret(vec![("1".to_owned(), Some(vec![]))]) {
        Err(SpotifyError::Authentication(message)) => assert_eq!(message, "TOTP catalog is empty"),
        other => panic!("unexpected {other:?}"),
    }
    let secret = catalog_secret(vec![
        ("4294967295".to_owned(), Some(vec![Some(255)])),
        ("4294967296".to_owned(), Some(vec![Some(1)])),
    ])
    .unwrap();
    assert_eq!(secret.version, u32::MAX);
    assert_eq!(secret.bytes, [255]);
}

#[test]
fn override_secret_always_wins() {
    let chosen = TotpSecret { version: 7, bytes: vec![7] };
    let cached = Some(TotpSecret { version: 8, bytes: vec![8] });
    let r = secret_from_cache(&Some(chosen.clone()), true, &cached, 0).unwrap();
    assert_eq!(r, chosen);
}

#[test]
fn cached_secret_is_used_for_an_hour() {
    let cached = Some(TotpSecret { version: 8, bytes: vec![8] });
    assert_eq!(secret_from_cache(&None, false, &cached, 3599), cached);
    assert_eq!(secret_from_cache(&None, false, &cached, 3600), None);
    assert_eq!(secret_from_cache(&None, true, &cached, 0), None);
    assert_eq!(secret_from_cache(&None, false, &None, 0), None);
}

#[test]
fn failed_catalog_read_falls_back() {
    let fetched = TotpSecret { version: 9, bytes: vec![9] };
    let choice = secret_after_fetch(Ok(fetched.clone()), &None);
    assert!(choice.store);
    assert_eq!(choice.secret, fetched);

    let cached = Some(TotpSecret { version: 8, bytes: vec![8] });
    let choice = secret_after_fetch(Err(SpotifyError::Upstream(500)), &cached);
    assert!(!choice.store);
    assert_eq!(Some(choice.secret), cached);

    let choice = secret_after_fetch(Err(SpotifyError::Upstream(500)), &None);
    assert!(!choice.store);
    assert_eq!(choice.secret, fallback_secret());
}

#[test]
fn catalog_status_must_be_successful() {
    assert!(check_catalog_status(200).is_ok());
    assert!(matches!(check_catalog_status(404), Err(SpotifyError::Upstream(404))));
}

#[test]
fn cookie_carries_session_and_key() {
    assert_eq!(auth_cookie("abc", None).unwrap(), "sp_dc=abc");
    assert_eq!(auth_cookie("abc", Some("k")).unwrap(), "sp_dc=abc; sp_key=k");
    match auth_cookie("a\nb", None) {
        Err(SpotifyError::Authentication(message)) => {
            assert_eq!(message, "cookie contains invalid header characters")
        }
        other => panic!("unexpected {other:?}"),
    }
}

#[test]
fn token_freshness_keeps_a_margin() {
    let token = CachedToken { value: "t".into(), expires_at_ms: 100_000 };
    assert!(token_is_valid_at(&token, Some(69_999)));
    assert!(!token_is_valid_at(&token, Some(70_000)));
    assert!(!token_is_valid_at(&token, Some(u64::MAX)));
    assert!(!token_is_valid_at(&token, None));
    assert!(!token_is_valid(&token));
    let far = CachedToken { value: "t".into(), expires_at_ms: u64::MAX };
    assert!(token_is_valid(&far));
}

#[test]
fn clock_reads_after_1970() {
    assert!(unix_seconds().unwrap() > 1_600_000_000);
    assert!(unix_milliseconds().unwrap() > 1_600_000_000_000);
    assert_eq!(millis_as_u64(5), Some(5));
    assert_eq!(millis_as_u64(u64::MAX as u128 + 1), None);
}

#[test]
fn lookup_reuses_a_fresh_token() {
    let cached = Some(CachedToken { value: "t".into(), expires_at_ms: 100_000 });
    match begin_token_lookup(false, &cached, Some(0)) {
        TokenStep::Ready(t) => assert_eq!(t, "t"),
        other => panic!("unexpected {other:?}"),
    }
    assert!(matches!(begin_token_lookup(true, &cached, Some(0)), TokenStep::Request(true)));
    assert!(matches!(
        begin_token_lookup(false, &cached, Some(90_000)),
        TokenStep::Request(false)
    ));
    assert!(matches!(begin_token_lookup(false, &None, Some(0)), TokenStep::Request(false)));
}

#[test]
fn authentication_failure_is_retried_once_with_fresh_catalog() {
    assert!(matches!(
        after_token_request(false, Err(SpotifyError::Authentication("x".into()))),
        TokenStep::Request(true)
    ));
    assert!(matches!(
        after_token_request(true, Err(SpotifyError::Authentication("x".into()))),
        TokenStep::Fail(SpotifyError::Authentication(_))
    ));
    assert!(matches!(
        after_token_request(false, Err(SpotifyError::Upstream(500))),
        TokenStep::Fail(SpotifyError::Upstream(500))
    ));
    let token = CachedToken { value: "new".into(), expires_at_ms: 5 };
    match after_token_request(false, Ok(token)) {
        TokenStep::Store(t) => assert_eq!(t.value, "new"),
        other => panic!("unexpected {other:?}"),
    }
}

#[test]
fn refresh_skips_the_refused_token() {
    let cached = Some(CachedToken { value: "old".into(), expires_at_ms: 100_000 });
    assert!(matches!(
        begin_refresh_after_unauthorized(&cached, "old", Some(0)),
        TokenStep::Request(true)
    ));
    match begin_refresh_after_unauthorized(&cached, "older", Some(0)) {
        TokenStep::Ready(t) => assert_eq!(t, "old"),
        other => panic!("unexpected {other:?}"),
    }
    assert!(matches!(
        begin_refresh_after_unauthorized(&cached, "older", Some(80_000)),
        TokenStep::Request(true)
    ));
}

#[test]
fn token_status_and_body_checks() {
    assert!(check_token_status(200, "200 OK", None).is_ok());
    match check_token_status(429, "429 Too Many Requests", Some("3".into())) {
        Err(SpotifyError::RateLimited(Some(d))) => assert_eq!(d, "3"),
        other => panic!("unexpected {other:?}"),
    }
    match check_token_status(401, "401 Unauthorized", None) {
        Err(SpotifyError::Authentication(m)) => {
            assert_eq!(m, "token endpoint returned 401 Unauthorized")
        }
        other => panic!("unexpected {other:?}"),
    }
    match token_from_body(Err("bad json".into())) {
        Err(SpotifyError::Authentication(m)) => assert_eq!(m, "invalid token response: bad json"),
        other => panic!("unexpected {other:?}"),
    }
    for (token, anonymous) in [("", false), ("t", true)] {
        let body = TokenResponse {
            access_token: token.into(),
            access_token_expiration_timestamp_ms: 1,
            is_anonymous: anonymous,
        };
        match token_from_body(Ok(body)) {
            Err(SpotifyError::Authentication(m)) => assert_eq!(
                m,
                "Spotify returned an anonymous or empty token; SP_DC is invalid"
            ),
            other => panic!("unexpected {other:?}"),
        }
    }
    let body = TokenResponse {
        access_token: "t".into(),
        access_token_expiration_timestamp_ms: 42,
        is_anonymous: false,
    };
    let token = token_from_body(Ok(body)).unwrap();
    assert_eq!(token.value, "t");
    assert_eq!(token.expires_at_ms, 42);
}

#[test]
fn retry_after_passes_visible_ascii_only() {
    assert_eq!(retry_after(Some(&b"12"[..])), Some("12".to_owned()));
    assert_eq!(retry_after(Some(&b"a\tb"[..])), Some("a\tb".to_owned()));
    assert_eq!(retry_after(Some(&[0x80u8][..])), None);
    assert_eq!(retry_after(None), None);
}

#[test]
fn totp_key_is_digits_and_repeats_every_33_bytes() {
    let a: Vec<u8> = (0..66u8).collect();
    let b: Vec<u8> = vec![200, 1, 77];
    let mut ab = a.clone();
    ab.extend_from_slice(&b);
    let mut joined = spotify_totp_key(&a);
    joined.extend(spotify_totp_key(&b));
    assert_eq!(spotify_totp_key(&ab), joined);
    assert!(spotify_totp_key(&ab).iter().all(u8::is_ascii_digit));
}

#[test]
fn totp_codes_are_six_digits() {
    for now in [0u64, 29, 30, 1_785_531_000, u64::MAX] {
        let code = secret_totp(&fallback_secret(), now).unwrap();
        assert_eq!(code.len(), 6);
        assert!(code.bytes().all(|b| b.is_ascii_digit()));
    }
}

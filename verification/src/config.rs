//! The configuration rules: which settings are required, their defaults, and
//! the optional TOTP secret that replaces the catalog.
use vstd::prelude::*;
use vstd::string::StringSliceAdditionalSpecFns;
use vstd::string::StringExecFns;

use crate::decimal::{parse_u32, parsed_u32};
use crate::spotify::auth::TotpSecret;
use crate::spotify::SpotifySettings;
use crate::text::{trim_whitespace, trimmed};

verus! {

/// Spotify's token endpoint.
pub const TOKEN_URL: &'static str = "https://open.spotify.com/api/token";

/// Spotify's Canvas endpoint.
pub const CANVAS_URL: &'static str = "https://gew1-spclient.spotify.com/canvaz-cache/v0/canvases";

/// The catalog of TOTP secrets that is read unless another is configured.
pub const CATALOG_URL: &'static str =
    "https://code.thetadev.de/ThetaDev/spotify-secrets/raw/branch/main/secrets/secretDict.json";

/// What is wrong with the configuration.
#[derive(Debug, Clone, Copy, PartialEq, Eq)]
pub enum ConfigError {
    /// `SP_DC` is unset or blank.
    MissingSpDc,
    /// `BIND_ADDR` is not a socket address.
    InvalidBindAddress,
    /// Only one of `SPOTIFY_TOTP_VERSION` and `SPOTIFY_TOTP_SECRET_BASE64` is set.
    IncompleteTotpOverride,
    /// `SPOTIFY_TOTP_VERSION` is not a `u32`.
    InvalidTotpVersion,
    /// `SPOTIFY_TOTP_SECRET_BASE64` is not base64 or decodes to nothing.
    InvalidTotpSecret,
}

/// A setting's value as it is used: trimmed, and absent when blank.
pub open spec fn setting_value(raw: Option<Seq<char>>) -> Option<Seq<char>> {
    match raw {
        Some(v) => if trimmed(v).len() == 0 {
            None
        } else {
            Some(trimmed(v))
        },
        None => None,
    }
}

/// The view of an optional string.
pub open spec fn opt_text(o: Option<String>) -> Option<Seq<char>> {
    match o {
        Some(s) => Some(s@),
        None => None,
    }
}

/// A raw setting, trimmed; `None` when it is unset or blank.
pub fn non_empty(raw: Option<String>) -> (r: Option<String>)
    ensures
        opt_text(r) == setting_value(opt_text(raw)),
{
    match raw {
        None => None,
        Some(v) => {
            let t = trim_whitespace(v.as_str());
            if t.is_empty() {
                None
            } else {
                Some(t.to_owned())
            }
        },
    }
}

#[verifier::external_type_specification]
#[verifier::external_body]
pub struct ExBase64DecodeError(base64::DecodeError);

// What the standard base64 engine (RFC 4648 alphabet, padding required)
// decodes `input` to, or nothing when it refuses it.
pub uninterp spec fn standard_base64_decoded(input: Seq<u8>) -> Option<Seq<u8>>;

/// `base64::engine::general_purpose::STANDARD.decode`. Claimed: the result
/// depends on the input's bytes alone, named `standard_base64_decoded`.
#[verifier::external_body]
fn decode_base64(input: &str) -> (r: Result<Vec<u8>, base64::DecodeError>)
    ensures
        match r {
            Ok(b) => standard_base64_decoded(input.spec_bytes()) == Some(b@),
            Err(_) => standard_base64_decoded(input.spec_bytes()) is None,
        },
{
    base64::Engine::decode(&base64::engine::general_purpose::STANDARD, input)
}

/// The override secret made of a version and the decoded secret: decoding
/// must have succeeded and given at least one byte.
pub open spec fn override_from_decoded(version: u32, decoded: Option<Seq<u8>>) -> Result<
    Option<(u32, Seq<u8>)>,
    ConfigError,
> {
    match decoded {
        Some(b) => if b.len() == 0 {
            Err(ConfigError::InvalidTotpSecret)
        } else {
            Ok(Some((version, b)))
        },
        None => Err(ConfigError::InvalidTotpSecret),
    }
}

/// The view of an override secret result.
pub open spec fn override_view(r: Result<Option<TotpSecret>, ConfigError>) -> Result<
    Option<(u32, Seq<u8>)>,
    ConfigError,
> {
    match r {
        Ok(Some(s)) => Ok(Some((s.version, s.bytes@))),
        Ok(None) => Ok(None),
        Err(e) => Err(e),
    }
}

/// The override secret of `version` from the decoded secret, if decoding
/// succeeded.
pub fn secret_from_decoded(version: u32, decoded: Option<Vec<u8>>) -> (r: Result<
    Option<TotpSecret>,
    ConfigError,
>)
    ensures
        override_view(r) == override_from_decoded(
            version,
            match decoded {
                Some(b) => Some(b@),
                None => None,
            },
        ),
{
    match decoded {
        Some(bytes) => {
            if bytes.len() == 0 {
                Err(ConfigError::InvalidTotpSecret)
            } else {
                Ok(Some(TotpSecret { version, bytes }))
            }
        },
        None => Err(ConfigError::InvalidTotpSecret),
    }
}

/// The TOTP override: none when neither part is given; both parts must be
/// given together, the version a `u32` and the secret non-empty standard
/// base64.
pub open spec fn totp_override(version: Option<Seq<char>>, secret: Option<Seq<char>>) -> Result<
    Option<(u32, Seq<u8>)>,
    ConfigError,
> {
    match (version, secret) {
        (None, None) => Ok(None),
        (Some(v), Some(s)) => match parsed_u32(vstd::utf8::encode_utf8(v)) {
            Some(n) => override_from_decoded(
                n,
                standard_base64_decoded(vstd::utf8::encode_utf8(s)),
            ),
            None => Err(ConfigError::InvalidTotpVersion),
        },
        _ => Err(ConfigError::IncompleteTotpOverride),
    }
}

/// Reads the TOTP override from its two settings.
pub fn parse_totp_override(version: Option<String>, secret: Option<String>) -> (r: Result<
    Option<TotpSecret>,
    ConfigError,
>)
    ensures
        override_view(r) == totp_override(opt_text(version), opt_text(secret)),
{
    match (version, secret) {
        (None, None) => Ok(None),
        (Some(v), Some(s)) => {
            let n = match parse_u32(v.as_str()) {
                Some(n) => n,
                None => {
                    return Err(ConfigError::InvalidTotpVersion);
                },
            };
            let decoded = match decode_base64(s.as_str()) {
                Ok(b) => Some(b),
                Err(_) => None,
            };
            secret_from_decoded(n, decoded)
        },
        (Some(_), None) => Err(ConfigError::IncompleteTotpOverride),
        (None, Some(_)) => Err(ConfigError::IncompleteTotpOverride),
    }
}

/// Reads the TOTP override from the raw values of `SPOTIFY_TOTP_VERSION` and
/// `SPOTIFY_TOTP_SECRET_BASE64`, which are trimmed and count as unset when
/// blank.
pub fn totp_override_from_env(version: Option<String>, secret: Option<String>) -> (r: Result<
    Option<TotpSecret>,
    ConfigError,
>)
    ensures
        override_view(r) == totp_override(
            setting_value(opt_text(version)),
            setting_value(opt_text(secret)),
        ),
{
    parse_totp_override(non_empty(version), non_empty(secret))
}

/// `s` holds what the raw settings give: the trimmed session cookie and key,
/// Spotify's endpoints, the configured or default catalog, and the override
/// secret `o`.
pub open spec fn settings_hold(
    s: SpotifySettings,
    sp_dc: Option<Seq<char>>,
    sp_key: Option<Seq<char>>,
    catalog_url: Option<Seq<char>>,
    o: Option<(u32, Seq<u8>)>,
) -> bool {
    &&& Some(s.sp_dc@) == setting_value(sp_dc)
    &&& opt_text(s.sp_key) == setting_value(sp_key)
    &&& s.token_url@ == TOKEN_URL@
    &&& s.canvas_url@ == CANVAS_URL@
    &&& s.catalog_url@ == match setting_value(catalog_url) {
        Some(c) => c,
        None => CATALOG_URL@,
    }
    &&& override_view(Ok(s.totp_override)) == Ok::<_, ConfigError>(o)
}

/// The settings of the Spotify client from the raw values of `SP_DC`,
/// `SP_KEY`, `SPOTIFY_TOTP_CATALOG_URL`, `SPOTIFY_TOTP_VERSION` and
/// `SPOTIFY_TOTP_SECRET_BASE64`: `SP_DC` is required, the catalog has a
/// default, and the endpoints are Spotify's.
pub fn spotify_settings(
    sp_dc: Option<String>,
    sp_key: Option<String>,
    catalog_url: Option<String>,
    totp_version: Option<String>,
    totp_secret: Option<String>,
) -> (r: Result<SpotifySettings, ConfigError>)
    ensures
        setting_value(opt_text(sp_dc)) is None ==> r == Err::<SpotifySettings, ConfigError>(
            ConfigError::MissingSpDc,
        ),
        setting_value(opt_text(sp_dc)) is Some ==> match totp_override(
            setting_value(opt_text(totp_version)),
            setting_value(opt_text(totp_secret)),
        ) {
            Err(e) => r == Err::<SpotifySettings, ConfigError>(e),
            Ok(o) => r matches Ok(s) && settings_hold(
                s,
                opt_text(sp_dc),
                opt_text(sp_key),
                opt_text(catalog_url),
                o,
            ),
        },
{
    let sp_dc = match non_empty(sp_dc) {
        Some(v) => v,
        None => {
            return Err(ConfigError::MissingSpDc);
        },
    };
    let sp_key = non_empty(sp_key);
    let catalog_url = match non_empty(catalog_url) {
        Some(c) => c,
        None => String::from_str(CATALOG_URL),
    };
    let totp_override = totp_override_from_env(totp_version, totp_secret)?;
    Ok(
        SpotifySettings {
            sp_dc,
            sp_key,
            token_url: String::from_str(TOKEN_URL),
            canvas_url: String::from_str(CANVAS_URL),
            catalog_url,
            totp_override,
        },
    )
}

/// The address the service listens on when `BIND_ADDR` is unset.
pub const DEFAULT_BIND_ADDR: &'static str = "127.0.0.1:8000";

/// The text of the listen address: `BIND_ADDR` as it is, not trimmed, or the
/// default when it is unset.
pub fn bind_addr_text(raw: Option<String>) -> (r: String)
    ensures
        r@ == match opt_text(raw) {
            Some(v) => v,
            None => DEFAULT_BIND_ADDR@,
        },
{
    match raw {
        Some(v) => v,
        None => String::from_str(DEFAULT_BIND_ADDR),
    }
}

/// The service's configuration: where it listens, the one extra CORS origin,
/// and the Spotify client's settings.
#[derive(Debug)]
pub struct ServiceConfig<A> {
    pub bind_addr: A,
    pub host_origin: Option<String>,
    pub spotify: SpotifySettings,
}

/// The service's configuration from the raw settings; `bind_addr` is the
/// listen address read from `bind_addr_text`, or `None` when that text is no
/// socket address. A missing `SP_DC` is reported first, then a bad listen
/// address, then a bad TOTP override.
pub fn service_config<A>(
    sp_dc: Option<String>,
    sp_key: Option<String>,
    catalog_url: Option<String>,
    totp_version: Option<String>,
    totp_secret: Option<String>,
    host_origin: Option<String>,
    bind_addr: Option<A>,
) -> (r: Result<ServiceConfig<A>, ConfigError>)
    ensures
        setting_value(opt_text(sp_dc)) is None ==> (r matches Err(e) && e
            == ConfigError::MissingSpDc),
        setting_value(opt_text(sp_dc)) is Some && bind_addr is None ==> (r matches Err(e) && e
            == ConfigError::InvalidBindAddress),
        setting_value(opt_text(sp_dc)) is Some && bind_addr is Some ==> match totp_override(
            setting_value(opt_text(totp_version)),
            setting_value(opt_text(totp_secret)),
        ) {
            Err(e) => r matches Err(f) && f == e,
            Ok(o) => r matches Ok(c) && {
                &&& Some(c.bind_addr) == bind_addr
                &&& opt_text(c.host_origin) == setting_value(opt_text(host_origin))
                &&& settings_hold(
                    c.spotify,
                    opt_text(sp_dc),
                    opt_text(sp_key),
                    opt_text(catalog_url),
                    o,
                )
            },
        },
{
    let spotify = spotify_settings(sp_dc, sp_key, catalog_url, totp_version, totp_secret);
    if let Err(ConfigError::MissingSpDc) = spotify {
        return Err(ConfigError::MissingSpDc);
    }
    let bind_addr = match bind_addr {
        Some(a) => a,
        None => {
            return Err(ConfigError::InvalidBindAddress);
        },
    };
    let host_origin = non_empty(host_origin);
    match spotify {
        Ok(spotify) => Ok(ServiceConfig { bind_addr, host_origin, spotify }),
        Err(e) => Err(e),
    }
}

} // verus!

//! The HTTP API's own rules: which track IDs are accepted, which origins
//! may call it, and what a Canvas lookup answers.
use vstd::prelude::*;
use vstd::string::StringSliceAdditionalSpecFns;
use vstd::string::StringExecFns;

use crate::error::AppError;
use crate::header::{is_valid_header_value, valid_header_bytes};
use crate::spotify::SpotifyError;

verus! {


/// Number of characters in a Spotify track ID.
pub const TRACK_ID_LEN: usize = 22;

/// ASCII digits (48..=57), lower-case (97..=122) and upper-case (65..=90)
/// letters: the base62 alphabet of track IDs.
pub open spec fn is_base62_byte(b: u8) -> bool {
    (48 <= b <= 57) || (97 <= b <= 122) || (65 <= b <= 90)
}

/// A track ID is exactly 22 bytes, each an ASCII letter or digit.
pub open spec fn valid_track_id(bytes: Seq<u8>) -> bool {
    &&& bytes.len() == TRACK_ID_LEN
    &&& forall|i: int| 0 <= i < bytes.len() ==> #[trigger] is_base62_byte(bytes[i])
}

/// A track ID's bytes are exactly the ASCII letters and digits, `0` to `9`,
/// `a` to `z` and `A` to `Z`, read as characters.
pub proof fn lemma_base62_is_ascii_alphanumeric(b: u8)
    ensures
        is_base62_byte(b) <==> (('0' <= (b as char) <= '9') || ('a' <= (b as char) <= 'z') || ('A'
            <= (b as char) <= 'Z')),
{
}

/// Every string of 22 bytes that are ASCII letters and digits is a valid
/// track ID, and no other string is.
pub proof fn lemma_track_id_alphabet(bytes: Seq<u8>)
    ensures
        valid_track_id(bytes) <==> (bytes.len() == 22 && forall|i: int|
            0 <= i < bytes.len() ==> ('0' <= (#[trigger] bytes[i] as char) <= '9') || ('a' <= (
            bytes[i] as char) <= 'z') || ('A' <= (bytes[i] as char) <= 'Z')),
{
    assert forall|i: int| 0 <= i < bytes.len() implies is_base62_byte(bytes[i]) == (('0' <= (
    bytes[i] as char) <= '9') || ('a' <= (bytes[i] as char) <= 'z') || ('A' <= (bytes[i] as char)
        <= 'Z')) by {
        lemma_base62_is_ascii_alphanumeric(bytes[i]);
    }
}

fn is_base62(b: u8) -> (r: bool)
    ensures
        r == is_base62_byte(b),
{
    (48 <= b && b <= 57) || (97 <= b && b <= 122) || (65 <= b && b <= 90)
}

/// Checks that `track_id` is a 22-character base62 Spotify track ID.
pub fn is_valid_track_id(track_id: &str) -> (r: bool)
    ensures
        r == valid_track_id(track_id.spec_bytes()),
{
    let bytes = track_id.as_bytes();
    if bytes.len() != TRACK_ID_LEN {
        return false;
    }
    let mut i: usize = 0;
    while i < bytes.len()
        invariant
            0 <= i <= bytes@.len(),
            bytes@ == track_id.spec_bytes(),
            forall|j: int| 0 <= j < i ==> #[trigger] is_base62_byte(bytes@[j]),
        decreases bytes@.len() - i,
    {
        if !is_base62(bytes[i]) {
            return false;
        }
        i = i + 1;
    }
    true
}


/// Refuses a request for a track ID that is not valid, before Spotify is
/// asked anything.
pub fn check_track_id(track_id: &str) -> (r: Result<(), AppError>)
    ensures
        r is Ok <==> valid_track_id(track_id.spec_bytes()),
        r matches Err(e) ==> e is InvalidTrackId,
{
    if is_valid_track_id(track_id) {
        Ok(())
    } else {
        Err(AppError::InvalidTrackId)
    }
}

/// The answer to a successful Canvas lookup.
#[derive(Debug)]
pub struct CanvasResponse {
    pub success: bool,
    pub canvas_url: String,
}

/// The answer of the health check.
#[derive(Debug)]
pub struct HealthResponse {
    pub status: String,
}

/// What a Canvas lookup answers: its URL when Spotify has one, "not found"
/// when it has none, and Spotify's failure otherwise.
pub fn canvas_reply(lookup: Result<Option<String>, SpotifyError>) -> (r: Result<
    CanvasResponse,
    AppError,
>)
    ensures
        match lookup {
            Ok(Some(url)) => r matches Ok(c) && c.success && c.canvas_url == url,
            Ok(None) => r matches Err(e) && e is CanvasNotFound,
            Err(s) => r matches Err(e) && e == AppError::Spotify(s),
        },
{
    match lookup {
        Ok(Some(url)) => Ok(CanvasResponse { success: true, canvas_url: url }),
        Ok(None) => Err(AppError::CanvasNotFound),
        Err(s) => Err(AppError::Spotify(s)),
    }
}

/// The health check's answer, which needs nothing from Spotify.
pub fn health() -> (r: HealthResponse)
    ensures
        r.status@ == "up"@,
{
    HealthResponse { status: String::from_str("up") }
}

/// The origin that debug builds also allow, for a local front end.
pub const DEBUG_ORIGIN: &'static str = "http://localhost:3000";

/// The origins that may call the API: the local front end in debug builds,
/// and the configured host origin unless it is already listed.
pub open spec fn allowed_origins(debug_build: bool, host_origin: Option<Seq<char>>) -> Seq<Seq<char>> {
    let base: Seq<Seq<char>> = if debug_build {
        seq![DEBUG_ORIGIN@]
    } else {
        Seq::empty()
    };
    match host_origin {
        Some(h) => if base.contains(h) {
            base
        } else {
            base.push(h)
        },
        None => base,
    }
}

/// The allowed origins hold the configured host origin in every build, the
/// local front end exactly in debug builds, nothing else, and no origin twice.
pub proof fn lemma_allowed_origins(debug_build: bool, host_origin: Option<Seq<char>>)
    ensures
        ({
            let v = allowed_origins(debug_build, host_origin);
            &&& host_origin matches Some(h) ==> v.contains(h)
            &&& debug_build ==> v.contains(DEBUG_ORIGIN@)
            &&& forall|i: int|
                0 <= i < v.len() ==> (debug_build && #[trigger] v[i] == DEBUG_ORIGIN@) || host_origin
                    == Some(v[i])
            &&& v.no_duplicates()
        }),
{
    let base: Seq<Seq<char>> = if debug_build {
        seq![DEBUG_ORIGIN@]
    } else {
        Seq::empty()
    };
    let v = allowed_origins(debug_build, host_origin);
    if debug_build {
        assert(base[0] == DEBUG_ORIGIN@);
    }
    match host_origin {
        Some(h) => {
            if !base.contains(h) {
                assert(v[v.len() - 1] == h);
                if debug_build {
                    assert(v[0] == DEBUG_ORIGIN@);
                }
            }
        },
        None => {},
    }
}

/// The views of a list of strings.
pub open spec fn origin_texts(v: Seq<String>) -> Seq<Seq<char>> {
    v.map_values(|s: String| s@)
}

/// The CORS origins of the API; `None` when the host origin cannot be a
/// header value, which stops the server from being built.
pub fn cors_origins(debug_build: bool, host_origin: Option<&str>) -> (r: Option<Vec<String>>)
    ensures
        match host_origin {
            Some(h) => r is Some <==> valid_header_bytes(h.spec_bytes()),
            None => r is Some,
        },
        r matches Some(v) ==> origin_texts(v@) == allowed_origins(
            debug_build,
            match host_origin {
                Some(h) => Some(h@),
                None => None,
            },
        ),
{
    let mut origins: Vec<String> = Vec::new();
    if debug_build {
        origins.push(String::from_str(DEBUG_ORIGIN));
    }
    let ghost base = origin_texts(origins@);
    proof {
        if debug_build {
            assert(base =~= seq![DEBUG_ORIGIN@]);
        } else {
            assert(base =~= Seq::<Seq<char>>::empty());
        }
    }
    match host_origin {
        None => Some(origins),
        Some(h) => {
            if !is_valid_header_value(h) {
                return None;
            }
            let origin = String::from_str(h);
            let mut listed = false;
            let mut i: usize = 0;
            while i < origins.len()
                invariant
                    i <= origins@.len(),
                    base == origin_texts(origins@),
                    origin@ == h@,
                    listed <==> exists|j: int| 0 <= j < i && #[trigger] base[j] == h@,
                decreases origins@.len() - i,
            {
                assert(base[i as int] == origins@[i as int]@);
                if origins[i] == origin {
                    listed = true;
                }
                i = i + 1;
                proof {
                    if listed {
                        if !(base[i - 1] == h@) {
                            let j = choose|j: int| 0 <= j < i - 1 && #[trigger] base[j] == h@;
                            assert(0 <= j < i && base[j] == h@);
                        }
                    }
                }
            }
            proof {
                if listed {
                    let j = choose|j: int| 0 <= j < i && #[trigger] base[j] == h@;
                    assert(base.contains(h@));
                } else {
                    assert(!base.contains(h@));
                }
            }
            if !listed {
                origins.push(origin);
                assert(origin_texts(origins@) =~= base.push(h@));
            }
            Some(origins)
        },
    }
}

} // verus!

//! How the API answers a failed request.
use vstd::prelude::*;
use vstd::string::StringSliceAdditionalSpecFns;

use crate::header::{is_valid_header_value, valid_header_bytes};
use crate::spotify::SpotifyError;

verus! {

/// Why a request to the API failed.
#[derive(Debug)]
pub enum AppError {
    /// The track ID is not 22 base62 characters.
    InvalidTrackId,
    /// Spotify has no Canvas for the track.
    CanvasNotFound,
    /// Asking Spotify failed.
    Spotify(SpotifyError),
}

impl From<SpotifyError> for AppError {
    fn from(error: SpotifyError) -> (r: Self) {
        AppError::Spotify(error)
    }
}

impl vstd::std_specs::convert::FromSpecImpl<SpotifyError> for AppError {
    open spec fn obeys_from_spec() -> bool {
        true
    }

    open spec fn from_spec(error: SpotifyError) -> Self {
        AppError::Spotify(error)
    }
}

/// The HTTP answer to a failure: status, the body's `success` flag (always
/// false), a stable code, a message for people, and the delay to send as
/// `Retry-After`.
#[derive(Debug)]
pub struct ErrorReply {
    pub status: u16,
    pub success: bool,
    pub code: &'static str,
    pub message: &'static str,
    pub retry_after: Option<String>,
}

/// The status, code and message for each failure: 400 for a bad track ID,
/// 404 for a missing Canvas, 503 when Spotify rate limits, and 502 for
/// every other failure of Spotify, authentication apart from the rest.
pub open spec fn reply_status(error: AppError) -> (u16, Seq<char>, Seq<char>) {
    match error {
        AppError::InvalidTrackId => (
            400,
            "invalid_track_id"@,
            "Track ID must contain exactly 22 base62 characters"@,
        ),
        AppError::CanvasNotFound => (404, "canvas_not_found"@, "No Canvas was found for this track"@),
        AppError::Spotify(SpotifyError::RateLimited(_)) => (
            503,
            "spotify_rate_limited"@,
            "Spotify temporarily rate limited the request"@,
        ),
        AppError::Spotify(SpotifyError::Authentication(_)) => (
            502,
            "spotify_auth_failed"@,
            "Spotify authentication failed"@,
        ),
        AppError::Spotify(_) => (
            502,
            "spotify_upstream_error"@,
            "Spotify returned an invalid or unavailable response"@,
        ),
    }
}

/// The `Retry-After` value of a reply: the rate limit's delay, when Spotify
/// gave one that can be sent as a header value.
pub open spec fn reply_retry_after(error: AppError) -> Option<Seq<char>> {
    match error {
        AppError::Spotify(SpotifyError::RateLimited(Some(d))) => if valid_header_bytes(
            vstd::utf8::encode_utf8(d@),
        ) {
            Some(d@)
        } else {
            None
        },
        _ => None,
    }
}

/// Invalid track IDs are answered 400, missing Canvases 404, Spotify's rate
/// limits 503 and every other failure of Spotify 502; only a rate limit
/// carries a `Retry-After` delay.
pub proof fn lemma_reply_status_classes(error: AppError)
    ensures
        reply_status(error).0 == 400 <==> error is InvalidTrackId,
        reply_status(error).0 == 404 <==> error is CanvasNotFound,
        reply_status(error).0 == 503 <==> error matches AppError::Spotify(
            SpotifyError::RateLimited(_),
        ),
        reply_status(error).0 == 502 <==> (error matches AppError::Spotify(s) && !(s is RateLimited)),
        reply_retry_after(error) is Some ==> reply_status(error).0 == 503,
{
}

/// The HTTP answer to `error`.
pub fn error_reply(error: AppError) -> (r: ErrorReply)
    ensures
        (r.status, r.code@, r.message@) == reply_status(error),
        !r.success,
        match r.retry_after {
            Some(d) => reply_retry_after(error) == Some(d@),
            None => reply_retry_after(error) is None,
        },
{
    match error {
        AppError::InvalidTrackId => ErrorReply {
            status: 400,
            success: false,
            code: "invalid_track_id",
            message: "Track ID must contain exactly 22 base62 characters",
            retry_after: None,
        },
        AppError::CanvasNotFound => ErrorReply {
            status: 404,
            success: false,
            code: "canvas_not_found",
            message: "No Canvas was found for this track",
            retry_after: None,
        },
        AppError::Spotify(SpotifyError::RateLimited(delay)) => {
            let retry_after = match delay {
                Some(d) => if is_valid_header_value(d.as_str()) {
                    Some(d)
                } else {
                    None
                },
                None => None,
            };
            ErrorReply {
                status: 503,
                success: false,
                code: "spotify_rate_limited",
                message: "Spotify temporarily rate limited the request",
                retry_after,
            }
        },
        AppError::Spotify(SpotifyError::Authentication(_)) => ErrorReply {
            status: 502,
            success: false,
            code: "spotify_auth_failed",
            message: "Spotify authentication failed",
            retry_after: None,
        },
        AppError::Spotify(_) => ErrorReply {
            status: 502,
            success: false,
            code: "spotify_upstream_error",
            message: "Spotify returned an invalid or unavailable response",
            retry_after: None,
        },
    }
}

} // verus!

//! Talking to Spotify: the settings, the errors, the authentication rules
//! and the Canvas endpoint's messages.
use vstd::prelude::*;

use crate::spotify::auth::TotpSecret;
use crate::text::{all_ascii, ascii_chars, ascii_string};

pub mod auth;
pub mod canvas;

verus! {

/// A protobuf body that the Canvas messages cannot be read from.
#[derive(Debug, Clone, Copy, PartialEq, Eq)]
pub struct ProtobufError;

/// How a call to Spotify failed.
#[derive(Debug)]
pub enum SpotifyError {
    /// The token endpoint or the TOTP secret did not yield a usable token.
    Authentication(String),
    /// Spotify answered 429, with the `Retry-After` header when it sent one.
    RateLimited(Option<String>),
    /// The HTTP request itself failed; the text describes the failure.
    Http(String),
    /// Spotify answered with this unsuccessful HTTP status.
    Upstream(u16),
    /// The Canvas response was not valid protobuf.
    Protobuf(ProtobufError),
}

/// The mathematical view of a [`SpotifyError`]: texts as character sequences.
pub enum SpotifyErrorView {
    Authentication(Seq<char>),
    RateLimited(Option<Seq<char>>),
    Http(Seq<char>),
    Upstream(u16),
    Protobuf,
}

impl View for SpotifyError {
    type V = SpotifyErrorView;

    open spec fn view(&self) -> SpotifyErrorView {
        match self {
            SpotifyError::Authentication(m) => SpotifyErrorView::Authentication(m@),
            SpotifyError::RateLimited(r) => SpotifyErrorView::RateLimited(
                match r {
                    Some(v) => Some(v@),
                    None => None,
                },
            ),
            SpotifyError::Http(m) => SpotifyErrorView::Http(m@),
            SpotifyError::Upstream(s) => SpotifyErrorView::Upstream(*s),
            SpotifyError::Protobuf(_) => SpotifyErrorView::Protobuf,
        }
    }
}

/// A byte that `http::HeaderValue::to_str` lets through: visible ASCII from
/// a space to `~`, or a tab.
pub open spec fn is_visible_ascii(b: u8) -> bool {
    (32 <= b && b < 127) || b == 9
}

/// The `Retry-After` value to pass on, from the header's bytes: the header
/// as text when every byte is visible ASCII, else nothing.
pub open spec fn retry_after_text(header: Option<Seq<u8>>) -> Option<Seq<char>> {
    match header {
        Some(b) => if forall|i: int| 0 <= i < b.len() ==> #[trigger] is_visible_ascii(b[i]) {
            Some(ascii_chars(b))
        } else {
            None
        },
        None => None,
    }
}

/// The `Retry-After` header of a response, given its bytes if it was sent.
pub fn retry_after(header: Option<&[u8]>) -> (r: Option<String>)
    ensures
        match r {
            Some(t) => retry_after_text(
                match header {
                    Some(b) => Some(b@),
                    None => None,
                },
            ) == Some(t@),
            None => retry_after_text(
                match header {
                    Some(b) => Some(b@),
                    None => None,
                },
            ) is None,
        },
{
    let ghost hv = match header {
        Some(b) => Some(b@),
        None => None,
    };
    match header {
        None => None,
        Some(b) => {
            let mut out: Vec<u8> = Vec::new();
            let mut i: usize = 0;
            while i < b.len()
                invariant
                    i <= b@.len(),
                    hv == Some(b@),
                    header == Some(b),
                    out@ == b@.subrange(0, i as int),
                    forall|j: int| 0 <= j < i ==> #[trigger] is_visible_ascii(b@[j]),
                decreases b@.len() - i,
            {
                let c = b[i];
                if !((32 <= c && c < 127) || c == 9) {
                    assert(!is_visible_ascii(b@[i as int]));
                    return None;
                }
                out.push(c);
                i = i + 1;
                assert(out@ =~= b@.subrange(0, i as int));
            }
            assert(out@ =~= b@);
            assert forall|j: int| 0 <= j < out@.len() implies #[trigger] out@[j] < 128 by {
                assert(is_visible_ascii(b@[j]));
            }
            Some(ascii_string(out))
        },
    }
}

/// What the client needs to know to reach Spotify.
#[derive(Clone, Debug)]
pub struct SpotifySettings {
    pub sp_dc: String,
    pub sp_key: Option<String>,
    pub token_url: String,
    pub canvas_url: String,
    pub catalog_url: String,
    pub totp_override: Option<TotpSecret>,
}

} // verus!

//! HTTP header values.
use vstd::prelude::*;
use vstd::string::StringSliceAdditionalSpecFns;

verus! {

/// A byte that a header value may hold: a tab, or anything from a space up
/// except DEL (127).
pub open spec fn is_header_byte(b: u8) -> bool {
    (b >= 32 && b != 127) || b == 9
}

/// Bytes that make a valid header value.
pub open spec fn valid_header_bytes(bytes: Seq<u8>) -> bool {
    forall|i: int| 0 <= i < bytes.len() ==> #[trigger] is_header_byte(bytes[i])
}

/// `http::HeaderValue::from_str` succeeds on `s`.
/// Claimed: it does exactly when every byte of `s` is a tab or at least 32
/// and not 127, which is the test its source makes.
#[verifier::external_body]
pub(crate) fn is_valid_header_value(s: &str) -> (r: bool)
    ensures
        r == valid_header_bytes(s.spec_bytes()),
{
    http::HeaderValue::from_str(s).is_ok()
}

} // verus!

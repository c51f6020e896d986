//! Text helpers: ASCII bytes as strings, UTF-8 decoding and trimming.
use vstd::prelude::*;
use vstd::utf8::*;

verus! {

broadcast use {encode_utf8_valid_utf8, encode_utf8_decode_utf8, is_ascii_chars_encode_utf8};

/// The characters that the bytes stand for when every byte is ASCII.
pub open spec fn ascii_chars(bytes: Seq<u8>) -> Seq<char> {
    Seq::new(bytes.len(), |i: int| bytes[i] as char)
}

/// Every byte is below 128.
pub open spec fn all_ascii(bytes: Seq<u8>) -> bool {
    forall|i: int| 0 <= i < bytes.len() ==> #[trigger] bytes[i] < 128
}

/// ASCII bytes are valid UTF-8 and decode to the characters of the same codes.
pub proof fn lemma_ascii_utf8(bytes: Seq<u8>)
    requires
        all_ascii(bytes),
    ensures
        valid_utf8(bytes),
        decode_utf8(bytes) == ascii_chars(bytes),
{
    let chars = ascii_chars(bytes);
    assert forall|i: int| 0 <= i < chars.len() implies '\0' <= #[trigger] chars[i] <= '\u{7f}' by {
        assert(bytes[i] < 128);
    }
    assert(is_ascii_chars(chars));
    let enc = encode_utf8(chars);
    assert forall|i: int| 0 <= i < bytes.len() implies enc[i] == bytes[i] by {
        assert(chars[i] as u8 == enc[i]);
        assert(bytes[i] < 128);
        assert(chars[i] == bytes[i] as char);
    }
    assert(enc =~= bytes);
}

/// `String::from_utf8`: the bytes as a `String` when they are valid UTF-8.
/// Claimed: `Some` exactly for valid UTF-8, holding the decoded characters.
#[verifier::external_body]
pub(crate) fn string_from_utf8(bytes: Vec<u8>) -> (r: Option<String>)
    ensures
        r is Some <==> valid_utf8(bytes@),
        r matches Some(s) ==> s@ == decode_utf8(bytes@),
{
    match String::from_utf8(bytes) {
        Ok(s) => Some(s),
        Err(_) => None,
    }
}

/// A `String` made of ASCII bytes.
pub fn ascii_string(bytes: Vec<u8>) -> (r: String)
    requires
        all_ascii(bytes@),
    ensures
        r@ == ascii_chars(bytes@),
{
    proof {
        lemma_ascii_utf8(bytes@);
    }
    match string_from_utf8(bytes) {
        Some(s) => s,
        None => {
            assert(false);
            String::new()
        },
    }
}

/// The White_Space characters of Unicode, which `char::is_whitespace` tests for.
pub open spec fn is_unicode_whitespace(c: char) -> bool {
    ||| ('\u{9}' <= c <= '\u{d}')
    ||| c == ' '
    ||| c == '\u{85}'
    ||| c == '\u{a0}'
    ||| c == '\u{1680}'
    ||| ('\u{2000}' <= c <= '\u{200a}')
    ||| c == '\u{2028}'
    ||| c == '\u{2029}'
    ||| c == '\u{202f}'
    ||| c == '\u{205f}'
    ||| c == '\u{3000}'
}

/// `s` with leading and trailing whitespace removed: the characters from the
/// first to the last one that is not whitespace, or nothing if there is none.
pub open spec fn trimmed(s: Seq<char>) -> Seq<char> {
    if forall|i: int| 0 <= i < s.len() ==> #[trigger] is_unicode_whitespace(s[i]) {
        Seq::empty()
    } else {
        let first = choose|a: int|
            0 <= a < s.len() && !is_unicode_whitespace(s[a]) && forall|i: int|
                0 <= i < a ==> #[trigger] is_unicode_whitespace(s[i]);
        let last = choose|b: int|
            0 <= b < s.len() && !is_unicode_whitespace(s[b]) && forall|i: int|
                b < i < s.len() ==> #[trigger] is_unicode_whitespace(s[i]);
        s.subrange(first, last + 1)
    }
}

/// `str::trim`: the string slice without leading and trailing Unicode
/// White_Space. Claimed: exactly `trimmed` of the characters.
#[verifier::external_body]
pub(crate) fn trim_whitespace(s: &str) -> (r: &str)
    ensures
        r@ == trimmed(s@),
{
    s.trim()
}

} // verus!

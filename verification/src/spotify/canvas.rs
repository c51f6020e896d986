//! The Canvas endpoint: the request body it is sent, the response it answers
//! with, and what its HTTP status means.
use vstd::prelude::*;
use vstd::utf8::*;

use crate::spotify::{ProtobufError, SpotifyError};
use crate::text::string_from_utf8;
use vstd::string::StringSliceAdditionalSpecFns;
use crate::wire::{
    delimited, field_key, push_varint, read_delimited, read_key, read_varint, skip_field, skipped,
    lemma_varint_end_bounds, lemma_varint_roundtrip, varint, varint_bytes,
};

verus! {

/// The nesting allowed for unknown fields at the top of the response.
pub const RESPONSE_DEPTH: u32 = 100;

/// The nesting allowed inside a Canvaz message.
pub const CANVAZ_DEPTH: u32 = 99;

/// The nesting allowed inside an Artist message.
pub const ARTIST_DEPTH: u32 = 98;

/// A string field at the start of `s`: wire type 2 and a UTF-8 payload.
/// Its text and how many bytes it takes.
pub open spec fn string_value(wt: nat, s: Seq<u8>) -> Option<(Seq<char>, nat)> {
    if wt != 2 {
        None
    } else {
        match delimited(s) {
            Some((a, e)) => {
                let p = s.subrange(a as int, e as int);
                if valid_utf8(p) {
                    Some((decode_utf8(p), e))
                } else {
                    None
                }
            },
            None => None,
        }
    }
}

/// How many bytes a varint field (integer, enum or bool) takes.
pub open spec fn varint_field(wt: nat, s: Seq<u8>) -> Option<nat> {
    if wt != 0 {
        None
    } else {
        match varint(s) {
            Some((_, n)) => Some(n),
            None => None,
        }
    }
}

/// Whether `s` is the body of an Artist message: string fields 1 to 3
/// (uri, name, avatar) and unknown fields.
pub open spec fn artist_valid(s: Seq<u8>) -> bool
    decreases s.len(),
{
    if s.len() == 0 {
        true
    } else {
        match field_key(s) {
            Some((tag, wt, k)) => if k == 0 || k > s.len() {
                false
            } else {
                let rest = s.skip(k as int);
                let taken = if 1 <= tag <= 3 {
                    match string_value(wt, rest) {
                        Some((_, c)) => Some(c),
                        None => None,
                    }
                } else {
                    skipped(wt, tag, rest, ARTIST_DEPTH as nat)
                };
                match taken {
                    Some(c) => if k + c > s.len() {
                        false
                    } else {
                        artist_valid(rest.skip(c as int))
                    },
                    None => false,
                }
            },
            None => false,
        }
    }
}

/// How many bytes an Artist field of a Canvaz message takes.
pub open spec fn artist_field(wt: nat, s: Seq<u8>) -> Option<nat> {
    if wt != 2 {
        None
    } else {
        match delimited(s) {
            Some((a, e)) => if artist_valid(s.subrange(a as int, e as int)) {
                Some(e)
            } else {
                None
            },
            None => None,
        }
    }
}

/// The string fields of a Canvaz message other than its URL: id (1),
/// file_id (3), entity_uri (5), uploaded_by (8), etag (9), canvas_uri (11)
/// and storylines_id (12).
pub open spec fn is_canvaz_text_tag(tag: nat) -> bool {
    tag == 1 || tag == 3 || tag == 5 || tag == 8 || tag == 9 || tag == 11 || tag == 12
}

/// How many bytes a Canvaz field other than the URL takes: its strings, its
/// type (4, an enum) and explicit flag (7, a bool), its artist (6), and
/// unknown fields.
pub open spec fn canvaz_other_field(tag: nat, wt: nat, s: Seq<u8>) -> Option<nat> {
    if is_canvaz_text_tag(tag) {
        match string_value(wt, s) {
            Some((_, c)) => Some(c),
            None => None,
        }
    } else if tag == 4 || tag == 7 {
        varint_field(wt, s)
    } else if tag == 6 {
        artist_field(wt, s)
    } else {
        skipped(wt, tag, s, CANVAZ_DEPTH as nat)
    }
}

/// The URL (field 2) of the Canvaz message body `s`, where `url` is the value
/// read so far: the last one wins, and it is empty when there is none.
pub open spec fn canvaz_url(s: Seq<u8>, url: Seq<char>) -> Option<Seq<char>>
    decreases s.len(),
{
    if s.len() == 0 {
        Some(url)
    } else {
        match field_key(s) {
            Some((tag, wt, k)) => if k == 0 || k > s.len() {
                None
            } else {
                let rest = s.skip(k as int);
                if tag == 2 {
                    match string_value(wt, rest) {
                        Some((u, c)) => if k + c > s.len() {
                            None
                        } else {
                            canvaz_url(rest.skip(c as int), u)
                        },
                        None => None,
                    }
                } else {
                    match canvaz_other_field(tag, wt, rest) {
                        Some(c) => if k + c > s.len() {
                            None
                        } else {
                            canvaz_url(rest.skip(c as int), url)
                        },
                        None => None,
                    }
                }
            },
            None => None,
        }
    }
}

/// A Canvaz entry (field 1 of the response) at the start of `s`: its URL and
/// how many bytes it takes.
pub open spec fn canvaz_entry(wt: nat, s: Seq<u8>) -> Option<(Seq<char>, nat)> {
    if wt != 2 {
        None
    } else {
        match delimited(s) {
            Some((a, e)) => match canvaz_url(s.subrange(a as int, e as int), Seq::empty()) {
                Some(u) => Some((u, e)),
                None => None,
            },
            None => None,
        }
    }
}

/// The URLs of the Canvaz entries of the response body `s`, after `urls`,
/// the ones read so far; the response also holds its time to live (2) and
/// unknown fields.
pub open spec fn response_urls(s: Seq<u8>, urls: Seq<Seq<char>>) -> Option<Seq<Seq<char>>>
    decreases s.len(),
{
    if s.len() == 0 {
        Some(urls)
    } else {
        match field_key(s) {
            Some((tag, wt, k)) => if k == 0 || k > s.len() {
                None
            } else {
                let rest = s.skip(k as int);
                if tag == 1 {
                    match canvaz_entry(wt, rest) {
                        Some((u, c)) => if k + c > s.len() {
                            None
                        } else {
                            response_urls(rest.skip(c as int), urls.push(u))
                        },
                        None => None,
                    }
                } else {
                    let taken = if tag == 2 {
                        varint_field(wt, rest)
                    } else {
                        skipped(wt, tag, rest, RESPONSE_DEPTH as nat)
                    };
                    match taken {
                        Some(c) => if k + c > s.len() {
                            None
                        } else {
                            response_urls(rest.skip(c as int), urls)
                        },
                        None => None,
                    }
                }
            },
            None => None,
        }
    }
}

/// The URLs of the Canvaz entries of an `EntityCanvazResponse` body, in
/// order, or nothing when the body is not such a message.
pub open spec fn canvas_urls(body: Seq<u8>) -> Option<Seq<Seq<char>>> {
    response_urls(body, Seq::empty())
}

/// The first URL that is not empty.
pub open spec fn first_non_empty(urls: Seq<Seq<char>>) -> Option<Seq<char>>
    decreases urls.len(),
{
    if urls.len() == 0 {
        None
    } else if urls[0].len() > 0 {
        Some(urls[0])
    } else {
        first_non_empty(urls.drop_first())
    }
}

/// The URL picked is the first that is not empty: every URL before it is
/// empty; nothing is picked only when all are empty.
pub proof fn lemma_first_non_empty(urls: Seq<Seq<char>>)
    ensures
        match first_non_empty(urls) {
            Some(u) => exists|i: int|
                0 <= i < urls.len() && urls[i] == u && u.len() > 0 && forall|j: int|
                    0 <= j < i ==> (#[trigger] urls[j]).len() == 0,
            None => forall|j: int| 0 <= j < urls.len() ==> (#[trigger] urls[j]).len() == 0,
        },
    decreases urls.len(),
{
    if urls.len() > 0 {
        let rest = urls.drop_first();
        lemma_first_non_empty(rest);
        if urls[0].len() > 0 {
            assert(urls[0] == first_non_empty(urls)->0);
        } else {
            match first_non_empty(rest) {
                Some(u) => {
                    let i = choose|i: int|
                        0 <= i < rest.len() && rest[i] == u && u.len() > 0 && forall|j: int|
                            0 <= j < i ==> (#[trigger] rest[j]).len() == 0;
                    assert(urls[i + 1] == u);
                    assert forall|j: int| 0 <= j < i + 1 implies (#[trigger] urls[j]).len() == 0 by {
                        if j > 0 {
                            assert(urls[j] == rest[j - 1]);
                        }
                    }
                },
                None => {
                    assert forall|j: int| 0 <= j < urls.len() implies (#[trigger] urls[j]).len() == 0 by {
                        if j > 0 {
                            assert(urls[j] == rest[j - 1]);
                        }
                    }
                },
            }
        }
    }
}

/// The view of an optional string.
pub open spec fn text_of(o: Option<String>) -> Option<Seq<char>> {
    match o {
        Some(s) => Some(s@),
        None => None,
    }
}

fn copy_range(buf: &[u8], a: usize, e: usize) -> (r: Vec<u8>)
    requires
        a <= e <= buf@.len(),
    ensures
        r@ == buf@.subrange(a as int, e as int),
{
    let mut out: Vec<u8> = Vec::new();
    let mut i = a;
    while i < e
        invariant
            a <= i <= e <= buf@.len(),
            out@ == buf@.subrange(a as int, i as int),
        decreases e - i,
    {
        out.push(buf[i]);
        i = i + 1;
        assert(out@ =~= buf@.subrange(a as int, i as int));
    }
    out
}

proof fn lemma_sub(s: Seq<u8>, pos: int, end: int, a: int, e: int)
    requires
        0 <= pos <= end <= s.len(),
        0 <= a <= e <= end - pos,
    ensures
        s.subrange(pos, end).skip(e) == s.subrange(pos + e, end),
        s.subrange(pos, end).subrange(a, e) == s.subrange(pos + a, pos + e),
{
    assert(s.subrange(pos, end).skip(e) =~= s.subrange(pos + e, end));
    assert(s.subrange(pos, end).subrange(a, e) =~= s.subrange(pos + a, pos + e));
}

/// Reads a string field at `buf[pos..end]`: its text and length.
fn read_string(buf: &[u8], pos: usize, end: usize, wt: u64) -> (r: Option<(String, usize)>)
    requires
        pos <= end <= buf@.len(),
    ensures
        match r {
            Some((t, c)) => string_value(wt as nat, buf@.subrange(pos as int, end as int)) == Some(
                (t@, c as nat),
            ),
            None => string_value(wt as nat, buf@.subrange(pos as int, end as int)) is None,
        },
        r matches Some((t, c)) ==> pos + c <= end,
{
    if wt != 2 {
        return None;
    }
    match read_delimited(buf, pos, end) {
        None => None,
        Some((a, e)) => {
            proof {
                lemma_sub(buf@, pos as int, end as int, a as int, e as int);
            }
            let bytes = copy_range(buf, pos + a, pos + e);
            match string_from_utf8(bytes) {
                Some(t) => Some((t, e)),
                None => None,
            }
        },
    }
}

fn read_varint_field(buf: &[u8], pos: usize, end: usize, wt: u64) -> (r: Option<usize>)
    requires
        pos <= end <= buf@.len(),
    ensures
        match r {
            Some(c) => varint_field(wt as nat, buf@.subrange(pos as int, end as int)) == Some(c as nat),
            None => varint_field(wt as nat, buf@.subrange(pos as int, end as int)) is None,
        },
        r matches Some(c) ==> pos + c <= end,
{
    if wt != 0 {
        return None;
    }
    match read_varint(buf, pos, end) {
        Some((_, n)) => Some(n),
        None => None,
    }
}

/// Checks that `buf[start..end]` is the body of an Artist message.
fn check_artist(buf: &[u8], start: usize, end: usize) -> (r: bool)
    requires
        start <= end <= buf@.len(),
    ensures
        r == artist_valid(buf@.subrange(start as int, end as int)),
{
    let mut cur = start;
    while cur < end
        invariant
            start <= cur <= end <= buf@.len(),
            artist_valid(buf@.subrange(start as int, end as int)) == artist_valid(
                buf@.subrange(cur as int, end as int),
            ),
        decreases end - cur,
    {
        match read_key(buf, cur, end) {
            None => {
                return false;
            },
            Some((tag, wt, k)) => {
                proof {
                    lemma_sub(buf@, cur as int, end as int, 0, k as int);
                }
                let taken = if 1 <= tag && tag <= 3 {
                    match read_string(buf, cur + k, end, wt) {
                        Some((_, c)) => Some(c),
                        None => None,
                    }
                } else {
                    skip_field(buf, cur + k, end, wt, tag, ARTIST_DEPTH)
                };
                match taken {
                    None => {
                        return false;
                    },
                    Some(c) => {
                        proof {
                            lemma_sub(buf@, (cur + k) as int, end as int, 0, c as int);
                        }
                        cur = cur + k + c;
                    },
                }
            },
        }
    }
    proof {
        assert(buf@.subrange(cur as int, end as int).len() == 0);
    }
    true
}

fn read_canvaz_other(buf: &[u8], pos: usize, end: usize, tag: u64, wt: u64) -> (r: Option<usize>)
    requires
        pos <= end <= buf@.len(),
    ensures
        match r {
            Some(c) => canvaz_other_field(tag as nat, wt as nat, buf@.subrange(pos as int, end as int))
                == Some(c as nat),
            None => canvaz_other_field(
                tag as nat,
                wt as nat,
                buf@.subrange(pos as int, end as int),
            ) is None,
        },
        r matches Some(c) ==> pos + c <= end,
{
    if tag == 1 || tag == 3 || tag == 5 || tag == 8 || tag == 9 || tag == 11 || tag == 12 {
        match read_string(buf, pos, end, wt) {
            Some((_, c)) => Some(c),
            None => None,
        }
    } else if tag == 4 || tag == 7 {
        read_varint_field(buf, pos, end, wt)
    } else if tag == 6 {
        if wt != 2 {
            return None;
        }
        match read_delimited(buf, pos, end) {
            None => None,
            Some((a, e)) => {
                proof {
                    lemma_sub(buf@, pos as int, end as int, a as int, e as int);
                }
                if check_artist(buf, pos + a, pos + e) {
                    Some(e)
                } else {
                    None
                }
            },
        }
    } else {
        skip_field(buf, pos, end, wt, tag, CANVAZ_DEPTH)
    }
}

/// Reads the URL of the Canvaz message body `buf[start..end]`.
fn read_canvaz_url(buf: &[u8], start: usize, end: usize) -> (r: Option<String>)
    requires
        start <= end <= buf@.len(),
    ensures
        text_of(r) == canvaz_url(buf@.subrange(start as int, end as int), Seq::empty()),
{
    let mut url = String::new();
    let mut cur = start;
    while cur < end
        invariant
            start <= cur <= end <= buf@.len(),
            canvaz_url(buf@.subrange(start as int, end as int), Seq::empty()) == canvaz_url(
                buf@.subrange(cur as int, end as int),
                url@,
            ),
        decreases end - cur,
    {
        match read_key(buf, cur, end) {
            None => {
                return None;
            },
            Some((tag, wt, k)) => {
                proof {
                    lemma_sub(buf@, cur as int, end as int, 0, k as int);
                }
                if tag == 2 {
                    match read_string(buf, cur + k, end, wt) {
                        None => {
                            return None;
                        },
                        Some((u, c)) => {
                            proof {
                                lemma_sub(buf@, (cur + k) as int, end as int, 0, c as int);
                            }
                            url = u;
                            cur = cur + k + c;
                        },
                    }
                } else {
                    match read_canvaz_other(buf, cur + k, end, tag, wt) {
                        None => {
                            return None;
                        },
                        Some(c) => {
                            proof {
                                lemma_sub(buf@, (cur + k) as int, end as int, 0, c as int);
                            }
                            cur = cur + k + c;
                        },
                    }
                }
            },
        }
    }
    proof {
        assert(buf@.subrange(cur as int, end as int).len() == 0);
    }
    Some(url)
}

/// The views of a list of strings.
pub open spec fn texts(v: Seq<String>) -> Seq<Seq<char>> {
    v.map_values(|s: String| s@)
}

/// Reads the Canvaz URLs of an `EntityCanvazResponse` body, in order.
pub fn read_canvas_urls(body: &[u8]) -> (r: Option<Vec<String>>)
    ensures
        match r {
            Some(v) => canvas_urls(body@) == Some(texts(v@)),
            None => canvas_urls(body@) is None,
        },
{
    let end = body.len();
    let mut urls: Vec<String> = Vec::new();
    let mut cur: usize = 0;
    proof {
        assert(texts(urls@) =~= Seq::<Seq<char>>::empty());
        assert(body@.subrange(0, end as int) =~= body@);
    }
    while cur < end
        invariant
            cur <= end == body@.len(),
            canvas_urls(body@) == response_urls(body@.subrange(cur as int, end as int), texts(urls@)),
        decreases end - cur,
    {
        match read_key(body, cur, end) {
            None => {
                return None;
            },
            Some((tag, wt, k)) => {
                proof {
                    lemma_sub(body@, cur as int, end as int, 0, k as int);
                }
                let p = cur + k;
                if tag == 1 {
                    if wt != 2 {
                        return None;
                    }
                    match read_delimited(body, p, end) {
                        None => {
                            return None;
                        },
                        Some((a, e)) => {
                            proof {
                                lemma_sub(body@, p as int, end as int, a as int, e as int);
                            }
                            match read_canvaz_url(body, p + a, p + e) {
                                None => {
                                    return None;
                                },
                                Some(u) => {
                                    let ghost before = texts(urls@);
                                    urls.push(u);
                                    proof {
                                        assert(texts(urls@) =~= before.push(u@));
                                    }
                                    cur = p + e;
                                },
                            }
                        },
                    }
                } else {
                    let taken = if tag == 2 {
                        read_varint_field(body, p, end, wt)
                    } else {
                        skip_field(body, p, end, wt, tag, RESPONSE_DEPTH)
                    };
                    match taken {
                        None => {
                            return None;
                        },
                        Some(c) => {
                            proof {
                                lemma_sub(body@, p as int, end as int, 0, c as int);
                            }
                            cur = p + c;
                        },
                    }
                }
            },
        }
    }
    proof {
        assert(body@.subrange(cur as int, end as int).len() == 0);
    }
    Some(urls)
}

proof fn lemma_first_non_empty_step(t: Seq<Seq<char>>, i: int)
    requires
        0 <= i < t.len(),
    ensures
        t.skip(i)[0] == t[i],
        t.skip(i).drop_first() == t.skip(i + 1),
{
    assert(t.skip(i).drop_first() =~= t.skip(i + 1));
}

/// Decodes an `EntityCanvazResponse` body and gives the first Canvaz URL that
/// is not empty, if there is one.
pub fn decode_canvas_response(body: &[u8]) -> (r: Result<Option<String>, SpotifyError>)
    ensures
        r is Err <==> canvas_urls(body@) is None,
        r matches Err(e) ==> e == SpotifyError::Protobuf(ProtobufError),
        r matches Ok(o) ==> text_of(o) == first_non_empty(canvas_urls(body@)->0),
{
    match read_canvas_urls(body) {
        None => Err(SpotifyError::Protobuf(ProtobufError)),
        Some(urls) => {
            let ghost t = texts(urls@);
            let mut i: usize = 0;
            proof {
                assert(t.skip(0) =~= t);
            }
            while i < urls.len()
                invariant
                    i <= urls@.len(),
                    t == texts(urls@),
                    canvas_urls(body@) == Some(t),
                    first_non_empty(t) == first_non_empty(t.skip(i as int)),
                decreases urls@.len() - i,
            {
                proof {
                    lemma_first_non_empty_step(t, i as int);
                }
                if !urls[i].as_str().is_empty() {
                    return Ok(Some(urls[i].clone()));
                }
                i = i + 1;
            }
            proof {
                assert(t.skip(i as int).len() == 0);
            }
            Ok(None)
        },
    }
}

/// The bytes of `spotify:track:` followed by the track ID's bytes: the URI of
/// a track.
pub open spec fn track_uri(track_id: Seq<u8>) -> Seq<u8> {
    seq![115u8, 112, 111, 116, 105, 102, 121, 58, 116, 114, 97, 99, 107, 58] + track_id
}

/// The `EntityCanvazRequest` for one track: field 1 (entities) holding one
/// Entity whose field 1 (entity_uri) is the track's URI; its empty etag is
/// left out, as proto3 leaves out empty strings.
pub open spec fn canvas_request_bytes(track_id: Seq<u8>) -> Seq<u8> {
    let uri = track_uri(track_id);
    let entity = seq![10u8] + varint_bytes(uri.len()) + uri;
    seq![10u8] + varint_bytes(entity.len()) + entity
}

proof fn lemma_length_delimited_field(payload: Seq<u8>)
    requires
        payload.len() <= u64::MAX,
    ensures
        ({
            let f = seq![10u8] + varint_bytes(payload.len()) + payload;
            &&& field_key(f) == Some((1nat, 2nat, 1nat))
            &&& delimited(f.skip(1)) matches Some((a, e)) && 1 + e == f.len() && f.skip(1).subrange(
                a as int,
                e as int,
            ) == payload
        }),
{
    let vb = varint_bytes(payload.len());
    let f = seq![10u8] + vb + payload;
    lemma_varint_roundtrip(10, vb + payload);
    assert(varint_bytes(10) == seq![10u8]);
    assert(f =~= varint_bytes(10) + (vb + payload));
    assert(10nat / 8 == 1 && 10nat % 8 == 2);
    lemma_varint_roundtrip(payload.len() as u64, payload);
    assert(f.skip(1) =~= vb + payload);
    assert((vb + payload).subrange(vb.len() as int, (vb.len() + payload.len()) as int) =~= payload);
}

/// The request body is one `entities` field (tag 1, length-delimited) that
/// spans the whole body, and its payload is one `entity_uri` field (tag 1,
/// length-delimited) that spans the whole payload and holds the track's URI.
pub proof fn lemma_canvas_request_layout(track_id: Seq<u8>)
    requires
        track_id.len() + 64 <= u64::MAX,
    ensures
        ({
            let body = canvas_request_bytes(track_id);
            &&& field_key(body) == Some((1nat, 2nat, 1nat))
            &&& delimited(body.skip(1)) matches Some((a, e)) && 1 + e == body.len() && {
                let entity = body.skip(1).subrange(a as int, e as int);
                &&& field_key(entity) == Some((1nat, 2nat, 1nat))
                &&& delimited(entity.skip(1)) matches Some((a2, e2)) && 1 + e2 == entity.len()
                    && entity.skip(1).subrange(a2 as int, e2 as int) == track_uri(track_id)
            }
        }),
{
    let uri = track_uri(track_id);
    let entity = seq![10u8] + varint_bytes(uri.len()) + uri;
    lemma_length_delimited_field(uri);
    lemma_varint_roundtrip(uri.len() as u64, Seq::empty());
    assert(varint_bytes(uri.len()) + Seq::<u8>::empty() =~= varint_bytes(uri.len()));
    lemma_varint_end_bounds(varint_bytes(uri.len()), 0);
    lemma_length_delimited_field(entity);
}

/// The protobuf body that asks the Canvas endpoint about one track.
pub fn canvas_request_body(track_id: &str) -> (r: Vec<u8>)
    ensures
        r@ == canvas_request_bytes(track_id.spec_bytes()),
{
    let id = track_id.as_bytes();
    let mut uri: Vec<u8> = Vec::new();
    uri.push(115);
    uri.push(112);
    uri.push(111);
    uri.push(116);
    uri.push(105);
    uri.push(102);
    uri.push(121);
    uri.push(58);
    uri.push(116);
    uri.push(114);
    uri.push(97);
    uri.push(99);
    uri.push(107);
    uri.push(58);
    let mut i: usize = 0;
    while i < id.len()
        invariant
            i <= id@.len(),
            uri@ == seq![115u8, 112, 111, 116, 105, 102, 121, 58, 116, 114, 97, 99, 107, 58]
                + id@.subrange(0, i as int),
        decreases id@.len() - i,
    {
        uri.push(id[i]);
        i = i + 1;
        assert(uri@ =~= seq![115u8, 112, 111, 116, 105, 102, 121, 58, 116, 114, 97, 99, 107, 58]
            + id@.subrange(0, i as int));
    }
    proof {
        assert(id@.subrange(0, id@.len() as int) =~= id@);
    }
    let mut entity: Vec<u8> = Vec::new();
    entity.push(10);
    push_varint(uri.len() as u64, &mut entity);
    let mut j: usize = 0;
    let ghost head = entity@;
    while j < uri.len()
        invariant
            j <= uri@.len(),
            entity@ == head + uri@.subrange(0, j as int),
        decreases uri@.len() - j,
    {
        entity.push(uri[j]);
        j = j + 1;
        assert(entity@ =~= head + uri@.subrange(0, j as int));
    }
    proof {
        assert(uri@.subrange(0, uri@.len() as int) =~= uri@);
    }
    let mut body: Vec<u8> = Vec::new();
    body.push(10);
    push_varint(entity.len() as u64, &mut body);
    let mut k: usize = 0;
    let ghost top = body@;
    while k < entity.len()
        invariant
            k <= entity@.len(),
            body@ == top + entity@.subrange(0, k as int),
        decreases entity@.len() - k,
    {
        body.push(entity[k]);
        k = k + 1;
        assert(body@ =~= top + entity@.subrange(0, k as int));
    }
    proof {
        assert(entity@.subrange(0, entity@.len() as int) =~= entity@);
        assert(body@ =~= canvas_request_bytes(track_id.spec_bytes()));
    }
    body
}

/// What to do once the Canvas endpoint has answered with `status`.
#[derive(Debug)]
pub enum CanvasStep {
    /// The token was refused: refresh it and send the request once more.
    RefreshToken,
    /// The request succeeded: decode the body.
    ReadBody,
    /// The request failed.
    Fail(SpotifyError),
}

/// A 2xx status.
pub open spec fn is_success(status: u16) -> bool {
    200 <= status <= 299
}

/// The step for `status`: a first 401 refreshes the token; then 429 is a rate
/// limit, any other unsuccessful status an upstream failure, and success
/// leads to the body.
pub open spec fn canvas_step_for(status: u16, retried: bool, retry_after: Option<String>) -> CanvasStep {
    if status == 401 && !retried {
        CanvasStep::RefreshToken
    } else if status == 429 {
        CanvasStep::Fail(SpotifyError::RateLimited(retry_after))
    } else if !is_success(status) {
        CanvasStep::Fail(SpotifyError::Upstream(status))
    } else {
        CanvasStep::ReadBody
    }
}

/// What each status means: a first 401 refreshes the token; a 2xx status
/// leads to the body; any other status fails, as a rate limit (with the
/// `Retry-After` value) exactly when it is 429, and otherwise as an upstream
/// failure that carries the status.
pub proof fn lemma_canvas_status_meaning(status: u16, retried: bool, retry_after: Option<String>)
    ensures
        ({
            let step = canvas_step_for(status, retried, retry_after);
            &&& (status == 401 && !retried) <==> step is RefreshToken
            &&& !(status == 401 && !retried) ==> ((200 <= status <= 299) <==> step is ReadBody)
            &&& (step matches CanvasStep::Fail(SpotifyError::RateLimited(d))) <==> (status == 429
                && !(status == 401 && !retried))
            &&& step matches CanvasStep::Fail(SpotifyError::RateLimited(d)) ==> d == retry_after
            &&& (!(status == 401 && !retried) && status != 429 && !(200 <= status <= 299)) ==> step
                == CanvasStep::Fail(SpotifyError::Upstream(status))
            &&& step matches CanvasStep::Fail(e) ==> (e is RateLimited || e is Upstream)
        }),
{
}

/// Decides what follows the Canvas endpoint's answer `status`; `retried`
/// tells whether the token was already refreshed once for this request.
pub fn canvas_status_step(status: u16, retried: bool, retry_after: Option<String>) -> (r: CanvasStep)
    ensures
        r == canvas_step_for(status, retried, retry_after),
{
    if status == 401 && !retried {
        CanvasStep::RefreshToken
    } else if status == 429 {
        CanvasStep::Fail(SpotifyError::RateLimited(retry_after))
    } else if !(200 <= status && status <= 299) {
        CanvasStep::Fail(SpotifyError::Upstream(status))
    } else {
        CanvasStep::ReadBody
    }
}

} // verus!

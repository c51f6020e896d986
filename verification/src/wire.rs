//! The protobuf wire format, as far as the Canvas messages use it: varints,
//! field keys, length-delimited payloads and the skipping of unknown fields.
use vstd::prelude::*;

verus! {

/// `128^i`, the weight of the `i`-th seven-bit group of a varint.
pub open spec fn pow128(i: nat) -> nat
    decreases i,
{
    if i == 0 {
        1
    } else {
        128 * pow128((i - 1) as nat)
    }
}

/// Where the varint that starts at `s[0]` ends, looking from byte `i` on:
/// the first byte below 128 ends it; at most ten bytes are read, and a tenth
/// byte must be 0 or 1 so that the value fits in 64 bits.
pub open spec fn varint_end(s: Seq<u8>, i: nat) -> Option<nat>
    decreases 10 - i,
{
    if i >= 10 || i >= s.len() {
        None
    } else if s[i as int] < 128 {
        if i == 9 && s[i as int] >= 2 {
            None
        } else {
            Some(i + 1)
        }
    } else {
        varint_end(s, i + 1)
    }
}

/// The value of the first `n` seven-bit groups of `s`, least significant first.
pub open spec fn varint_value(s: Seq<u8>, n: nat) -> nat
    decreases n,
{
    if n == 0 {
        0
    } else {
        varint_value(s, (n - 1) as nat) + (s[n - 1] % 128) as nat * pow128((n - 1) as nat)
    }
}

/// The varint at the start of `s`: its value and its length in bytes.
pub open spec fn varint(s: Seq<u8>) -> Option<(nat, nat)> {
    match varint_end(s, 0) {
        Some(n) => Some((varint_value(s, n), n)),
        None => None,
    }
}

/// The field key at the start of `s`: tag, wire type and the key's length.
/// A key must fit in 32 bits, name a wire type from 0 to 5 and a tag above 0.
pub open spec fn field_key(s: Seq<u8>) -> Option<(nat, nat, nat)> {
    match varint(s) {
        Some((key, n)) => if key > u32::MAX || key % 8 > 5 || key / 8 == 0 {
            None
        } else {
            Some((key / 8, key % 8, n))
        },
        None => None,
    }
}

/// A length-delimited payload at the start of `s`: where the payload starts
/// and where it ends (which is also how many bytes the field takes).
pub open spec fn delimited(s: Seq<u8>) -> Option<(nat, nat)> {
    match varint(s) {
        Some((len, n)) => if n + len <= s.len() {
            Some((n, n + len))
        } else {
            None
        },
        None => None,
    }
}

/// How many bytes the value of an unknown field takes, for the wire type
/// `wt` of a field with tag `tag`; `depth` is the nesting that is still
/// allowed (none left means the input nests too deep).
pub open spec fn skipped(wt: nat, tag: nat, s: Seq<u8>, depth: nat) -> Option<nat>
    decreases s.len(), 1nat,
{
    if depth == 0 {
        None
    } else if wt == 0 {
        match varint(s) {
            Some((_, n)) => Some(n),
            None => None,
        }
    } else if wt == 1 {
        if 8 <= s.len() {
            Some(8)
        } else {
            None
        }
    } else if wt == 2 {
        match delimited(s) {
            Some((_, e)) => Some(e),
            None => None,
        }
    } else if wt == 3 {
        skipped_group(tag, s, depth)
    } else if wt == 5 {
        if 4 <= s.len() {
            Some(4)
        } else {
            None
        }
    } else {
        None
    }
}

/// How many bytes the rest of a group with tag `tag` takes, up to and
/// including its end key, which must carry the same tag.
pub open spec fn skipped_group(tag: nat, s: Seq<u8>, depth: nat) -> Option<nat>
    decreases s.len(), 0nat,
{
    match field_key(s) {
        Some((t, w, k)) => if k == 0 || k > s.len() {
            None
        } else if w == 4 {
            if t == tag {
                Some(k)
            } else {
                None
            }
        } else {
            match skipped(w, t, s.skip(k as int), (depth - 1) as nat) {
                Some(c) => if k + c > s.len() {
                    None
                } else {
                    match skipped_group(tag, s.skip((k + c) as int), depth) {
                        Some(m) => Some(k + c + m),
                        None => None,
                    }
                },
                None => None,
            }
        },
        None => None,
    }
}

/// The bytes that encode `v` as a varint: seven bits at a time, least
/// significant first, with the top bit set on every byte but the last.
pub open spec fn varint_bytes(v: nat) -> Seq<u8>
    decreases v,
{
    if v < 128 {
        seq![v as u8]
    } else {
        seq![(v % 128 + 128) as u8] + varint_bytes(v / 128)
    }
}

proof fn lemma_pow128_bounds(i: nat)
    requires
        i <= 9,
    ensures
        pow128(i) <= 0x8000_0000_0000_0000,
        i <= 8 ==> pow128(i) <= 0x0100_0000_0000_0000,
        i == 9 ==> pow128(i) == 0x8000_0000_0000_0000,
        pow128(i) >= 1,
    decreases i,
{
    reveal_with_fuel(pow128, 10);
    if i > 0 {
        lemma_pow128_bounds((i - 1) as nat);
    }
}

proof fn lemma_add_group(v: nat, x: nat, m: nat)
    requires
        v < m,
        x < 128,
    ensures
        v + x * m < 128 * m,
        x * m <= 127 * m,
        x <= 1 ==> x * m <= m,
{
    assert(x * m <= 127 * m) by (nonlinear_arith)
        requires
            x < 128,
    ;
    assert(x <= 1 ==> x * m <= m) by (nonlinear_arith);
}

/// The seven-bit groups read so far, all with the top bit set, do not end
/// the varint: where it ends is decided from byte `i` on.
proof fn lemma_varint_end_continues(s: Seq<u8>, i: nat)
    requires
        i < 10,
        i < s.len(),
        s[i as int] >= 128,
    ensures
        varint_end(s, i) == varint_end(s, i + 1),
{
}

/// Reads the varint at `buf[pos..end]`.
pub fn read_varint(buf: &[u8], pos: usize, end: usize) -> (r: Option<(u64, usize)>)
    requires
        pos <= end <= buf@.len(),
    ensures
        match r {
            Some((v, n)) => varint(buf@.subrange(pos as int, end as int)) == Some((v as nat, n as nat)),
            None => varint(buf@.subrange(pos as int, end as int)) is None,
        },
        r matches Some((v, n)) ==> 1 <= n && pos + n <= end,
{
    let ghost s = buf@.subrange(pos as int, end as int);
    let mut i: usize = 0;
    let mut value: u64 = 0;
    let mut mult: u64 = 1;
    while i < 10
        invariant
            pos <= end <= buf@.len(),
            s == buf@.subrange(pos as int, end as int),
            i <= 10,
            pos + i <= end,
            varint_end(s, 0) == varint_end(s, i as nat),
            value as nat == varint_value(s, i as nat),
            mult as nat == pow128(i as nat),
            value < mult || i == 10,
        decreases 10 - i,
    {
        proof {
            lemma_pow128_bounds(i as nat);
        }
        if pos + i >= end {
            return None;
        }
        let b = buf[pos + i];
        assert(s[i as int] == b);
        if b < 128 {
            if i == 9 && b >= 2 {
                return None;
            }
            proof {
                lemma_add_group(value as nat, b as nat, mult as nat);
                assert(b % 128 == b);
            }
            let v = value + (b as u64) * mult;
            return Some((v, i + 1));
        }
        if i == 9 {
            proof {
                assert(varint_end(s, 10) is None);
            }
            return None;
        }
        proof {
            lemma_varint_end_continues(s, i as nat);
            lemma_add_group(value as nat, (b - 128) as nat, mult as nat);
            lemma_pow128_bounds((i + 1) as nat);
            assert(b % 128 == b - 128);
        }
        value = value + ((b - 128) as u64) * mult;
        mult = mult * 128;
        i = i + 1;
    }
    None
}

/// A varint takes at least one byte, at most ten, and no more than there are.
pub proof fn lemma_varint_end_bounds(s: Seq<u8>, i: nat)
    ensures
        varint_end(s, i) matches Some(n) ==> i < n <= 10 && n <= s.len(),
    decreases 10 - i,
{
    if i < 10 && i < s.len() && s[i as int] >= 128 {
        lemma_varint_end_bounds(s, i + 1);
    }
}

proof fn lemma_varint_value_same_prefix(s1: Seq<u8>, s2: Seq<u8>, n: nat)
    requires
        n <= s1.len(),
        n <= s2.len(),
        forall|j: int| 0 <= j < n ==> s1[j] == s2[j],
    ensures
        varint_value(s1, n) == varint_value(s2, n),
    decreases n,
{
    if n > 0 {
        lemma_varint_value_same_prefix(s1, s2, (n - 1) as nat);
    }
}

proof fn lemma_varint_bytes_from(p: Seq<u8>, v: nat, rest: Seq<u8>)
    requires
        p.len() <= 9,
        v * pow128(p.len()) <= u64::MAX,
    ensures
        varint_end(p + varint_bytes(v) + rest, p.len()) == Some(p.len() + varint_bytes(v).len()),
        varint_value(p + varint_bytes(v) + rest, p.len() + varint_bytes(v).len()) == varint_value(
            p,
            p.len(),
        ) + v * pow128(p.len()),
    decreases v,
{
    let i = p.len();
    let s = p + varint_bytes(v) + rest;
    lemma_pow128_bounds(i);
    if v < 128 {
        assert(varint_bytes(v) == seq![v as u8]);
        assert(s[i as int] == v as u8);
        if i == 9 {
            assert(v * pow128(i) == v * 0x8000_0000_0000_0000);
            assert(v < 2) by (nonlinear_arith)
                requires
                    v * 0x8000_0000_0000_0000 <= 0xffff_ffff_ffff_ffffnat,
            ;
        }
        assert(varint_value(s, i + 1) == varint_value(s, i) + (s[i as int] % 128) as nat * pow128(i));
        lemma_varint_value_same_prefix(s, p, i);
    } else {
        let b = (v % 128 + 128) as u8;
        let q = p.push(b);
        let w = v / 128;
        assert(v == w * 128 + v % 128);
        if i == 9 {
            assert(v * pow128(i) == v * 0x8000_0000_0000_0000);
            assert(false) by (nonlinear_arith)
                requires
                    v * 0x8000_0000_0000_0000 <= 0xffff_ffff_ffff_ffffnat,
                    v >= 128,
            ;
        }
        assert(pow128(i + 1) == 128 * pow128(i));
        assert(w * pow128(i + 1) <= v * pow128(i)) by (nonlinear_arith)
            requires
                v == w * 128 + v % 128,
                pow128(i + 1) == 128 * pow128(i),
                v % 128 >= 0,
                pow128(i) >= 1,
        ;
        lemma_varint_bytes_from(q, w, rest);
        assert(varint_bytes(v) == seq![b] + varint_bytes(w));
        assert(s =~= q + varint_bytes(w) + rest);
        assert(s[i as int] == b);
        assert(varint_end(s, i) == varint_end(s, i + 1));
        let n = i + varint_bytes(v).len();
        assert(varint_value(q, i + 1) == varint_value(q, i) + (b % 128) as nat * pow128(i));
        lemma_varint_value_same_prefix(q, p, i);
        assert(b % 128 == v % 128);
        assert(varint_value(p, i) + (v % 128) * pow128(i) + w * pow128(i + 1) == varint_value(p, i)
            + v * pow128(i)) by (nonlinear_arith)
            requires
                v == w * 128 + v % 128,
                pow128(i + 1) == 128 * pow128(i),
        ;
    }
}

/// Decoding the varint that `varint_bytes` writes for a 64-bit value gives
/// the value back, and takes exactly the bytes written, whatever follows.
pub proof fn lemma_varint_roundtrip(v: u64, rest: Seq<u8>)
    ensures
        varint(varint_bytes(v as nat) + rest) == Some((v as nat, varint_bytes(v as nat).len())),
{
    let p = Seq::<u8>::empty();
    assert(p.len() == 0);
    assert(pow128(0) == 1);
    assert(v as nat * pow128(0) == v);
    lemma_varint_bytes_from(p, v as nat, rest);
    assert(p + varint_bytes(v as nat) + rest =~= varint_bytes(v as nat) + rest);
}

/// Reads the field key at `buf[pos..end]`: tag, wire type and key length.
pub fn read_key(buf: &[u8], pos: usize, end: usize) -> (r: Option<(u64, u64, usize)>)
    requires
        pos <= end <= buf@.len(),
    ensures
        match r {
            Some((t, w, k)) => field_key(buf@.subrange(pos as int, end as int)) == Some(
                (t as nat, w as nat, k as nat),
            ),
            None => field_key(buf@.subrange(pos as int, end as int)) is None,
        },
        r matches Some((t, w, k)) ==> 1 <= k && pos + k <= end && w <= 5,
{
    match read_varint(buf, pos, end) {
        Some((key, n)) => {
            if key > 0xffff_ffff || key % 8 > 5 || key / 8 == 0 {
                None
            } else {
                Some((key / 8, key % 8, n))
            }
        },
        None => None,
    }
}

/// Reads the length prefix of a length-delimited value at `buf[pos..end]`:
/// where its payload starts and ends, counted from `pos`.
pub fn read_delimited(buf: &[u8], pos: usize, end: usize) -> (r: Option<(usize, usize)>)
    requires
        pos <= end <= buf@.len(),
    ensures
        match r {
            Some((a, e)) => delimited(buf@.subrange(pos as int, end as int)) == Some(
                (a as nat, e as nat),
            ),
            None => delimited(buf@.subrange(pos as int, end as int)) is None,
        },
        r matches Some((a, e)) ==> a <= e && pos + e <= end,
{
    match read_varint(buf, pos, end) {
        Some((len, n)) => {
            if len > (end - pos - n) as u64 {
                None
            } else {
                Some((n, n + len as usize))
            }
        },
        None => None,
    }
}

proof fn lemma_skip_subrange(s: Seq<u8>, pos: int, end: int, k: int)
    requires
        0 <= pos <= pos + k <= end <= s.len(),
        0 <= k,
    ensures
        s.subrange(pos, end).skip(k) == s.subrange(pos + k, end),
{
    assert(s.subrange(pos, end).skip(k) =~= s.subrange(pos + k, end));
}

/// Skips the value of an unknown field with wire type `wt` and tag `tag` at
/// `buf[pos..end]`, returning how many bytes it takes.
pub fn skip_field(buf: &[u8], pos: usize, end: usize, wt: u64, tag: u64, depth: u32) -> (r:
    Option<usize>)
    requires
        pos <= end <= buf@.len(),
    ensures
        match r {
            Some(c) => skipped(wt as nat, tag as nat, buf@.subrange(pos as int, end as int), depth as nat)
                == Some(c as nat),
            None => skipped(
                wt as nat,
                tag as nat,
                buf@.subrange(pos as int, end as int),
                depth as nat,
            ) is None,
        },
        r matches Some(c) ==> pos + c <= end,
    decreases end - pos, 1nat,
{
    if depth == 0 {
        None
    } else if wt == 0 {
        match read_varint(buf, pos, end) {
            Some((_, n)) => Some(n),
            None => None,
        }
    } else if wt == 1 {
        if 8 <= end - pos {
            Some(8)
        } else {
            None
        }
    } else if wt == 2 {
        match read_delimited(buf, pos, end) {
            Some((_, e)) => Some(e),
            None => None,
        }
    } else if wt == 3 {
        skip_group(buf, pos, end, tag, depth)
    } else if wt == 5 {
        if 4 <= end - pos {
            Some(4)
        } else {
            None
        }
    } else {
        None
    }
}

/// Skips the rest of a group with tag `tag` at `buf[pos..end]`, up to and
/// including its end key.
pub fn skip_group(buf: &[u8], pos: usize, end: usize, tag: u64, depth: u32) -> (r: Option<usize>)
    requires
        pos <= end <= buf@.len(),
        depth >= 1,
    ensures
        match r {
            Some(c) => skipped_group(tag as nat, buf@.subrange(pos as int, end as int), depth as nat)
                == Some(c as nat),
            None => skipped_group(
                tag as nat,
                buf@.subrange(pos as int, end as int),
                depth as nat,
            ) is None,
        },
        r matches Some(c) ==> pos + c <= end,
    decreases end - pos, 0nat,
{
    let ghost whole = buf@.subrange(pos as int, end as int);
    let mut cur = pos;
    loop
        invariant
            pos <= cur <= end <= buf@.len(),
            depth >= 1,
            whole == buf@.subrange(pos as int, end as int),
            skipped_group(tag as nat, whole, depth as nat) == match skipped_group(
                tag as nat,
                buf@.subrange(cur as int, end as int),
                depth as nat,
            ) {
                Some(m) => Some(((cur - pos) + m) as nat),
                None => None,
            },
        decreases end - cur,
    {
        match read_key(buf, cur, end) {
            None => {
                return None;
            },
            Some((t, w, k)) => {
                if w == 4 {
                    if t == tag {
                        return Some(cur - pos + k);
                    } else {
                        return None;
                    }
                }
                proof {
                    lemma_skip_subrange(buf@, cur as int, end as int, k as int);
                }
                match skip_field(buf, cur + k, end, w, t, depth - 1) {
                    None => {
                        return None;
                    },
                    Some(c) => {
                        proof {
                            lemma_skip_subrange(buf@, cur as int, end as int, (k + c) as int);
                        }
                        cur = cur + k + c;
                    },
                }
            },
        }
    }
}

/// Appends the varint encoding of `v` to `out`.
pub fn push_varint(v: u64, out: &mut Vec<u8>)
    ensures
        final(out)@ == old(out)@ + varint_bytes(v as nat),
    decreases v,
{
    if v < 128 {
        out.push(v as u8);
        proof {
            assert(varint_bytes(v as nat) == seq![v as u8]);
        }
    } else {
        out.push((v % 128 + 128) as u8);
        push_varint(v / 128, out);
        proof {
            assert(varint_bytes(v as nat) == seq![(v % 128 + 128) as u8] + varint_bytes((v / 128) as nat));
            assert(final(out)@ =~= old(out)@ + varint_bytes(v as nat));
        }
    }
}

} // verus!

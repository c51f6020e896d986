//! Authentication: the TOTP secret, its catalog, the token and their caches.
use vstd::prelude::*;
use vstd::string::StringSliceAdditionalSpecFns;
use vstd::string::StringExecFns;
use vstd::utf8::encode_utf8;

use crate::decimal::{all_digits, decimal_digits, is_digit, lemma_decimal_digits_shape, parse_u32, parsed_u32, push_decimal, u32_to_decimal_string};
use crate::header::{is_valid_header_value, valid_header_bytes};
use crate::text::ascii_chars;
use crate::spotify::{SpotifyError, SpotifyErrorView};

verus! {

/// A TOTP secret of the web player, with the version that names it.
#[derive(Clone, Debug, PartialEq, Eq)]
pub struct TotpSecret {
    pub version: u32,
    pub bytes: Vec<u8>,
}

/// The catalog version of the secret that is used when no catalog can be had.
pub const FALLBACK_VERSION: u32 = 61;

/// The secret of catalog version 61.
pub const FALLBACK_BYTES: [u8; 26] = [
    44, 55, 47, 42, 70, 40, 34, 114, 76, 74, 50, 111, 120, 97, 75, 76, 94, 102, 43, 69, 49, 120,
    118, 80, 64, 78,
];

/// The bytes of the fallback secret.
pub open spec fn fallback_bytes() -> Seq<u8> {
    seq![
        44u8, 55, 47, 42, 70, 40, 34, 114, 76, 74, 50, 111, 120, 97, 75, 76, 94, 102, 43, 69, 49,
        120, 118, 80, 64, 78,
    ]
}

fn copy_bytes(v: &Vec<u8>) -> (r: Vec<u8>)
    ensures
        r@ == v@,
{
    let mut out: Vec<u8> = Vec::new();
    let mut i: usize = 0;
    while i < v.len()
        invariant
            i <= v@.len(),
            out@ == v@.subrange(0, i as int),
        decreases v@.len() - i,
    {
        out.push(v[i]);
        i = i + 1;
        assert(out@ =~= v@.subrange(0, i as int));
    }
    assert(v@.subrange(0, v@.len() as int) =~= v@);
    out
}

/// A copy of a secret.
pub fn copy_secret(s: &TotpSecret) -> (r: TotpSecret)
    ensures
        r.version == s.version,
        r.bytes@ == s.bytes@,
{
    TotpSecret { version: s.version, bytes: copy_bytes(&s.bytes) }
}

/// The secret used when the catalog cannot be read: version 61.
pub fn fallback_secret() -> (r: TotpSecret)
    ensures
        r.version == FALLBACK_VERSION,
        r.bytes@ == fallback_bytes(),
{
    let bytes = vec![
        44u8, 55, 47, 42, 70, 40, 34, 114, 76, 74, 50, 111, 120, 97, 75, 76, 94, 102, 43, 69, 49,
        120, 118, 80, 64, 78,
    ];
    assert(bytes@ =~= fallback_bytes());
    TotpSecret { version: FALLBACK_VERSION, bytes }
}

/// Byte `i` of a secret, mixed with its position as the web player does:
/// XOR with `i % 33 + 9`.
pub open spec fn mixed_byte(b: u8, i: nat) -> u8 {
    b ^ ((i % 33 + 9) as u8)
}

/// The TOTP key of a secret: the decimal writings of its mixed bytes, one
/// after the other, as ASCII bytes.
pub open spec fn totp_key_bytes(secret: Seq<u8>) -> Seq<u8>
    decreases secret.len(),
{
    if secret.len() == 0 {
        Seq::empty()
    } else {
        totp_key_bytes(secret.drop_last()) + decimal_digits(
            mixed_byte(secret.last(), (secret.len() - 1) as nat) as nat,
        )
    }
}

/// Derives the TOTP key from the secret's bytes.
pub fn spotify_totp_key(secret_bytes: &[u8]) -> (r: Vec<u8>)
    ensures
        r@ == totp_key_bytes(secret_bytes@),
{
    let mut out: Vec<u8> = Vec::new();
    let mut i: usize = 0;
    while i < secret_bytes.len()
        invariant
            i <= secret_bytes@.len(),
            out@ == totp_key_bytes(secret_bytes@.subrange(0, i as int)),
        decreases secret_bytes@.len() - i,
    {
        let mask: u8 = (i % 33) as u8 + 9;
        let b = secret_bytes[i] ^ mask;
        push_decimal(b as u64, &mut out);
        proof {
            let p = secret_bytes@.subrange(0, i + 1);
            assert(p.drop_last() =~= secret_bytes@.subrange(0, i as int));
            assert(p.last() == secret_bytes@[i as int]);
            assert(mask == ((i % 33 + 9) as u8));
        }
        i = i + 1;
    }
    assert(secret_bytes@.subrange(0, secret_bytes@.len() as int) =~= secret_bytes@);
    out
}

/// Every secret byte gives one to three key bytes: a secret of 16 bytes or
/// more always has a key long enough for a TOTP.
pub proof fn lemma_totp_key_length(secret: Seq<u8>)
    ensures
        secret.len() <= totp_key_bytes(secret).len() <= 3 * secret.len(),
    decreases secret.len(),
{
    if secret.len() > 0 {
        lemma_totp_key_length(secret.drop_last());
        lemma_decimal_digits_shape(mixed_byte(secret.last(), (secret.len() - 1) as nat) as nat);
    }
}

/// The key is the decimal writings of the secret's bytes, one after the
/// other, where byte `i` is first XORed with `i % 33 + 9`: the part that byte
/// `i` adds after the key of the bytes before it.
pub proof fn lemma_totp_key_groups(secret: Seq<u8>, i: int)
    requires
        0 <= i < secret.len(),
    ensures
        totp_key_bytes(secret.take(i + 1)) == totp_key_bytes(secret.take(i)) + decimal_digits(
            (secret[i] ^ ((i % 33 + 9) as u8)) as nat,
        ),
{
    let p = secret.take(i + 1);
    assert(p.drop_last() =~= secret.take(i));
    assert(p.last() == secret[i]);
}

/// The key is made of ASCII decimal digits only.
pub proof fn lemma_totp_key_digits(secret: Seq<u8>)
    ensures
        all_digits(totp_key_bytes(secret)),
    decreases secret.len(),
{
    if secret.len() > 0 {
        let init = secret.drop_last();
        let d = decimal_digits(mixed_byte(secret.last(), (secret.len() - 1) as nat) as nat);
        lemma_totp_key_digits(init);
        lemma_decimal_digits_shape(mixed_byte(secret.last(), (secret.len() - 1) as nat) as nat);
        let k = totp_key_bytes(secret);
        assert(k == totp_key_bytes(init) + d);
        assert forall|i: int| 0 <= i < k.len() implies #[trigger] is_digit(k[i]) by {
            if i < totp_key_bytes(init).len() {
                assert(k[i] == totp_key_bytes(init)[i]);
            } else {
                assert(k[i] == d[i - totp_key_bytes(init).len()]);
            }
        }
    }
}

/// The mask repeats every 33 bytes: after a whole number of 33-byte blocks,
/// the key of the rest starts afresh, so the key of `a + b` is the key of `a`
/// followed by the key of `b`.
pub proof fn lemma_totp_key_blocks(a: Seq<u8>, b: Seq<u8>)
    requires
        a.len() % 33 == 0,
    ensures
        totp_key_bytes(a + b) == totp_key_bytes(a) + totp_key_bytes(b),
    decreases b.len(),
{
    if b.len() == 0 {
        assert(a + b =~= a);
        assert(totp_key_bytes(a) + totp_key_bytes(b) =~= totp_key_bytes(a));
    } else {
        let ab = a + b;
        lemma_totp_key_blocks(a, b.drop_last());
        assert(ab.drop_last() =~= a + b.drop_last());
        assert(ab.last() == b.last());
        let i: nat = (ab.len() - 1) as nat;
        let j: nat = (b.len() - 1) as nat;
        assert(i == a.len() + j);
        assert(i % 33 == j % 33) by (nonlinear_arith)
            requires
                a.len() % 33 == 0,
                i == a.len() + j,
        ;
        assert(mixed_byte(ab.last(), i) == mixed_byte(b.last(), j));
        assert(totp_key_bytes(ab) == totp_key_bytes(a + b.drop_last()) + decimal_digits(
            mixed_byte(b.last(), j) as nat,
        ));
        assert(totp_key_bytes(b) == totp_key_bytes(b.drop_last()) + decimal_digits(
            mixed_byte(b.last(), j) as nat,
        ));
        assert(totp_key_bytes(ab) =~= totp_key_bytes(a) + totp_key_bytes(b));
    }
}

/// The catalog version that a catalog name stands for.
pub open spec fn version_of(name: Seq<char>) -> Option<u32> {
    parsed_u32(encode_utf8(name))
}

/// The secret that a catalog entry offers: its name read as a version, with
/// bytes that are not empty.
pub open spec fn entry_candidate(entry: (Seq<char>, Seq<u8>)) -> Option<(u32, Seq<u8>)> {
    match version_of(entry.0) {
        Some(v) => if entry.1.len() > 0 {
            Some((v, entry.1))
        } else {
            None
        },
        None => None,
    }
}

/// The highest version among the entries that offer a secret, with its
/// bytes; of equal versions the later entry wins.
pub open spec fn latest_entry(entries: Seq<(Seq<char>, Seq<u8>)>) -> Option<(u32, Seq<u8>)>
    decreases entries.len(),
{
    if entries.len() == 0 {
        None
    } else {
        let prev = latest_entry(entries.drop_last());
        match entry_candidate(entries.last()) {
            Some((v, b)) => match prev {
                Some((pv, pb)) => if pv > v {
                    prev
                } else {
                    Some((v, b))
                },
                None => Some((v, b)),
            },
            None => prev,
        }
    }
}

/// The secret picked from catalog entries is one that an entry offers, and
/// no entry offers a higher version; nothing is picked only when no entry
/// offers a secret.
pub proof fn lemma_latest_is_highest(entries: Seq<(Seq<char>, Seq<u8>)>)
    ensures
        match latest_entry(entries) {
            Some((v, b)) => {
                &&& exists|i: int| 0 <= i < entries.len() && #[trigger] entry_candidate(entries[i]) == Some((v, b))
                &&& forall|i: int| 0 <= i < entries.len() ==> (#[trigger] entry_candidate(entries[i]) matches Some((w, c)) ==> w <= v)
            },
            None => forall|i: int| 0 <= i < entries.len() ==> #[trigger] entry_candidate(entries[i]) is None,
        },
    decreases entries.len(),
{
    if entries.len() > 0 {
        let init = entries.drop_last();
        lemma_latest_is_highest(init);
        let n = entries.len() - 1;
        assert forall|i: int| 0 <= i < n implies entries[i] == init[i] by {}
        match latest_entry(entries) {
            Some((v, b)) => {
                if latest_entry(entries) == latest_entry(init) {
                    let (pv, pb) = latest_entry(init)->0;
                    let j = choose|j: int| 0 <= j < init.len() && #[trigger] entry_candidate(init[j]) == Some((pv, pb));
                    assert(entry_candidate(entries[j]) == Some((v, b)));
                } else {
                    assert(entry_candidate(entries[n]) == Some((v, b)));
                }
                assert forall|i: int| 0 <= i < entries.len() implies (#[trigger] entry_candidate(entries[i]) matches Some((w, c)) ==> w <= v) by {
                    if i < n {
                        assert(entries[i] == init[i]);
                    }
                }
            },
            None => {
                assert forall|i: int| 0 <= i < entries.len() implies #[trigger] entry_candidate(entries[i]) is None by {
                    if i < n {
                        assert(entries[i] == init[i]);
                    }
                }
            },
        }
    }
}

/// The views of catalog entries.
pub open spec fn catalog_view(entries: Seq<(String, Vec<u8>)>) -> Seq<(Seq<char>, Seq<u8>)> {
    entries.map_values(|e: (String, Vec<u8>)| (e.0@, e.1@))
}

/// Picks the secret with the highest catalog version; names that are not a
/// `u32` and empty secrets are passed over.
pub fn select_latest(catalog: Vec<(String, Vec<u8>)>) -> (r: Option<TotpSecret>)
    ensures
        match r {
            Some(s) => latest_entry(catalog_view(catalog@)) == Some((s.version, s.bytes@)),
            None => latest_entry(catalog_view(catalog@)) is None,
        },
{
    let ghost view = catalog_view(catalog@);
    let mut best: Option<(u32, usize)> = None;
    let mut i: usize = 0;
    while i < catalog.len()
        invariant
            i <= catalog@.len(),
            view == catalog_view(catalog@),
            match best {
                Some((v, j)) => j < i && latest_entry(view.subrange(0, i as int)) == Some(
                    (v, view[j as int].1),
                ),
                None => latest_entry(view.subrange(0, i as int)) is None,
            },
        decreases catalog@.len() - i,
    {
        let parsed = parse_u32(catalog[i].0.as_str());
        let non_empty = catalog[i].1.len() > 0;
        proof {
            let p = view.subrange(0, i + 1);
            assert(p.drop_last() =~= view.subrange(0, i as int));
            assert(p.last() == view[i as int]);
            assert(view[i as int] == (catalog@[i as int].0@, catalog@[i as int].1@));
        }
        match parsed {
            Some(v) => {
                if non_empty {
                    match best {
                        Some((bv, _)) => {
                            if !(bv > v) {
                                best = Some((v, i));
                            }
                        },
                        None => {
                            best = Some((v, i));
                        },
                    }
                }
            },
            None => {},
        }
        i = i + 1;
    }
    proof {
        assert(view.subrange(0, catalog@.len() as int) =~= view);
    }
    match best {
        None => None,
        Some((v, j)) => {
            let mut catalog = catalog;
            let entry = catalog.remove(j);
            Some(TotpSecret { version: v, bytes: entry.1 })
        },
    }
}

/// A catalog element that is a whole number from 0 to 255.
pub open spec fn byte_item(item: Option<u64>) -> bool {
    item matches Some(x) && x <= 255
}

/// The secret bytes of a catalog value: a non-empty array whose elements are
/// all whole numbers from 0 to 255. `value` is the array as read from the
/// catalog's JSON, each element as an unsigned integer where it is one.
pub open spec fn catalog_bytes(value: Option<Seq<Option<u64>>>) -> Option<Seq<u8>> {
    match value {
        Some(items) => if items.len() > 0 && forall|i: int|
            0 <= i < items.len() ==> #[trigger] byte_item(items[i]) {
            Some(Seq::new(items.len(), |i: int| items[i]->0 as u8))
        } else {
            None
        },
        None => None,
    }
}

/// The catalog entries that hold a usable secret, in order, with their bytes.
pub open spec fn normalized(entries: Seq<(Seq<char>, Option<Seq<Option<u64>>>)>) -> Seq<
    (Seq<char>, Seq<u8>),
>
    decreases entries.len(),
{
    if entries.len() == 0 {
        Seq::empty()
    } else {
        let prev = normalized(entries.drop_last());
        match catalog_bytes(entries.last().1) {
            Some(b) => prev.push((entries.last().0, b)),
            None => prev,
        }
    }
}

/// The view of an optional list.
pub open spec fn items_view(value: Option<Vec<Option<u64>>>) -> Option<Seq<Option<u64>>> {
    match value {
        Some(v) => Some(v@),
        None => None,
    }
}

/// The views of raw catalog entries.
pub open spec fn raw_catalog_view(entries: Seq<(String, Option<Vec<Option<u64>>>)>) -> Seq<
    (Seq<char>, Option<Seq<Option<u64>>>),
> {
    entries.map_values(|e: (String, Option<Vec<Option<u64>>>)| (e.0@, items_view(e.1)))
}

fn catalog_value_bytes(value: &Option<Vec<Option<u64>>>) -> (r: Option<Vec<u8>>)
    ensures
        match r {
            Some(b) => catalog_bytes(items_view(*value)) == Some(b@),
            None => catalog_bytes(items_view(*value)) is None,
        },
{
    match value {
        None => None,
        Some(items) => {
            if items.len() == 0 {
                return None;
            }
            let mut out: Vec<u8> = Vec::new();
            let mut i: usize = 0;
            while i < items.len()
                invariant
                    i <= items@.len(),
                    items_view(*value) == Some(items@),
                    out@.len() == i,
                    forall|j: int| 0 <= j < i ==> #[trigger] byte_item(items@[j]),
                    forall|j: int| 0 <= j < i ==> out@[j] == items@[j]->0 as u8,
                decreases items@.len() - i,
            {
                match items[i] {
                    Some(x) => {
                        if x > 255 {
                            assert(!byte_item(items@[i as int]));
                            return None;
                        }
                        out.push(x as u8);
                    },
                    None => {
                        assert(!byte_item(items@[i as int]));
                        return None;
                    },
                }
                i = i + 1;
            }
            proof {
                let items_seq = items@;
                assert(out@ =~= Seq::new(items_seq.len(), |j: int| items_seq[j]->0 as u8));
            }
            Some(out)
        },
    }
}

/// Keeps the catalog entries whose value is a non-empty array of bytes, as
/// name and bytes; the others are dropped.
pub fn normalize_catalog(catalog: Vec<(String, Option<Vec<Option<u64>>>)>) -> (r: Vec<(String, Vec<u8>)>)
    ensures
        catalog_view(r@) == normalized(raw_catalog_view(catalog@)),
{
    let ghost raw = raw_catalog_view(catalog@);
    let mut out: Vec<(String, Vec<u8>)> = Vec::new();
    let ghost all = catalog@;
    let n = catalog.len();
    let mut i: usize = 0;
    proof {
        assert(catalog_view(out@) =~= normalized(raw.subrange(0, 0)));
    }
    while i < n
        invariant
            n == all.len(),
            all == catalog@,
            i <= n,
            raw == raw_catalog_view(all),
            catalog_view(out@) == normalized(raw.subrange(0, i as int)),
        decreases n - i,
    {
        proof {
            let p = raw.subrange(0, i + 1);
            assert(p.drop_last() =~= raw.subrange(0, i as int));
            assert(p.last() == raw[i as int]);
            assert(raw[i as int] == (all[i as int].0@, items_view(all[i as int].1)));
        }
        let bytes = catalog_value_bytes(&catalog[i].1);
        match bytes {
            Some(b) => {
                let ghost before = catalog_view(out@);
                let name = catalog[i].0.clone();
                out.push((name, b));
                proof {
                    assert(catalog_view(out@) =~= before.push((all[i as int].0@, b@)));
                }
            },
            None => {},
        }
        i = i + 1;
    }
    proof {
        assert(raw.subrange(0, n as int) =~= raw);
    }
    out
}

/// The secret that a catalog offers: the highest version among its usable
/// entries.
pub open spec fn catalog_choice(entries: Seq<(Seq<char>, Option<Seq<Option<u64>>>)>) -> Option<
    (u32, Seq<u8>),
> {
    latest_entry(normalized(entries))
}

/// The secret of the highest version in a freshly read catalog, or an
/// authentication failure when it offers none.
pub fn catalog_secret(catalog: Vec<(String, Option<Vec<Option<u64>>>)>) -> (r: Result<
    TotpSecret,
    SpotifyError,
>)
    ensures
        match r {
            Ok(s) => catalog_choice(raw_catalog_view(catalog@)) == Some((s.version, s.bytes@)),
            Err(e) => catalog_choice(raw_catalog_view(catalog@)) is None && e@
                == SpotifyErrorView::Authentication("TOTP catalog is empty"@),
        },
{
    match select_latest(normalize_catalog(catalog)) {
        Some(s) => Ok(s),
        None => Err(SpotifyError::Authentication(String::from_str("TOTP catalog is empty"))),
    }
}

/// How long a catalog that was read stays fresh: one hour.
pub const CATALOG_TTL_SECS: u64 = 3600;

/// The secret to use without reading the catalog: the configured override
/// always; otherwise the cached secret, unless a refresh is forced or the
/// cache is an hour old or older. Nothing means: read the catalog.
pub open spec fn secret_without_fetch(
    override_secret: Option<(u32, Seq<u8>)>,
    force_refresh: bool,
    cached: Option<(u32, Seq<u8>)>,
    cache_age_secs: u64,
) -> Option<(u32, Seq<u8>)> {
    match override_secret {
        Some(s) => Some(s),
        None => if !force_refresh && cached is Some && cache_age_secs < CATALOG_TTL_SECS {
            cached
        } else {
            None
        },
    }
}

/// The view of an optional secret.
pub open spec fn secret_view(s: Option<TotpSecret>) -> Option<(u32, Seq<u8>)> {
    match s {
        Some(t) => Some((t.version, t.bytes@)),
        None => None,
    }
}

fn copy_optional_secret(s: &Option<TotpSecret>) -> (r: Option<TotpSecret>)
    ensures
        secret_view(r) == secret_view(*s),
{
    match s {
        Some(t) => Some(copy_secret(t)),
        None => None,
    }
}

/// A configured override is always the secret, whatever the cache holds and
/// whether a refresh is forced.
pub proof fn lemma_override_always_wins(
    secret: (u32, Seq<u8>),
    force_refresh: bool,
    cached: Option<(u32, Seq<u8>)>,
    cache_age_secs: u64,
)
    ensures
        secret_without_fetch(Some(secret), force_refresh, cached, cache_age_secs) == Some(secret),
{
}

/// Without an override, a forced refresh or a cache an hour old always
/// reads the catalog.
pub proof fn lemma_stale_or_forced_reads_catalog(
    force_refresh: bool,
    cached: Option<(u32, Seq<u8>)>,
    cache_age_secs: u64,
)
    requires
        force_refresh || cache_age_secs >= CATALOG_TTL_SECS,
    ensures
        secret_without_fetch(None, force_refresh, cached, cache_age_secs) is None,
{
}

/// Chooses the secret for a token request when no catalog has to be read;
/// `cache_age_secs` is how long ago the cached secret was read.
pub fn secret_from_cache(
    override_secret: &Option<TotpSecret>,
    force_refresh: bool,
    cached: &Option<TotpSecret>,
    cache_age_secs: u64,
) -> (r: Option<TotpSecret>)
    ensures
        secret_view(r) == secret_without_fetch(
            secret_view(*override_secret),
            force_refresh,
            secret_view(*cached),
            cache_age_secs,
        ),
{
    if override_secret.is_some() {
        return copy_optional_secret(override_secret);
    }
    if !force_refresh && cached.is_some() && cache_age_secs < CATALOG_TTL_SECS {
        return copy_optional_secret(cached);
    }
    None
}

/// The outcome of reading the catalog: the secret to use, and whether it is
/// to be cached.
pub struct SecretChoice {
    pub secret: TotpSecret,
    pub store: bool,
}

/// Chooses the secret once the catalog was read: a secret read from it, to
/// be cached; after a failure, the cached secret if there is one, else the
/// fallback, and nothing to cache.
pub fn secret_after_fetch(fetched: Result<TotpSecret, SpotifyError>, cached: &Option<TotpSecret>) -> (r:
    SecretChoice)
    ensures
        match fetched {
            Ok(s) => r.store && r.secret == s,
            Err(_) => !r.store && match cached {
                Some(c) => r.secret.version == c.version && r.secret.bytes@ == c.bytes@,
                None => r.secret.version == FALLBACK_VERSION && r.secret.bytes@ == fallback_bytes(),
            },
        },
{
    match fetched {
        Ok(s) => SecretChoice { secret: s, store: true },
        Err(_) => match cached {
            Some(c) => SecretChoice { secret: copy_secret(c), store: false },
            None => SecretChoice { secret: fallback_secret(), store: false },
        },
    }
}

/// A successful catalog response is read; any other status is a failure.
pub fn check_catalog_status(status: u16) -> (r: Result<(), SpotifyError>)
    ensures
        r is Ok <==> 200 <= status <= 299,
        r matches Err(e) ==> e@ == SpotifyErrorView::Upstream(status),
{
    if 200 <= status && status <= 299 {
        Ok(())
    } else {
        Err(SpotifyError::Upstream(status))
    }
}

/// The `Cookie` header that carries the session: `sp_dc=<sp_dc>`, followed by
/// `; sp_key=<sp_key>` when a key is set.
pub open spec fn cookie_text(sp_dc: Seq<char>, sp_key: Option<Seq<char>>) -> Seq<char> {
    match sp_key {
        Some(k) => "sp_dc="@ + sp_dc + "; sp_key="@ + k,
        None => "sp_dc="@ + sp_dc,
    }
}

/// The session cookie for the token endpoint; it fails when the cookie could
/// not be sent as a header value.
pub fn auth_cookie(sp_dc: &str, sp_key: Option<&str>) -> (r: Result<String, SpotifyError>)
    ensures
        ({
            let key = match sp_key {
                Some(k) => Some(k@),
                None => None,
            };
            let text = cookie_text(sp_dc@, key);
            &&& r is Ok <==> valid_header_bytes(encode_utf8(text))
            &&& r matches Ok(c) ==> c@ == text
            &&& r matches Err(e) ==> e@ == SpotifyErrorView::Authentication(
                "cookie contains invalid header characters"@,
            )
        }),
{
    let mut cookie = String::from_str("sp_dc=");
    cookie.append(sp_dc);
    match sp_key {
        Some(k) => {
            cookie.append("; sp_key=");
            cookie.append(k);
        },
        None => {},
    }
    if is_valid_header_value(cookie.as_str()) {
        Ok(cookie)
    } else {
        Err(SpotifyError::Authentication(String::from_str("cookie contains invalid header characters")))
    }
}

#[verifier::external_type_specification]
#[verifier::external_body]
pub struct ExTotpUrlError(totp_rs::TotpUrlError);

// The TOTP code that HMAC-SHA1 with key `key` gives at Unix time `time`:
// six digits, a new code every 30 seconds (RFC 6238).
pub uninterp spec fn totp_sha1_code(key: Seq<u8>, time: u64) -> Seq<char>;

/// The decimal digit characters.
pub open spec fn is_digit_char(c: char) -> bool {
    '0' <= c <= '9'
}

/// A TOTP code as the web player sends it: six decimal digits.
pub open spec fn is_totp_code(code: Seq<char>) -> bool {
    code.len() == 6 && forall|i: int| 0 <= i < 6 ==> #[trigger] is_digit_char(code[i])
}

/// `totp_rs::TOTP::new(Algorithm::SHA1, 6, 1, 30, key)`, for its check alone.
/// Claimed, as its source shows: with six digits it fails exactly when the
/// key is shorter than 16 bytes (128 bits).
#[verifier::external_body]
fn check_totp_key(key: &[u8]) -> (r: Result<(), totp_rs::TotpUrlError>)
    ensures
        r is Ok <==> key@.len() >= 16,
{
    match totp_rs::TOTP::new(totp_rs::Algorithm::SHA1, 6, 1, 30, key.to_vec()) {
        Ok(_) => Ok(()),
        Err(e) => Err(e),
    }
}

/// `TOTP::generate` for SHA-1, six digits, skew 1 and a 30-second step, the
/// generator being built from `key` by `TOTP::new_unchecked`. Claimed: the
/// code is `totp_sha1_code(key, time)`, and it is six decimal digits, as the
/// source formats the value below one million with a width of six.
#[verifier::external_body]
fn totp_code(key: &[u8], time: u64) -> (r: String)
    ensures
        r@ == totp_sha1_code(key@, time),
        is_totp_code(r@),
{
    totp_rs::TOTP::new_unchecked(totp_rs::Algorithm::SHA1, 6, 1, 30, key.to_vec()).generate(time)
}

/// The TOTP code of a secret at Unix time `now_secs`: the code of its derived
/// key. A key shorter than 16 bytes is refused, as an authentication failure.
pub fn secret_totp(secret: &TotpSecret, now_secs: u64) -> (r: Result<String, SpotifyError>)
    ensures
        r is Ok <==> totp_key_bytes(secret.bytes@).len() >= 16,
        r matches Ok(c) ==> c@ == totp_sha1_code(totp_key_bytes(secret.bytes@), now_secs),
        r matches Ok(c) ==> is_totp_code(c@),
        r matches Err(e) ==> e is Authentication,
{
    let key = spotify_totp_key(secret.bytes.as_slice());
    match check_totp_key(key.as_slice()) {
        Err(e) => Err(SpotifyError::Authentication(e.to_string())),
        Ok(()) => Ok(totp_code(key.as_slice(), now_secs)),
    }
}

/// The query of a token request: the fixed reason and product type, the TOTP
/// code twice (as `totp` and `totpServer`) and the secret's version.
pub open spec fn token_query_view(totp: Seq<char>, version: u32) -> Seq<(Seq<char>, Seq<char>)> {
    seq![
        ("reason"@, "init"@),
        ("productType"@, "web-player"@),
        ("totp"@, totp),
        ("totpServer"@, totp),
        ("totpVer"@, ascii_chars(decimal_digits(version as nat))),
    ]
}

/// The views of query pairs.
pub open spec fn pairs_view(q: Seq<(String, String)>) -> Seq<(Seq<char>, Seq<char>)> {
    q.map_values(|p: (String, String)| (p.0@, p.1@))
}

/// The query parameters of a token request for the code `totp` of the secret
/// with version `version`.
pub fn token_query(totp: String, version: u32) -> (r: Vec<(String, String)>)
    ensures
        pairs_view(r@) == token_query_view(totp@, version),
{
    let mut q: Vec<(String, String)> = Vec::new();
    q.push((String::from_str("reason"), String::from_str("init")));
    q.push((String::from_str("productType"), String::from_str("web-player")));
    q.push((String::from_str("totp"), totp.clone()));
    q.push((String::from_str("totpServer"), totp));
    q.push((String::from_str("totpVer"), u32_to_decimal_string(version)));
    assert(pairs_view(q@) =~= token_query_view(totp@, version));
    q
}

/// The query of a token request made with `secret` at Unix time `now_secs`.
pub fn token_request_query(secret: &TotpSecret, now_secs: u64) -> (r: Result<
    Vec<(String, String)>,
    SpotifyError,
>)
    ensures
        r is Ok <==> totp_key_bytes(secret.bytes@).len() >= 16,
        r matches Ok(q) ==> pairs_view(q@) == token_query_view(
            totp_sha1_code(totp_key_bytes(secret.bytes@), now_secs),
            secret.version,
        ),
        r is Ok ==> is_totp_code(totp_sha1_code(totp_key_bytes(secret.bytes@), now_secs)),
        r matches Err(e) ==> e is Authentication,
{
    let totp = secret_totp(secret, now_secs)?;
    Ok(token_query(totp, secret.version))
}

#[verifier::external_type_specification]
#[verifier::external_body]
pub struct ExSystemTime(std::time::SystemTime);

#[verifier::external_type_specification]
#[verifier::external_body]
pub struct ExSystemTimeError(std::time::SystemTimeError);

/// `SystemTime::now`. Nothing is claimed of the clock's reading.
#[verifier::external_body]
fn system_now() -> std::time::SystemTime {
    std::time::SystemTime::now()
}

/// `SystemTime::duration_since(UNIX_EPOCH)`. Nothing is claimed: whether it
/// fails depends on the clock.
#[verifier::external_body]
fn since_unix_epoch(t: &std::time::SystemTime) -> Result<
    std::time::Duration,
    std::time::SystemTimeError,
> {
    t.duration_since(std::time::UNIX_EPOCH)
}

/// `Duration::as_secs`. Nothing is claimed of a duration that Verus cannot
/// look into.
#[verifier::external_body]
fn whole_seconds(d: &std::time::Duration) -> u64 {
    d.as_secs()
}

/// `Duration::as_millis`. Nothing is claimed of a duration that Verus cannot
/// look into.
#[verifier::external_body]
fn whole_millis(d: &std::time::Duration) -> u128 {
    d.as_millis()
}

/// The current Unix time in seconds; a clock before 1970 is an
/// authentication failure. The value is the system clock's reading, which no
/// clause can state; its text on failure is the clock error's.
pub fn unix_seconds() -> (r: Result<u64, SpotifyError>)
    ensures
        r matches Err(e) ==> e is Authentication,
{
    match since_unix_epoch(&system_now()) {
        Ok(d) => Ok(whole_seconds(&d)),
        Err(e) => Err(SpotifyError::Authentication(e.to_string())),
    }
}

/// A millisecond count as a `u64`, when it fits.
pub fn millis_as_u64(millis: u128) -> (r: Option<u64>)
    ensures
        r is Some <==> millis <= u64::MAX,
        r matches Some(m) ==> m == millis,
{
    if millis <= u64::MAX as u128 {
        Some(millis as u64)
    } else {
        None
    }
}

/// The current Unix time in milliseconds, when the clock is past 1970 and the
/// count fits in a `u64`. Whether there is a value, and which, follows the
/// system clock, which no clause can state; `millis_as_u64` holds the
/// conversion with an exact contract.
pub fn unix_milliseconds() -> Option<u64> {
    match since_unix_epoch(&system_now()) {
        Ok(d) => millis_as_u64(whole_millis(&d)),
        Err(_) => None,
    }
}

/// How long before its expiry a token is no longer used: 30 seconds.
pub const TOKEN_REFRESH_SKEW_MS: u64 = 30_000;

/// An access token with the Unix time in milliseconds at which it expires.
#[derive(Clone, Debug)]
pub struct CachedToken {
    pub value: String,
    pub expires_at_ms: u64,
}

/// A token is still used when the clock can be read and it expires more than
/// 30 seconds after now.
pub open spec fn token_fresh(expires_at_ms: u64, now_ms: Option<u64>) -> bool {
    now_ms matches Some(now) && now + TOKEN_REFRESH_SKEW_MS < expires_at_ms
}

/// Whether `token` can still be used at `now_ms`.
pub fn token_is_valid_at(token: &CachedToken, now_ms: Option<u64>) -> (r: bool)
    ensures
        r == token_fresh(token.expires_at_ms, now_ms),
{
    match now_ms {
        Some(now) => now < token.expires_at_ms && token.expires_at_ms - now > TOKEN_REFRESH_SKEW_MS,
        None => false,
    }
}

/// Whether `token` can still be used now: `token_is_valid_at` with the
/// clock's reading, which no clause can state; what holds of every reading is
/// stated.
pub fn token_is_valid(token: &CachedToken) -> (r: bool)
    ensures
        r ==> token.expires_at_ms > TOKEN_REFRESH_SKEW_MS,
{
    token_is_valid_at(token, unix_milliseconds())
}

/// The next thing to do on the way to an access token.
#[derive(Debug)]
pub enum TokenStep {
    /// Use this token, which the cache holds.
    Ready(String),
    /// Ask the token endpoint, forcing a fresh catalog read when `true`.
    Request(bool),
    /// The endpoint gave this token: cache it and use it.
    Store(CachedToken),
    /// No token can be had.
    Fail(SpotifyError),
}

/// The first step towards a token: the cached one while it is fresh, unless
/// a catalog refresh is forced; else a request.
pub open spec fn token_lookup_start(
    force_catalog_refresh: bool,
    cached: Option<CachedToken>,
    now_ms: Option<u64>,
) -> TokenStep {
    match cached {
        Some(t) => if !force_catalog_refresh && token_fresh(t.expires_at_ms, now_ms) {
            TokenStep::Ready(t.value)
        } else {
            TokenStep::Request(force_catalog_refresh)
        },
        None => TokenStep::Request(force_catalog_refresh),
    }
}

/// Starts a token lookup with the cache as it stands at `now_ms`.
pub fn begin_token_lookup(force_catalog_refresh: bool, cached: &Option<CachedToken>, now_ms: Option<
    u64,
>) -> (r: TokenStep)
    ensures
        r == token_lookup_start(force_catalog_refresh, *cached, now_ms),
{
    match cached {
        Some(t) => {
            if !force_catalog_refresh && token_is_valid_at(t, now_ms) {
                TokenStep::Ready(t.value.clone())
            } else {
                TokenStep::Request(force_catalog_refresh)
            }
        },
        None => TokenStep::Request(force_catalog_refresh),
    }
}

/// After Spotify refused `failed_token`: a fresh cached token other than it
/// (another caller refreshed it meanwhile), or a request with a fresh catalog.
pub open spec fn refresh_start(cached: Option<CachedToken>, failed_token: Seq<char>, now_ms: Option<
    u64,
>) -> TokenStep {
    match cached {
        Some(t) => if t.value@ != failed_token && token_fresh(t.expires_at_ms, now_ms) {
            TokenStep::Ready(t.value)
        } else {
            TokenStep::Request(true)
        },
        None => TokenStep::Request(true),
    }
}

/// Starts the refresh of a token that Spotify refused.
pub fn begin_refresh_after_unauthorized(
    cached: &Option<CachedToken>,
    failed_token: &str,
    now_ms: Option<u64>,
) -> (r: TokenStep)
    ensures
        r == refresh_start(*cached, failed_token@, now_ms),
{
    match cached {
        Some(t) => {
            let failed = String::from_str(failed_token);
            if !(t.value == failed) && token_is_valid_at(t, now_ms) {
                TokenStep::Ready(t.value.clone())
            } else {
                TokenStep::Request(true)
            }
        },
        None => TokenStep::Request(true),
    }
}

/// What follows a token request that `forced` a catalog refresh or not: an
/// authentication failure without it is tried once more with it; a token is
/// stored; any other failure ends the lookup.
pub open spec fn token_request_outcome(forced: bool, result: Result<CachedToken, SpotifyError>) -> TokenStep {
    match result {
        Ok(t) => TokenStep::Store(t),
        Err(e) => if !forced && e is Authentication {
            TokenStep::Request(true)
        } else {
            TokenStep::Fail(e)
        },
    }
}

/// A lookup tries at most twice: a request that already forced a catalog
/// refresh is never followed by another request.
pub proof fn lemma_forced_request_is_final(result: Result<CachedToken, SpotifyError>)
    ensures
        !(token_request_outcome(true, result) is Request),
{
}

/// A forced catalog refresh never answers from the cached token.
pub proof fn lemma_forced_lookup_requests(cached: Option<CachedToken>, now_ms: Option<u64>)
    ensures
        token_lookup_start(true, cached, now_ms) == TokenStep::Request(true),
{
}

/// A refresh after Spotify refused a token never hands that token back.
pub proof fn lemma_refresh_never_returns_refused(
    cached: Option<CachedToken>,
    failed_token: Seq<char>,
    now_ms: Option<u64>,
)
    ensures
        refresh_start(cached, failed_token, now_ms) matches TokenStep::Ready(t) ==> t@ != failed_token,
{
}

/// Decides what follows a token request.
pub fn after_token_request(forced: bool, result: Result<CachedToken, SpotifyError>) -> (r: TokenStep)
    ensures
        r == token_request_outcome(forced, result),
{
    match result {
        Ok(t) => TokenStep::Store(t),
        Err(e) => {
            let retry = match &e {
                SpotifyError::Authentication(_) => !forced,
                _ => false,
            };
            if retry {
                TokenStep::Request(true)
            } else {
                TokenStep::Fail(e)
            }
        },
    }
}

/// Spotify's answer at the token endpoint once it has been read as JSON.
#[derive(Debug)]
pub struct TokenResponse {
    pub access_token: String,
    pub access_token_expiration_timestamp_ms: u64,
    pub is_anonymous: bool,
}

/// The status of the token endpoint's answer: 429 is a rate limit, any other
/// unsuccessful status an authentication failure that names it.
pub fn check_token_status(status: u16, status_text: &str, retry_after: Option<String>) -> (r: Result<
    (),
    SpotifyError,
>)
    ensures
        r is Ok <==> 200 <= status <= 299,
        status == 429 ==> r == Err::<(), SpotifyError>(SpotifyError::RateLimited(retry_after)),
        status != 429 && !(200 <= status <= 299) ==> (r matches Err(e) && e@
            == SpotifyErrorView::Authentication("token endpoint returned "@ + status_text@)),
{
    if status == 429 {
        return Err(SpotifyError::RateLimited(retry_after));
    }
    if !(200 <= status && status <= 299) {
        let mut message = String::from_str("token endpoint returned ");
        message.append(status_text);
        return Err(SpotifyError::Authentication(message));
    }
    Ok(())
}

/// The token in the endpoint's answer; a body that is not the expected JSON
/// (`Err` with the reason) and an anonymous or empty token are
/// authentication failures.
pub fn token_from_body(body: Result<TokenResponse, String>) -> (r: Result<CachedToken, SpotifyError>)
    ensures
        match body {
            Err(reason) => r matches Err(e) && e@ == SpotifyErrorView::Authentication(
                "invalid token response: "@ + reason@,
            ),
            Ok(b) => if b.is_anonymous || b.access_token@.len() == 0 {
                r matches Err(e) && e@ == SpotifyErrorView::Authentication(
                    "Spotify returned an anonymous or empty token; SP_DC is invalid"@,
                )
            } else {
                r matches Ok(t) && t.value == b.access_token && t.expires_at_ms
                    == b.access_token_expiration_timestamp_ms
            },
        },
{
    match body {
        Err(reason) => {
            let mut message = String::from_str("invalid token response: ");
            message.append(reason.as_str());
            Err(SpotifyError::Authentication(message))
        },
        Ok(b) => {
            if b.is_anonymous || b.access_token.as_str().is_empty() {
                Err(
                    SpotifyError::Authentication(
                        String::from_str(
                            "Spotify returned an anonymous or empty token; SP_DC is invalid",
                        ),
                    ),
                )
            } else {
                Ok(
                    CachedToken {
                        value: b.access_token,
                        expires_at_ms: b.access_token_expiration_timestamp_ms,
                    },
                )
            }
        },
    }
}

} // verus!

use vstd::prelude::*;

use crate::errors::Errors;

verus! {

// ---------------------------------------------------------------------------
// Resource identifiers
// ---------------------------------------------------------------------------

/// The two resource kinds the pipeline supports. A source string naming any
/// other kind (artist, album, show, ...) is rejected by the resolver.
#[derive(Debug, Clone, Copy, PartialEq, Eq, Structural)]
pub enum ResourceKind {
    Track,
    Playlist,
}

/// A validated resource identifier: the kind together with the numeric value
/// of its 22-character base62 identifier. Values of this type exist only as
/// the result of a successful parse.
#[derive(Debug, Clone, Copy, PartialEq, Eq, Structural)]
pub struct ResourceId {
    pub kind: ResourceKind,
    pub id: u128,
}

// ---------------------------------------------------------------------------
// Base62 identifiers
// ---------------------------------------------------------------------------

/// ASCII '0'
pub const DIGIT_LO: u8 = 48;

/// ASCII '9'
pub const DIGIT_HI: u8 = 57;

/// ASCII 'a'
pub const LOWER_LO: u8 = 97;

/// ASCII 'z'
pub const LOWER_HI: u8 = 122;

/// ASCII 'A'
pub const UPPER_LO: u8 = 65;

/// ASCII 'Z'
pub const UPPER_HI: u8 = 90;

pub open spec fn is_b62_byte(b: u8) -> bool {
    (DIGIT_LO <= b && b <= DIGIT_HI) || (LOWER_LO <= b && b <= LOWER_HI) || (UPPER_LO <= b
        && b <= UPPER_HI)
}

pub open spec fn b62_byte_val(b: u8) -> nat {
    if DIGIT_LO <= b && b <= DIGIT_HI {
        (b - DIGIT_LO) as nat
    } else if LOWER_LO <= b && b <= LOWER_HI {
        (b - LOWER_LO + 10) as nat
    } else {
        (b - UPPER_LO + 36) as nat
    }
}

/// Numeric value of a base62 digit string, most significant digit first.
pub open spec fn b62_val(s: Seq<u8>) -> nat
    decreases s.len(),
{
    if s.len() == 0 {
        0
    } else {
        b62_val(s.drop_last()) * 62 + b62_byte_val(s.last())
    }
}

/// A well-formed identifier segment: exactly 22 base62 characters whose
/// value fits in 128 bits.
pub open spec fn valid_id_bytes(s: Seq<u8>) -> bool {
    &&& s.len() == 22
    &&& forall|i: int| 0 <= i < s.len() ==> is_b62_byte(#[trigger] s[i])
    &&& b62_val(s) <= u128::MAX as nat
}

/// The value of a prefix never exceeds the value of the whole digit string.
proof fn lemma_b62_prefix_le(s: Seq<u8>, i: int)
    requires
        0 <= i <= s.len(),
    ensures
        b62_val(s.take(i)) <= b62_val(s),
    decreases s.len() - i,
{
    if i < s.len() {
        lemma_b62_prefix_le(s, i + 1);
        assert(s.take(i + 1).drop_last() =~= s.take(i));
        let p = b62_val(s.take(i));
        assert(p * 62 >= p) by (nonlinear_arith)
            requires p >= 0;
    } else {
        assert(s.take(i) =~= s);
    }
}

/// Parses `v[start..end]` as a 22-character base62 identifier, as the
/// canonical identifier grammar demands: `None` exactly on malformed or
/// overflowing segments.
pub fn parse_base62(v: &Vec<u8>, start: usize, end: usize) -> (r: Option<u128>)
    requires
        start <= end <= v@.len(),
    ensures
        match r {
            Some(x) => valid_id_bytes(v@.subrange(start as int, end as int)) && x as nat
                == b62_val(v@.subrange(start as int, end as int)),
            None => !valid_id_bytes(v@.subrange(start as int, end as int)),
        },
{
    let ghost seg = v@.subrange(start as int, end as int);
    if end - start != 22 {
        return None;
    }
    let mut dst: u128 = 0;
    let mut i: usize = 0;
    while i < 22
        invariant
            start + 22 == end <= v@.len(),
            0 <= i <= 22,
            seg == v@.subrange(start as int, end as int),
            seg.len() == 22,
            forall|j: int| 0 <= j < i ==> is_b62_byte(#[trigger] seg[j]),
            dst as nat == b62_val(seg.take(i as int)),
        decreases 22 - i,
    {
        let b = v[start + i];
        assert(b == seg[i as int]);
        let p: u128 = if DIGIT_LO <= b && b <= DIGIT_HI {
            (b - DIGIT_LO) as u128
        } else if LOWER_LO <= b && b <= LOWER_HI {
            (b - LOWER_LO + 10) as u128
        } else if UPPER_LO <= b && b <= UPPER_HI {
            (b - UPPER_LO + 36) as u128
        } else {
            return None;
        };
        assert(p as nat == b62_byte_val(b));
        proof {
            assert(seg.take(i + 1).drop_last() =~= seg.take(i as int));
            assert(seg.take(i + 1).last() == seg[i as int]);
        }
        let next = match dst.checked_mul(62) {
            Some(m) => match m.checked_add(p) {
                Some(n) => n,
                None => {
                    proof {
                        lemma_b62_prefix_le(seg, i + 1);
                    }
                    return None;
                },
            },
            None => {
                proof {
                    assert(dst as nat * 62 + p as nat > u128::MAX as nat);
                    lemma_b62_prefix_le(seg, i + 1);
                }
                return None;
            },
        };
        dst = next;
        i = i + 1;
    }
    proof {
        assert(seg.take(22) =~= seg);
    }
    Some(dst)
}

// ---------------------------------------------------------------------------
// Base62 encoding: the normalized identifier string
// ---------------------------------------------------------------------------

/// The byte for one base62 digit: digits, then lower case, then upper case.
pub open spec fn b62_digit_byte(m: nat) -> u8 {
    if m < 10 {
        (DIGIT_LO + m) as u8
    } else if m < 36 {
        (LOWER_LO + (m - 10)) as u8
    } else {
        (UPPER_LO + (m - 36)) as u8
    }
}

/// The `k` least significant base62 digits of `n`, most significant first.
pub open spec fn b62_enc(n: nat, k: nat) -> Seq<u8>
    decreases k,
{
    if k == 0 {
        Seq::empty()
    } else {
        b62_enc(n / 62, (k - 1) as nat).push(b62_digit_byte(n % 62))
    }
}

/// Powers of 62.
pub open spec fn pow62(k: nat) -> nat
    decreases k,
{
    if k == 0 {
        1
    } else {
        62 * pow62((k - 1) as nat)
    }
}

/// Encoding yields well-formed digits, and decoding them gives the value
/// back: the encoded string is the normalized form of the identifier.
pub proof fn lemma_b62_enc_round_trip(n: nat, k: nat)
    requires
        n < pow62(k),
    ensures
        b62_enc(n, k).len() == k,
        forall|j: int| 0 <= j < k ==> is_b62_byte(#[trigger] b62_enc(n, k)[j]),
        b62_val(b62_enc(n, k)) == n,
    decreases k,
{
    if k == 0 {
    } else {
        let q = n / 62;
        let m = n % 62;
        assert(n == 62 * q + m);
        assert(q < pow62((k - 1) as nat)) by (nonlinear_arith)
            requires
                n == 62 * q + m,
                m >= 0,
                n < 62 * pow62((k - 1) as nat),
        ;
        lemma_b62_enc_round_trip(q, (k - 1) as nat);
        let s = b62_enc(q, (k - 1) as nat);
        assert(b62_enc(n, k) == s.push(b62_digit_byte(m)));
        assert(is_b62_byte(b62_digit_byte(m)));
        assert(b62_byte_val(b62_digit_byte(m)) == m);
        assert(s.push(b62_digit_byte(m)).drop_last() =~= s);
        assert(b62_val(b62_enc(n, k)) == b62_val(s) * 62 + m);
    }
}

/// Every 128-bit value has a 22-digit base62 form.
pub proof fn lemma_pow62_22_covers_u128()
    ensures
        pow62(22) > u128::MAX as nat,
{
    reveal_with_fuel(pow62, 23);
    assert(pow62(22) == 2707803647802660400290261537185326956544);
}

fn b62_digit_byte_exec(m: u8) -> (r: u8)
    requires
        m < 62,
    ensures
        r == b62_digit_byte(m as nat),
{
    if m < 10 {
        DIGIT_LO + m
    } else if m < 36 {
        LOWER_LO + (m - 10)
    } else {
        UPPER_LO + (m - 36)
    }
}

fn b62_enc_exec(n: u128, k: usize) -> (r: Vec<u8>)
    ensures
        r@ == b62_enc(n as nat, k as nat),
    decreases k,
{
    if k == 0 {
        Vec::new()
    } else {
        let mut r = b62_enc_exec(n / 62, k - 1);
        let m = (n % 62) as u8;
        r.push(b62_digit_byte_exec(m));
        r
    }
}

impl ResourceId {
    /// The canonical identifier string, as bytes: `spotify:{kind}:{id}`
    /// with the identifier in its normalized 22-digit base62 form.
    pub open spec fn canonical_bytes(self) -> Seq<u8> {
        canonical_form(
            if self.kind == ResourceKind::Track {
                kw_track()
            } else {
                kw_playlist()
            },
            b62_enc(self.id as nat, 22),
        )
    }

    /// Writes the canonical identifier string, the exact inverse of
    /// resolution.
    pub fn to_uri_bytes(&self) -> (r: Vec<u8>)
        ensures
            r@ == self.canonical_bytes(),
    {
        let mut r = kw_spotify_vec();
        r.push(COLON);
        let mut kind = match self.kind {
            ResourceKind::Track => kw_track_vec(),
            ResourceKind::Playlist => kw_playlist_vec(),
        };
        r.append(&mut kind);
        r.push(COLON);
        let mut digits = b62_enc_exec(self.id, 22);
        r.append(&mut digits);
        proof {
            assert(r@ =~= self.canonical_bytes());
        }
        r
    }
}

/// Writing an identifier out and resolving the written string gives the
/// identifier back: every identifier is its own normalized form's meaning.
pub proof fn lemma_canonical_round_trip(rid: ResourceId)
    ensures
        resolve_spec(rid.canonical_bytes()) == Ok::<ResourceId, Errors>(rid),
{
    let kind = if rid.kind == ResourceKind::Track {
        kw_track()
    } else {
        kw_playlist()
    };
    let id = b62_enc(rid.id as nat, 22);
    let c = rid.canonical_bytes();

    lemma_pow62_22_covers_u128();
    lemma_b62_enc_round_trip(rid.id as nat, 22);

    // the canonical string splits as built: no segment holds a colon
    assert(forall|j: int| 0 <= j < kind.len() ==> kind[j] != COLON);
    assert(forall|j: int| 0 <= j < id.len() ==> id[j] != COLON);
    assert(c =~= kw_spotify() + seq![COLON] + (kind + seq![COLON] + id));
    assert(forall|j: int| 0 <= j < kw_spotify().len() ==> kw_spotify()[j] != COLON);
    lemma_split_colon_prefix(kw_spotify(), kind + seq![COLON] + id);
    lemma_split_colon_prefix(kind, id);
    lemma_split_colon_single(id);
    assert(split_colon(c) =~= seq![kw_spotify(), kind, id]);

    // it is no share link: it opens with "spotify"
    assert(c[0] == 115u8);
    if starts_with(c, kw_https()) {
        assert(c.take(kw_https().len() as int)[0] == kw_https()[0]);
        assert(false);
    }
    if starts_with(c, kw_http()) {
        assert(c.take(kw_http().len() as int)[0] == kw_http()[0]);
        assert(false);
    }
    if starts_with(c, kw_www()) {
        assert(c.take(kw_www().len() as int)[0] == kw_www()[0]);
        assert(false);
    }
    if starts_with(c, share_host()) {
        assert(c.take(share_host().len() as int)[0] == share_host()[0]);
        assert(false);
    }
    assert(strip_share_head(c) is None);
    assert(share_parse(c) is None);

    assert(kind != kw_user());
    assert(canonical_kind_id(split_colon(c)) == Some((kind, id)));
    assert(valid_id_bytes(id));
}

// ---------------------------------------------------------------------------
// Segmenting a canonical identifier at its colons
// ---------------------------------------------------------------------------

/// ASCII ':'
pub const COLON: u8 = 58;

/// Index of the first colon of `s`, or `s.len()` when there is none.
pub open spec fn first_colon(s: Seq<u8>) -> nat
    decreases s.len(),
{
    if s.len() == 0 {
        0
    } else if s[0] == COLON {
        0
    } else {
        1 + first_colon(s.drop_first())
    }
}

pub proof fn lemma_first_colon(s: Seq<u8>)
    ensures
        first_colon(s) <= s.len(),
        forall|j: int| 0 <= j < first_colon(s) ==> s[j] != COLON,
        first_colon(s) < s.len() ==> s[first_colon(s) as int] == COLON,
    decreases s.len(),
{
    if s.len() != 0 && s[0] != COLON {
        lemma_first_colon(s.drop_first());
        assert forall|j: int| 0 <= j < first_colon(s) implies s[j] != COLON by {
            if j > 0 {
                assert(s.drop_first()[j - 1] != COLON);
            }
        }
    }
}

/// The first colon is at `k` when no colon stands before `k` and either a
/// colon stands at `k` or `k` is the end.
pub proof fn lemma_first_colon_at(s: Seq<u8>, k: int)
    requires
        0 <= k <= s.len(),
        forall|j: int| 0 <= j < k ==> s[j] != COLON,
        k < s.len() ==> s[k] == COLON,
    ensures
        first_colon(s) == k,
    decreases s.len(),
{
    if s.len() != 0 && s[0] != COLON {
        assert(k != 0);
        lemma_first_colon_at(s.drop_first(), k - 1);
    }
}

/// The segments of `s` between its colons, in order; the colons themselves
/// are dropped, and empty segments are kept.
pub open spec fn split_colon(s: Seq<u8>) -> Seq<Seq<u8>>
    decreases s.len(),
    via split_colon_decreases
{
    let i = first_colon(s) as int;
    if i == s.len() {
        seq![s]
    } else {
        seq![s.take(i)] + split_colon(s.skip(i + 1))
    }
}

#[via_fn]
proof fn split_colon_decreases(s: Seq<u8>) {
    lemma_first_colon(s);
}

/// Copies `v[start..end]` into a vector of its own.
pub(crate) fn subvec(v: &Vec<u8>, start: usize, end: usize) -> (r: Vec<u8>)
    requires
        start <= end <= v@.len(),
    ensures
        r@ == v@.subrange(start as int, end as int),
{
    let mut r: Vec<u8> = Vec::new();
    let mut i = start;
    while i < end
        invariant
            start <= i <= end <= v@.len(),
            r@ == v@.subrange(start as int, i as int),
        decreases end - i,
    {
        r.push(v[i]);
        proof {
            assert(v@.subrange(start as int, i + 1) =~= v@.subrange(start as int, i as int).push(
                v@[i as int],
            ));
        }
        i = i + 1;
    }
    r
}

/// Splits `v[start..]` at its colons, as `split_colon` describes.
fn split_colon_exec(v: &Vec<u8>, start: usize) -> (r: Vec<Vec<u8>>)
    requires
        start <= v@.len(),
    ensures
        r@.map_values(|seg: Vec<u8>| seg@) == split_colon(v@.skip(start as int)),
        r@.len() >= 1,
    decreases v@.len() - start,
{
    let ghost s = v@.skip(start as int);
    let mut i = start;
    while i < v.len() && v[i] != COLON
        invariant
            start <= i <= v@.len(),
            forall|j: int| start <= j < i ==> v@[j] != COLON,
        decreases v@.len() - i,
    {
        i = i + 1;
    }
    proof {
        assert forall|j: int| 0 <= j < i - start implies s[j] != COLON by {
            assert(s[j] == v@[start + j]);
        }
        if i < v@.len() {
            assert(s[i - start] == v@[i as int]);
        }
        lemma_first_colon_at(s, i - start);
    }
    let seg = subvec(v, start, i);
    proof {
        assert(seg@ =~= s.take(i - start));
    }
    if i == v.len() {
        let mut r: Vec<Vec<u8>> = Vec::new();
        r.push(seg);
        proof {
            assert(seg@ =~= s);
            assert(r@.map_values(|sg: Vec<u8>| sg@) =~= seq![s]);
        }
        r
    } else {
        let mut rest = split_colon_exec(v, i + 1);
        proof {
            assert(v@.skip(i + 1) =~= s.skip(i - start + 1));
        }
        rest.insert(0, seg);
        proof {
            assert(rest@.map_values(|sg: Vec<u8>| sg@) =~= seq![s.take(i - start)] + split_colon(
                s.skip(i - start + 1),
            ));
        }
        rest
    }
}

// ---------------------------------------------------------------------------
// Keywords of the two source syntaxes
// ---------------------------------------------------------------------------

/// "spotify"
pub open spec fn kw_spotify() -> Seq<u8> {
    seq![115u8, 112u8, 111u8, 116u8, 105u8, 102u8, 121u8]
}

/// "user"
pub open spec fn kw_user() -> Seq<u8> {
    seq![117u8, 115u8, 101u8, 114u8]
}

/// "track"
pub open spec fn kw_track() -> Seq<u8> {
    seq![116u8, 114u8, 97u8, 99u8, 107u8]
}

/// "playlist"
pub open spec fn kw_playlist() -> Seq<u8> {
    seq![112u8, 108u8, 97u8, 121u8, 108u8, 105u8, 115u8, 116u8]
}

/// "http://"
pub open spec fn kw_http() -> Seq<u8> {
    seq![104u8, 116u8, 116u8, 112u8, 58u8, 47u8, 47u8]
}

/// "https://"
pub open spec fn kw_https() -> Seq<u8> {
    seq![104u8, 116u8, 116u8, 112u8, 115u8, 58u8, 47u8, 47u8]
}

/// "www."
pub open spec fn kw_www() -> Seq<u8> {
    seq![119u8, 119u8, 119u8, 46u8]
}

/// "open.spotify.com/"
pub open spec fn share_host() -> Seq<u8> {
    seq![
        111u8,
        112u8,
        101u8,
        110u8,
        46u8,
        115u8,
        112u8,
        111u8,
        116u8,
        105u8,
        102u8,
        121u8,
        46u8,
        99u8,
        111u8,
        109u8,
        47u8,
    ]
}

// ---------------------------------------------------------------------------
// The canonical syntax: `spotify:{kind}:{id}`
// ---------------------------------------------------------------------------

/// The kind and identifier segments of a canonical identifier, read off its
/// colon segments. The named form `spotify:user:{user}:{kind}:{id}` is
/// accepted as well, with the user segment ignored; segments past the
/// identifier are ignored in either form.
pub open spec fn canonical_kind_id(parts: Seq<Seq<u8>>) -> Option<(Seq<u8>, Seq<u8>)> {
    if parts.len() >= 1 && parts[0] == kw_spotify() {
        if parts.len() >= 2 && parts[1] == kw_user() {
            if parts.len() >= 5 {
                Some((parts[3], parts[4]))
            } else {
                None
            }
        } else if parts.len() >= 3 {
            Some((parts[1], parts[2]))
        } else {
            None
        }
    } else {
        None
    }
}

/// Resolution of an extracted (kind, identifier) pair: the identifier must
/// be well formed and the kind must be one of the two supported ones;
/// anything else is rejected as invalid arguments.
pub open spec fn resolve_kind_id(kind: Seq<u8>, id: Seq<u8>) -> Result<ResourceId, Errors> {
    if !valid_id_bytes(id) {
        Err(Errors::InvalidArguments)
    } else if kind == kw_track() {
        Ok(ResourceId { kind: ResourceKind::Track, id: b62_val(id) as u128 })
    } else if kind == kw_playlist() {
        Ok(ResourceId { kind: ResourceKind::Playlist, id: b62_val(id) as u128 })
    } else {
        Err(Errors::InvalidArguments)
    }
}

// ---------------------------------------------------------------------------
// The share syntax: `https://open.spotify.com/{kind}/{id}[?query]`
// ---------------------------------------------------------------------------

/// ASCII '/'
pub const SLASH: u8 = 47;

/// ASCII '?'
pub const QMARK: u8 = 63;

/// ASCII '_'
pub const UNDERSCORE: u8 = 95;

/// A word byte of the share syntax: a letter, a digit or an underscore.
pub open spec fn is_word_byte(b: u8) -> bool {
    is_b62_byte(b) || b == UNDERSCORE
}

/// Length of the longest word prefix of `s`.
pub open spec fn word_len(s: Seq<u8>) -> nat
    decreases s.len(),
{
    if s.len() == 0 || !is_word_byte(s[0]) {
        0
    } else {
        1 + word_len(s.drop_first())
    }
}

pub proof fn lemma_word_len(s: Seq<u8>)
    ensures
        word_len(s) <= s.len(),
        forall|j: int| 0 <= j < word_len(s) ==> is_word_byte(s[j]),
        word_len(s) < s.len() ==> !is_word_byte(s[word_len(s) as int]),
    decreases s.len(),
{
    if s.len() != 0 && is_word_byte(s[0]) {
        lemma_word_len(s.drop_first());
        assert forall|j: int| 0 <= j < word_len(s) implies is_word_byte(s[j]) by {
            if j > 0 {
                assert(is_word_byte(s.drop_first()[j - 1]));
            }
        }
    }
}

pub proof fn lemma_word_len_at(s: Seq<u8>, k: int)
    requires
        0 <= k <= s.len(),
        forall|j: int| 0 <= j < k ==> is_word_byte(s[j]),
        k < s.len() ==> !is_word_byte(s[k]),
    ensures
        word_len(s) == k,
    decreases s.len(),
{
    if s.len() != 0 && is_word_byte(s[0]) {
        assert(k != 0);
        lemma_word_len_at(s.drop_first(), k - 1);
    }
}

pub open spec fn starts_with(s: Seq<u8>, p: Seq<u8>) -> bool {
    s.len() >= p.len() && s.take(p.len() as int) == p
}

/// Strips the optional scheme, the optional leading `www.` and the share
/// host from a share link, leaving the `{kind}/{id}[?query]` remainder.
pub open spec fn strip_share_head(s: Seq<u8>) -> Option<Seq<u8>> {
    let s1 = if starts_with(s, kw_https()) {
        s.skip(kw_https().len() as int)
    } else if starts_with(s, kw_http()) {
        s.skip(kw_http().len() as int)
    } else {
        s
    };
    let s2 = if starts_with(s1, kw_www()) {
        s1.skip(kw_www().len() as int)
    } else {
        s1
    };
    if starts_with(s2, share_host()) {
        Some(s2.skip(share_host().len() as int))
    } else {
        None
    }
}

/// The kind and identifier words of a share link, when the whole string has
/// the share form: head, a nonempty kind word, a slash, a nonempty
/// identifier word, and nothing more but an optional nonempty query.
pub open spec fn share_parse(s: Seq<u8>) -> Option<(Seq<u8>, Seq<u8>)> {
    match strip_share_head(s) {
        None => None,
        Some(r) => {
            let kl = word_len(r) as int;
            if kl == 0 || kl >= r.len() || r[kl] != SLASH {
                None
            } else {
                let r2 = r.skip(kl + 1);
                let il = word_len(r2) as int;
                if il == 0 {
                    None
                } else {
                    let rest = r2.skip(il);
                    if rest.len() == 0 || (rest[0] == QMARK && rest.len() >= 2) {
                        Some((r.take(kl), r2.take(il)))
                    } else {
                        None
                    }
                }
            }
        },
    }
}

/// What the resolver makes of a source string, as bytes: a share link is
/// rewritten into the canonical form; the canonical form is then parsed and
/// restricted to the supported kinds. Everything else is invalid arguments.
pub open spec fn resolve_spec(s: Seq<u8>) -> Result<ResourceId, Errors> {
    match share_parse(s) {
        Some((k, id)) => resolve_kind_id(k, id),
        None => match canonical_kind_id(split_colon(s)) {
            Some((k, id)) => resolve_kind_id(k, id),
            None => Err(Errors::InvalidArguments),
        },
    }
}

// ---------------------------------------------------------------------------
// Executable resolution
// ---------------------------------------------------------------------------

fn kw_spotify_vec() -> (v: Vec<u8>)
    ensures
        v@ == kw_spotify(),
{
    let v = vec![115u8, 112u8, 111u8, 116u8, 105u8, 102u8, 121u8];
    proof {
        assert(v@ =~= kw_spotify());
    }
    v
}

fn kw_user_vec() -> (v: Vec<u8>)
    ensures
        v@ == kw_user(),
{
    let v = vec![117u8, 115u8, 101u8, 114u8];
    proof {
        assert(v@ =~= kw_user());
    }
    v
}

fn kw_track_vec() -> (v: Vec<u8>)
    ensures
        v@ == kw_track(),
{
    let v = vec![116u8, 114u8, 97u8, 99u8, 107u8];
    proof {
        assert(v@ =~= kw_track());
    }
    v
}

fn kw_playlist_vec() -> (v: Vec<u8>)
    ensures
        v@ == kw_playlist(),
{
    let v = vec![112u8, 108u8, 97u8, 121u8, 108u8, 105u8, 115u8, 116u8];
    proof {
        assert(v@ =~= kw_playlist());
    }
    v
}

fn kw_http_vec() -> (v: Vec<u8>)
    ensures
        v@ == kw_http(),
{
    let v = vec![104u8, 116u8, 116u8, 112u8, 58u8, 47u8, 47u8];
    proof {
        assert(v@ =~= kw_http());
    }
    v
}

fn kw_https_vec() -> (v: Vec<u8>)
    ensures
        v@ == kw_https(),
{
    let v = vec![104u8, 116u8, 116u8, 112u8, 115u8, 58u8, 47u8, 47u8];
    proof {
        assert(v@ =~= kw_https());
    }
    v
}

fn kw_www_vec() -> (v: Vec<u8>)
    ensures
        v@ == kw_www(),
{
    let v = vec![119u8, 119u8, 119u8, 46u8];
    proof {
        assert(v@ =~= kw_www());
    }
    v
}

fn share_host_vec() -> (v: Vec<u8>)
    ensures
        v@ == share_host(),
{
    let v = vec![
        111u8, 112u8, 101u8, 110u8, 46u8, 115u8, 112u8, 111u8, 116u8, 105u8, 102u8, 121u8, 46u8,
        99u8, 111u8, 109u8, 47u8,
    ];
    proof {
        assert(v@ =~= share_host());
    }
    v
}

fn bytes_eq(a: &Vec<u8>, b: &Vec<u8>) -> (r: bool)
    ensures
        r == (a@ == b@),
{
    if a.len() != b.len() {
        return false;
    }
    let mut i: usize = 0;
    while i < a.len()
        invariant
            0 <= i <= a@.len(),
            a@.len() == b@.len(),
            forall|j: int| 0 <= j < i ==> a@[j] == b@[j],
        decreases a@.len() - i,
    {
        if a[i] != b[i] {
            return false;
        }
        i = i + 1;
    }
    proof {
        assert(a@ =~= b@);
    }
    true
}

fn starts_with_exec(v: &Vec<u8>, at: usize, kw: &Vec<u8>) -> (r: bool)
    requires
        at <= v@.len(),
    ensures
        r == starts_with(v@.skip(at as int), kw@),
{
    if v.len() - at < kw.len() {
        return false;
    }
    let ghost s = v@.skip(at as int);
    let mut i: usize = 0;
    while i < kw.len()
        invariant
            0 <= i <= kw@.len(),
            at + kw@.len() <= v@.len(),
            v@.len() <= usize::MAX,
            s == v@.skip(at as int),
            forall|j: int| 0 <= j < i ==> s[j] == kw@[j],
        decreases kw@.len() - i,
    {
        assert(at + i < v@.len());
        let idx = at + i;
        if v[idx] != kw[i] {
            proof {
                assert(s[i as int] == v@[at + i]);
            }
            return false;
        }
        proof {
            assert(s[i as int] == v@[at + i]);
        }
        i = i + 1;
    }
    proof {
        assert(s.take(kw@.len() as int) =~= kw@);
    }
    true
}

fn is_word_byte_exec(b: u8) -> (r: bool)
    ensures
        r == is_word_byte(b),
{
    (DIGIT_LO <= b && b <= DIGIT_HI) || (LOWER_LO <= b && b <= LOWER_HI) || (UPPER_LO <= b && b
        <= UPPER_HI) || b == UNDERSCORE
}

/// First position at or after `start` whose byte is not a word byte.
fn word_end(v: &Vec<u8>, start: usize) -> (r: usize)
    requires
        start <= v@.len(),
    ensures
        start <= r <= v@.len(),
        r - start == word_len(v@.skip(start as int)),
{
    let ghost s = v@.skip(start as int);
    let mut i = start;
    while i < v.len() && is_word_byte_exec(v[i])
        invariant
            start <= i <= v@.len(),
            forall|j: int| start <= j < i ==> is_word_byte(v@[j]),
        decreases v@.len() - i,
    {
        i = i + 1;
    }
    proof {
        assert forall|j: int| 0 <= j < i - start implies is_word_byte(s[j]) by {
            assert(s[j] == v@[start + j]);
        }
        if i < v@.len() {
            assert(s[i - start] == v@[i as int]);
        }
        lemma_word_len_at(s, i - start);
    }
    i
}

/// Strips the scheme, the optional `www.` and the host from a share link,
/// returning the offset of the remainder.
fn share_strip_head_exec(v: &Vec<u8>) -> (r: Option<usize>)
    ensures
        match r {
            Some(at) => at <= v@.len() && strip_share_head(v@) == Some(v@.skip(at as int)),
            None => strip_share_head(v@) is None,
        },
{
    let https = kw_https_vec();
    let http = kw_http_vec();
    let www = kw_www_vec();
    let host = share_host_vec();

    let mut at: usize = 0;
    if starts_with_exec(v, 0, &https) {
        at = https.len();
    } else if starts_with_exec(v, 0, &http) {
        at = http.len();
    }
    proof {
        assert(v@.skip(0) =~= v@);
        assert(v@.skip(at as int) =~= if starts_with(v@, kw_https()) {
            v@.skip(kw_https().len() as int)
        } else if starts_with(v@, kw_http()) {
            v@.skip(kw_http().len() as int)
        } else {
            v@
        });
    }
    let ghost s1 = v@.skip(at as int);
    if starts_with_exec(v, at, &www) {
        at = at + www.len();
        proof {
            assert(v@.skip(at as int) =~= s1.skip(kw_www().len() as int));
        }
    }
    let ghost s2 = if starts_with(s1, kw_www()) {
        s1.skip(kw_www().len() as int)
    } else {
        s1
    };
    proof {
        assert(v@.skip(at as int) =~= s2);
    }
    if !starts_with_exec(v, at, &host) {
        return None;
    }
    let r = at + host.len();
    proof {
        assert(v@.skip(r as int) =~= s2.skip(share_host().len() as int));
    }
    Some(r)
}

/// Reads the kind and identifier words out of a share link; `None` when the
/// string does not have the share form.
fn share_parse_exec(v: &Vec<u8>) -> (r: Option<(Vec<u8>, Vec<u8>)>)
    ensures
        match r {
            Some(p) => share_parse(v@) == Some((p.0@, p.1@)),
            None => share_parse(v@) is None,
        },
{
    let at = match share_strip_head_exec(v) {
        Some(at) => at,
        None => {
            return None;
        },
    };
    let ghost rem = v@.skip(at as int);

    // kind word, then a slash
    let ks = at;
    let ke = word_end(v, ks);
    proof {
        assert(rem == v@.skip(ks as int));
    }
    if ke == ks {
        return None;
    }
    if ke == v.len() {
        return None;
    }
    proof {
        assert(rem[(ke - ks) as int] == v@[ke as int]);
    }
    if v[ke] != SLASH {
        return None;
    }

    // identifier word
    let is_ = ke + 1;
    proof {
        assert(v@.skip(is_ as int) =~= rem.skip(ke - ks + 1));
    }
    let ghost rem2 = rem.skip(ke - ks + 1);
    let ie = word_end(v, is_);
    if ie == is_ {
        return None;
    }

    // nothing may follow but an optional nonempty query
    proof {
        assert(v@.skip(ie as int) =~= rem2.skip(ie - is_));
        if ie < v@.len() {
            assert(rem2.skip(ie - is_)[0] == v@[ie as int]);
        }
    }
    if ie != v.len() {
        if v[ie] != QMARK {
            return None;
        }
        if v.len() - ie < 2 {
            return None;
        }
    }

    let kind = subvec(v, ks, ke);
    let id = subvec(v, is_, ie);
    proof {
        assert(kind@ =~= rem.take(ke - ks));
        assert(id@ =~= rem2.take(ie - is_));
    }
    Some((kind, id))
}

/// Resolution of an extracted (kind, identifier) pair.
fn resolve_kind_id_exec(kind: &Vec<u8>, id: &Vec<u8>) -> (r: Result<ResourceId, Errors>)
    ensures
        r == resolve_kind_id(kind@, id@),
{
    proof {
        assert(id@.subrange(0, id@.len() as int) =~= id@);
    }
    match parse_base62(id, 0, id.len()) {
        Some(x) => {
            if bytes_eq(kind, &kw_track_vec()) {
                Ok(ResourceId { kind: ResourceKind::Track, id: x })
            } else if bytes_eq(kind, &kw_playlist_vec()) {
                Ok(ResourceId { kind: ResourceKind::Playlist, id: x })
            } else {
                Err(Errors::InvalidArguments)
            }
        },
        None => Err(Errors::InvalidArguments),
    }
}

/// Resolves a source string, given as bytes, into a supported resource
/// identifier, exactly as `resolve_spec` describes.
pub fn resolve_source(v: &Vec<u8>) -> (r: Result<ResourceId, Errors>)
    ensures
        r == resolve_spec(v@),
{
    match share_parse_exec(v) {
        Some(p) => resolve_kind_id_exec(&p.0, &p.1),
        None => {
            let parts = split_colon_exec(v, 0);
            proof {
                assert(v@.skip(0) =~= v@);
            }
            let ghost sparts = split_colon(v@);
            proof {
                assert(parts@.map_values(|seg: Vec<u8>| seg@) == sparts);
                assert(parts@.len() == sparts.len());
            }
            let spotify = kw_spotify_vec();
            let user = kw_user_vec();
            proof {
                assert forall|j: int| 0 <= j < parts@.len() implies #[trigger] parts@[j]@
                    == sparts[j] by {
                    assert(parts@.map_values(|seg: Vec<u8>| seg@)[j] == parts@[j]@);
                }
            }
            if bytes_eq(&parts[0], &spotify) {
                if parts.len() >= 2 && bytes_eq(&parts[1], &user) {
                    if parts.len() >= 5 {
                        resolve_kind_id_exec(&parts[3], &parts[4])
                    } else {
                        Err(Errors::InvalidArguments)
                    }
                } else if parts.len() >= 3 {
                    resolve_kind_id_exec(&parts[1], &parts[2])
                } else {
                    Err(Errors::InvalidArguments)
                }
            } else {
                Err(Errors::InvalidArguments)
            }
        },
    }
}

// ---------------------------------------------------------------------------
// Laws of the resolver
// ---------------------------------------------------------------------------

/// The canonical string for a kind and an identifier: `spotify:{kind}:{id}`.
pub open spec fn canonical_form(k: Seq<u8>, id: Seq<u8>) -> Seq<u8> {
    kw_spotify() + seq![COLON] + k + seq![COLON] + id
}

/// The kind and identifier named by a source string, under whichever of the
/// two syntaxes it matches, if any.
pub open spec fn source_kind_id(s: Seq<u8>) -> Option<(Seq<u8>, Seq<u8>)> {
    match share_parse(s) {
        Some(p) => Some(p),
        None => canonical_kind_id(split_colon(s)),
    }
}

/// The kind and identifier words of a share link are nonempty and made of
/// word bytes only.
proof fn lemma_share_parse_words(s: Seq<u8>, k: Seq<u8>, id: Seq<u8>)
    requires
        share_parse(s) == Some((k, id)),
    ensures
        k.len() > 0,
        id.len() > 0,
        forall|j: int| 0 <= j < k.len() ==> is_word_byte(#[trigger] k[j]),
        forall|j: int| 0 <= j < id.len() ==> is_word_byte(#[trigger] id[j]),
{
    let r = strip_share_head(s)->Some_0;
    let kl = word_len(r) as int;
    let r2 = r.skip(kl + 1);
    let il = word_len(r2) as int;
    lemma_word_len(r);
    lemma_word_len(r2);
    assert(k =~= r.take(kl));
    assert(id =~= r2.take(il));
}

/// Splitting at colons peels off a colon-free head segment.
proof fn lemma_split_colon_prefix(a: Seq<u8>, b: Seq<u8>)
    requires
        forall|j: int| 0 <= j < a.len() ==> a[j] != COLON,
    ensures
        split_colon(a + seq![COLON] + b) == seq![a] + split_colon(b),
{
    let s = a + seq![COLON] + b;
    assert(s[a.len() as int] == COLON);
    lemma_first_colon_at(s, a.len() as int);
    assert(s.take(a.len() as int) =~= a);
    assert(s.skip(a.len() as int + 1) =~= b);
}

/// A colon-free string is a single segment.
proof fn lemma_split_colon_single(a: Seq<u8>)
    requires
        forall|j: int| 0 <= j < a.len() ==> a[j] != COLON,
    ensures
        split_colon(a) == seq![a],
{
    lemma_first_colon_at(a, a.len() as int);
}

/// A share link resolves exactly as the canonical string it is rewritten
/// into: the two syntaxes name the same resource the same way.
pub proof fn lemma_share_resolves_as_canonical(s: Seq<u8>, k: Seq<u8>, id: Seq<u8>)
    requires
        share_parse(s) == Some((k, id)),
    ensures
        resolve_spec(s) == resolve_spec(canonical_form(k, id)),
{
    lemma_share_parse_words(s, k, id);
    let c = canonical_form(k, id);

    // word bytes are never colons, so the canonical string splits as built
    assert(forall|j: int| 0 <= j < k.len() ==> k[j] != COLON);
    assert(forall|j: int| 0 <= j < id.len() ==> id[j] != COLON);
    assert(c =~= kw_spotify() + seq![COLON] + (k + seq![COLON] + id));
    assert(forall|j: int| 0 <= j < kw_spotify().len() ==> kw_spotify()[j] != COLON);
    lemma_split_colon_prefix(kw_spotify(), k + seq![COLON] + id);
    lemma_split_colon_prefix(k, id);
    lemma_split_colon_single(id);
    let parts = split_colon(c);
    assert(parts =~= seq![kw_spotify(), k, id]);

    // the canonical string is not a share link: it opens with "spotify"
    assert(c[0] == 115u8);
    if starts_with(c, kw_https()) {
        assert(c.take(kw_https().len() as int)[0] == kw_https()[0]);
        assert(false);
    }
    if starts_with(c, kw_http()) {
        assert(c.take(kw_http().len() as int)[0] == kw_http()[0]);
        assert(false);
    }
    if starts_with(c, kw_www()) {
        assert(c.take(kw_www().len() as int)[0] == kw_www()[0]);
        assert(false);
    }
    if starts_with(c, share_host()) {
        assert(c.take(share_host().len() as int)[0] == share_host()[0]);
        assert(false);
    }
    assert(strip_share_head(c) is None);
    assert(share_parse(c) is None);

    // both sides now resolve the same (kind, identifier) pair; a kind that
    // collides with the `user` segment marker is unsupported either way
    if k == kw_user() {
        assert(k[0] == 117u8);
        assert(k != kw_track());
        assert(k != kw_playlist());
        assert(canonical_kind_id(parts) is None);
        assert(resolve_spec(c) == Err::<ResourceId, Errors>(Errors::InvalidArguments));
        assert(resolve_kind_id(k, id) == Err::<ResourceId, Errors>(Errors::InvalidArguments));
    } else {
        assert(canonical_kind_id(parts) == Some((k, id)));
    }
}

/// Any two source strings naming the same kind and identifier, under either
/// syntax, resolve to the very same identifier.
pub proof fn lemma_resolver_normalizes(s1: Seq<u8>, s2: Seq<u8>)
    requires
        source_kind_id(s1) is Some,
        source_kind_id(s1) == source_kind_id(s2),
    ensures
        resolve_spec(s1) == resolve_spec(s2),
{
}

/// A source string that matches neither syntax, or that names an
/// unsupported kind or a malformed identifier, is rejected as invalid
/// arguments, and only such strings are; the resolver is a pure parse and
/// fetches nothing.
pub proof fn lemma_malformed_source_rejected(s: Seq<u8>)
    ensures
        source_kind_id(s) is None ==> resolve_spec(s) == Err::<ResourceId, Errors>(
            Errors::InvalidArguments,
        ),
        match source_kind_id(s) {
            Some((k, id)) => {
                &&& (!valid_id_bytes(id) ==> resolve_spec(s) == Err::<ResourceId, Errors>(
                    Errors::InvalidArguments,
                ))
                &&& (k != kw_track() && k != kw_playlist() ==> resolve_spec(s) == Err::<
                    ResourceId,
                    Errors,
                >(Errors::InvalidArguments))
                &&& (valid_id_bytes(id) && (k == kw_track() || k == kw_playlist())
                    ==> resolve_spec(s) is Ok)
            },
            None => true,
        },
{
}

// ---------------------------------------------------------------------------
// The command line surface
// ---------------------------------------------------------------------------

/// The run's arguments: the source string naming a track or playlist, the
/// output directory (the current directory when absent), and the pacing
/// interval in milliseconds.
pub struct Args {
    pub source: String,
    pub path: Option<String>,
    pub timeout: u64,
}

impl Args {
    /// Resolves the source string into a supported resource identifier.
    /// Purely a parse: nothing is fetched, and a malformed string or an
    /// unsupported kind is rejected as invalid arguments.
    pub fn get_source(&self) -> (r: Result<ResourceId, Errors>)
        ensures
            r == resolve_spec(vstd::utf8::encode_utf8(self.source@)),
    {
        let bytes = self.source.as_str().as_bytes_vec();
        resolve_source(&bytes)
    }
}

} // verus!

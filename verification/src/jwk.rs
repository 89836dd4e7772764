//! Identity-provider key handling: the published signing keys, the
//! configuration naming their issuer and audience, and the parsing of the
//! cache-control header that bounds how long fetched keys may be kept.

use vstd::prelude::*;

verus! {

/// Where the signing keys live and which issuer and audience a credential
/// must name.
#[derive(Debug)]
pub struct JwkConfiguration {
    pub jwk_url: String,
    pub audience: String,
    pub issuer: String,
}

/// The raw answer of the key service: the published keys.
#[derive(Debug)]
pub struct KeyResponse {
    pub keys: Vec<JwkKey>,
}

/// The published keys together with how long they may be kept, in seconds.
#[derive(Debug)]
pub struct JwkKeys {
    pub keys: Vec<JwkKey>,
    pub max_age_secs: u64,
}

/// One published signing key.
#[derive(Clone, Debug)]
pub struct JwkKey {
    pub e: String,
    pub alg: String,
    pub kty: String,
    pub kid: String,
    pub n: String,
}

/// The mathematical content of one signing key.
pub ghost struct JwkKeyView {
    pub e: Seq<char>,
    pub alg: Seq<char>,
    pub kty: Seq<char>,
    pub kid: Seq<char>,
    pub n: Seq<char>,
}

impl View for JwkKey {
    type V = JwkKeyView;

    open spec fn view(&self) -> JwkKeyView {
        JwkKeyView { e: self.e@, alg: self.alg@, kty: self.kty@, kid: self.kid@, n: self.n@ }
    }
}

impl DeepView for JwkKey {
    type V = JwkKeyView;

    open spec fn deep_view(&self) -> JwkKeyView {
        self.view()
    }
}

/// Why a credential was rejected.
#[derive(Clone, Copy, Debug, PartialEq, Eq, Structural)]
pub enum VerificationError {
    InvalidSignature,
    UnkownKeyAlgorithm,
    NoKidHeader,
    NotfoundMatchKid,
    CannotDecodePublicKeys,
}

/// Why the published keys could not be fetched or read.
#[derive(Clone, Copy, Debug, PartialEq, Eq, Structural)]
pub enum PublicKeysError {
    NoCacheControlHeader,
    MaxAgeValueEmpty,
    NonNumericMaxAge,
    NoMaxAgeSpecified,
    CannotParsePublicKey,
}

/// The whitespace characters trimmed from header pieces.
pub open spec fn is_space(c: char) -> bool {
    c == ' ' || c == '\t' || c == '\n' || c == '\r' || c == '\u{b}' || c == '\u{c}'
}

/// The input with leading whitespace removed.
pub open spec fn trim_front(s: Seq<char>) -> Seq<char>
    decreases s.len(),
{
    if s.len() > 0 && is_space(s[0]) {
        trim_front(s.drop_first())
    } else {
        s
    }
}

/// The input with trailing whitespace removed.
pub open spec fn trim_back(s: Seq<char>) -> Seq<char>
    decreases s.len(),
{
    if s.len() > 0 && is_space(s.last()) {
        trim_back(s.drop_last())
    } else {
        s
    }
}

/// The input with whitespace removed at both ends.
pub open spec fn spec_trim(s: Seq<char>) -> Seq<char> {
    trim_back(trim_front(s))
}

/// The pieces of the input split at a separator, with `cur` the piece begun
/// so far: every separator ends a piece, and the end of input ends the last,
/// so empty pieces arise between adjacent separators and at the edges.
pub open spec fn segments_from(s: Seq<char>, cur: Seq<char>, sep: char) -> Seq<Seq<char>>
    decreases s.len(),
{
    if s.len() == 0 {
        seq![cur]
    } else if s[0] == sep {
        seq![cur] + segments_from(s.drop_first(), Seq::empty(), sep)
    } else {
        segments_from(s.drop_first(), cur.push(s[0]), sep)
    }
}

/// The pieces of the input split at a separator.
pub open spec fn split_at_char(s: Seq<char>, sep: char) -> Seq<Seq<char>> {
    segments_from(s, Seq::empty(), sep)
}

/// A character's code with an ASCII capital letter taken to its small form.
pub open spec fn lower_u32(c: char) -> u32 {
    if ('A' as u32) <= (c as u32) <= ('Z' as u32) {
        ((c as u32) + 32) as u32
    } else {
        (c as u32)
    }
}

/// The directive name that bounds the cache lifetime.
pub open spec fn max_age_name() -> Seq<char> {
    seq!['m', 'a', 'x', '-', 'a', 'g', 'e']
}

/// Whether a directive key reads max-age, ignoring ASCII case.
pub open spec fn key_is_max_age(key: Seq<char>) -> bool {
    key.len() == 7 && forall|i: int|
        0 <= i < 7 ==> lower_u32(#[trigger] key[i]) == (max_age_name()[i] as u32)
}

/// The trimmed key of one directive: what stands before its first `=`.
pub open spec fn segment_key(seg: Seq<char>) -> Seq<char> {
    spec_trim(split_at_char(seg, '=')[0])
}

/// The trimmed value of one directive: what stands between its first and
/// second `=`, or nothing when it has no `=`.
pub open spec fn segment_val(seg: Seq<char>) -> Seq<char> {
    let pieces = split_at_char(seg, '=');
    if pieces.len() >= 2 {
        spec_trim(pieces[1])
    } else {
        Seq::empty()
    }
}

/// The value of the first directive whose key reads max-age, if any.
pub open spec fn find_max_age(segs: Seq<Seq<char>>) -> Option<Seq<char>>
    decreases segs.len(),
{
    if segs.len() == 0 {
        None
    } else if key_is_max_age(segment_key(segs[0])) {
        Some(segment_val(segs[0]))
    } else {
        find_max_age(segs.drop_first())
    }
}

/// Whether a character is a decimal digit.
pub open spec fn is_digit(c: char) -> bool {
    ('0' as u32) <= (c as u32) <= ('9' as u32)
}

/// The number the digit characters spell.
pub open spec fn digits_val(s: Seq<char>) -> nat
    decreases s.len(),
{
    if s.len() == 0 {
        0
    } else {
        (digits_val(s.drop_last()) * 10 + ((s.last() as u32) - ('0' as u32))) as nat
    }
}

/// The digit run of an unsigned decimal string: everything after one
/// optional leading plus sign.
pub open spec fn digit_run(s: Seq<char>) -> Seq<char> {
    if s.len() > 0 && s[0] == '+' {
        s.drop_first()
    } else {
        s
    }
}

/// Whether a character run is one or more decimal digits.
pub open spec fn all_digits(s: Seq<char>) -> bool {
    s.len() > 0 && forall|i: int| 0 <= i < s.len() ==> is_digit(#[trigger] s[i])
}

/// The number an unsigned decimal string spells: digits with one optional
/// leading plus sign, and nothing that overflows.
pub open spec fn spec_parse_u64(s: Seq<char>) -> Option<u64> {
    if all_digits(digit_run(s)) && digits_val(digit_run(s)) <= u64::MAX {
        Some(digits_val(digit_run(s)) as u64)
    } else {
        None
    }
}

/// What parsing a cache-control header yields: the value of its first
/// max-age directive in seconds, or which way it is missing or unreadable.
pub open spec fn spec_parse_max_age(s: Seq<char>) -> Result<u64, PublicKeysError> {
    match find_max_age(split_at_char(s, ',')) {
        None => Err(PublicKeysError::NoMaxAgeSpecified),
        Some(v) => match spec_parse_u64(v) {
            Some(secs) => Ok(secs),
            None => Err(PublicKeysError::NonNumericMaxAge),
        },
    }
}

/// A split yields at least the piece begun so far.
proof fn lemma_split_nonempty(s: Seq<char>, cur: Seq<char>, sep: char)
    ensures
        segments_from(s, cur, sep).len() >= 1,
    decreases s.len(),
{
    if s.len() > 0 {
        if s[0] == sep {
            lemma_split_nonempty(s.drop_first(), Seq::empty(), sep);
        } else {
            lemma_split_nonempty(s.drop_first(), cur.push(s[0]), sep);
        }
    }
}

/// A longer run of digits spells no smaller a number.
proof fn lemma_digits_val_prefix(s: Seq<char>, k: int)
    requires
        0 <= k <= s.len(),
        forall|j: int| 0 <= j < s.len() ==> is_digit(#[trigger] s[j]),
    ensures
        digits_val(s) >= digits_val(s.take(k)),
    decreases s.len() - k,
{
    if k < s.len() {
        assert(s.take(k + 1).drop_last() =~= s.take(k));
        assert(s.take(k + 1).last() == s[k]);
        assert(is_digit(s[k]));
        assert(digits_val(s.take(k + 1)) >= digits_val(s.take(k)));
        lemma_digits_val_prefix(s, k + 1);
        assert(s.take(s.len() as int) =~= s);
    } else {
        assert(s.take(k) =~= s);
    }
}

/// The characters of a string, one by one.
fn chars_of(s: &str) -> (r: Vec<char>)
    ensures
        r@ == s@,
{
    let n = s.unicode_len();
    let mut out: Vec<char> = Vec::new();
    let mut i: usize = 0;
    proof {
        assert(out@ =~= s@.take(0));
    }
    while i < n
        invariant
            i <= n,
            n == s@.len(),
            out@ == s@.take(i as int),
        decreases n - i,
    {
        let c = s.get_char(i);
        out.push(c);
        proof {
            assert(s@.take(i as int + 1) =~= s@.take(i as int).push(s@[i as int]));
        }
        i = i + 1;
    }
    proof {
        assert(s@.take(n as int) =~= s@);
    }
    out
}

/// The pieces of the input split at a separator, computed.
#[verifier::loop_isolation(false)]
fn split_exec(s: &Vec<char>, sep: char) -> (r: Vec<Vec<char>>)
    ensures
        r.deep_view() == split_at_char(s@, sep),
{
    let mut segs: Vec<Vec<char>> = Vec::new();
    let mut cur: Vec<char> = Vec::new();
    let n = s.len();
    let mut i: usize = 0;
    proof {
        assert(s@.skip(0) =~= s@);
        assert(segs.deep_view() =~~= Seq::<Seq<char>>::empty());
        assert(Seq::<Seq<char>>::empty() + segments_from(s@, cur@, sep) =~= segments_from(
            s@,
            cur@,
            sep,
        ));
    }
    while i < n
        invariant
            i <= n,
            n == s@.len(),
            split_at_char(s@, sep) == segs.deep_view() + segments_from(
                s@.skip(i as int),
                cur@,
                sep,
            ),
        decreases n - i,
    {
        proof {
            let rest = s@.skip(i as int);
            assert(rest[0] == s@[i as int]);
            assert(rest.drop_first() =~= s@.skip(i as int + 1));
        }
        let ghost segs0 = segs.deep_view();
        let ghost cur0 = cur@;
        let c = s[i];
        if c == sep {
            segs.push(cur);
            cur = Vec::new();
            proof {
                assert(segs.deep_view() =~~= segs0.push(cur0));
                assert(cur@ =~= Seq::<char>::empty());
                assert(segs0 + (seq![cur0] + segments_from(s@.skip(i as int + 1), cur@, sep))
                    =~= segs0.push(cur0) + segments_from(s@.skip(i as int + 1), cur@, sep));
            }
        } else {
            cur.push(c);
        }
        i = i + 1;
    }
    proof {
        assert(s@.skip(n as int) =~= Seq::<char>::empty());
    }
    let ghost segs1 = segs.deep_view();
    let ghost cur1 = cur@;
    segs.push(cur);
    proof {
        assert(segs.deep_view() =~~= segs1.push(cur1));
        assert(segs1 + seq![cur1] =~= segs1.push(cur1));
    }
    segs
}

/// Whether a character counts as trimmable whitespace, computed.
fn is_space_exec(c: char) -> (r: bool)
    ensures
        r == is_space(c),
{
    c == ' ' || c == '\t' || c == '\n' || c == '\r' || c == '\u{b}' || c == '\u{c}'
}

/// The input with whitespace removed at both ends, computed.
#[verifier::loop_isolation(false)]
fn trim_exec(s: &Vec<char>) -> (r: Vec<char>)
    ensures
        r@ == spec_trim(s@),
{
    let n = s.len();
    let mut start: usize = 0;
    proof {
        assert(s@.skip(0) =~= s@);
    }
    while start < n && is_space_exec(s[start])
        invariant
            start <= n,
            n == s@.len(),
            trim_front(s@) == trim_front(s@.skip(start as int)),
        decreases n - start,
    {
        proof {
            assert(s@.skip(start as int).drop_first() =~= s@.skip(start as int + 1));
        }
        start = start + 1;
    }
    proof {
        let rest = s@.skip(start as int);
        if start < n {
            assert(rest[0] == s@[start as int]);
        }
        assert(trim_front(s@) == rest);
    }
    let mut end: usize = n;
    proof {
        assert(s@.skip(start as int) =~= s@.subrange(start as int, end as int));
    }
    while end > start && is_space_exec(s[end - 1])
        invariant
            start <= end <= n,
            n == s@.len(),
            trim_back(trim_front(s@)) == trim_back(s@.subrange(start as int, end as int)),
        decreases end,
    {
        proof {
            let sub = s@.subrange(start as int, end as int);
            assert(sub.last() == s@[end - 1]);
            assert(sub.drop_last() =~= s@.subrange(start as int, end as int - 1));
        }
        end = end - 1;
    }
    proof {
        let sub = s@.subrange(start as int, end as int);
        if end > start {
            assert(sub.last() == s@[end - 1]);
        }
        assert(trim_back(sub) == sub);
    }
    vstd::slice::slice_to_vec(vstd::slice::slice_subrange(s.as_slice(), start, end))
}

/// A character's code in small form, computed.
fn lower_exec(c: char) -> (r: u32)
    ensures
        r == lower_u32(c),
{
    let u = c as u32;
    if u >= ('A' as u32) && u <= ('Z' as u32) {
        u + 32
    } else {
        u
    }
}

/// Whether a directive key reads max-age, computed.
fn key_matches_max_age(key: &Vec<char>) -> (r: bool)
    ensures
        r == key_is_max_age(key@),
{
    if key.len() != 7 {
        return false;
    }
    let m = lower_exec(key[0]) == ('m' as u32) && lower_exec(key[1]) == ('a' as u32) && lower_exec(
        key[2],
    ) == ('x' as u32) && lower_exec(key[3]) == ('-' as u32) && lower_exec(key[4]) == ('a' as u32)
        && lower_exec(key[5]) == ('g' as u32) && lower_exec(key[6]) == ('e' as u32);
    proof {
        if m {
            assert forall|i: int| 0 <= i < 7 implies lower_u32(#[trigger] key@[i]) == (
            max_age_name()[i] as u32) by {
                if i == 0 {
                } else if i == 1 {
                } else if i == 2 {
                } else if i == 3 {
                } else if i == 4 {
                } else if i == 5 {
                } else {
                }
            }
        } else {
            assert(!key_is_max_age(key@));
        }
    }
    m
}

/// The number an unsigned decimal string spells, computed; anything else —
/// an empty string, a stray character, a value past the representable
/// range — is no number.
#[verifier::loop_isolation(false)]
fn parse_u64_chars(v: &Vec<char>) -> (r: Option<u64>)
    ensures
        r == spec_parse_u64(v@),
{
    let n = v.len();
    let offset: usize = if n > 0 && v[0] == '+' {
        1
    } else {
        0
    };
    let ghost digits = digit_run(v@);
    proof {
        assert(digits =~= v@.subrange(offset as int, n as int));
    }
    if offset >= n {
        return None;
    }
    let mut acc: u64 = 0;
    let mut i: usize = offset;
    proof {
        assert(digits.take(0) =~= Seq::<char>::empty());
    }
    while i < n
        invariant
            offset <= i <= n,
            n == v@.len(),
            acc == digits_val(digits.take(i - offset)),
            forall|j: int| 0 <= j < i - offset ==> is_digit(#[trigger] digits[j]),
        decreases n - i,
    {
        let c = v[i];
        let u = c as u32;
        proof {
            assert(digits[i - offset] == v@[i as int]);
        }
        if !(u >= ('0' as u32) && u <= ('9' as u32)) {
            proof {
                assert(!is_digit(digits[i - offset]));
                assert(!all_digits(digit_run(v@)));
            }
            return None;
        }
        let d = (u - ('0' as u32)) as u64;
        proof {
            assert(digits.take(i - offset + 1).drop_last() =~= digits.take(i - offset));
            assert(digits.take(i - offset + 1).last() == digits[i - offset]);
        }
        if acc > (u64::MAX - d) / 10 {
            proof {
                assert(digits_val(digits.take(i - offset + 1)) == digits_val(
                    digits.take(i - offset),
                ) * 10 + d);
                assert(digits_val(digits.take(i - offset + 1)) > u64::MAX);
                if all_digits(digits) {
                    lemma_digits_val_prefix(digits, i - offset + 1);
                    assert(digits_val(digits) > u64::MAX);
                }
                assert(spec_parse_u64(v@) is None);
            }
            return None;
        }
        acc = acc * 10 + d;
        i = i + 1;
    }
    proof {
        assert(digits.take(n - offset) =~= digits);
    }
    Some(acc)
}

/// Reads a cache-control header value: splits it at commas, trims each
/// directive, finds the first whose key reads max-age in any letter case,
/// and reads its value as whole seconds. Says which way it fails: no
/// max-age directive at all, or one whose value is not a number.
#[verifier::loop_isolation(false)]
pub fn parse_max_age_value(cache_control_value: &str) -> (r: Result<u64, PublicKeysError>)
    ensures
        r == spec_parse_max_age(cache_control_value@),
{
    let chars = chars_of(cache_control_value);
    let segs = split_exec(&chars, ',');
    let n = segs.len();
    let mut k: usize = 0;
    proof {
        assert(segs.deep_view().skip(0) =~= segs.deep_view());
    }
    while k < n
        invariant
            k <= n,
            n == segs@.len(),
            find_max_age(segs.deep_view()) == find_max_age(segs.deep_view().skip(k as int)),
        decreases n - k,
    {
        proof {
            let rest = segs.deep_view().skip(k as int);
            assert(rest[0] == segs.deep_view()[k as int]);
            assert(rest.drop_first() =~= segs.deep_view().skip(k as int + 1));
            assert(segs.deep_view()[k as int] == segs@[k as int]@);
        }
        let pieces = split_exec(&segs[k], '=');
        proof {
            lemma_split_nonempty(segs@[k as int]@, Seq::<char>::empty(), '=');
            assert(pieces.deep_view()[0] == pieces@[0]@);
        }
        let key = trim_exec(&pieces[0]);
        if key_matches_max_age(&key) {
            let val: Vec<char> = if pieces.len() >= 2 {
                proof {
                    assert(pieces.deep_view()[1] == pieces@[1]@);
                }
                trim_exec(&pieces[1])
            } else {
                Vec::new()
            };
            proof {
                assert(val@ == segment_val(segs.deep_view().skip(k as int)[0]));
            }
            match parse_u64_chars(&val) {
                Some(secs) => {
                    return Ok(secs);
                },
                None => {
                    return Err(PublicKeysError::NonNumericMaxAge);
                },
            }
        }
        k = k + 1;
    }
    proof {
        assert(segs.deep_view().skip(n as int) =~= Seq::<Seq<char>>::empty());
    }
    Err(PublicKeysError::NoMaxAgeSpecified)
}

/// The fixed configuration of the identity provider: the key service, the
/// audience, and the issuer that credentials must name.
pub fn get_config() -> (c: JwkConfiguration)
    ensures
        c.jwk_url@
            == "https://www.googleapis.com/service_accounts/v1/jwk/securetoken@system.gserviceaccount.com"@,
        c.audience@ == "tyche-vtt"@,
        c.issuer@ == "https://securetoken.google.com/tyche-vtt"@,
{
    JwkConfiguration {
        jwk_url: String::from_str(
            "https://www.googleapis.com/service_accounts/v1/jwk/securetoken@system.gserviceaccount.com",
        ),
        audience: String::from_str("tyche-vtt"),
        issuer: String::from_str("https://securetoken.google.com/tyche-vtt"),
    }
}

/// The first key whose id matches, if any.
pub open spec fn find_kid(keys: Seq<JwkKeyView>, kid: Seq<char>) -> Option<int>
    decreases keys.len(),
{
    if keys.len() == 0 {
        None
    } else if keys[0].kid == kid {
        Some(0)
    } else {
        match find_kid(keys.drop_first(), kid) {
            None => None,
            Some(i) => Some(i + 1),
        }
    }
}

/// A found key index lies in range and matches the id looked for.
proof fn lemma_find_kid_bounds(keys: Seq<JwkKeyView>, kid: Seq<char>)
    ensures
        find_kid(keys, kid) matches Some(i) ==> 0 <= i < keys.len() && keys[i].kid == kid,
    decreases keys.len(),
{
    if keys.len() > 0 && keys[0].kid != kid {
        lemma_find_kid_bounds(keys.drop_first(), kid);
    }
}

/// Picks the published key a credential names: the first whose key id
/// matches, or nothing when no key carries that id.
#[verifier::loop_isolation(false)]
pub fn select_key<'a>(keys: &'a JwkKeys, kid: &String) -> (r: Option<&'a JwkKey>)
    ensures
        (match find_kid(keys.keys.deep_view(), kid@) {
            Some(i) => r matches Some(k) && 0 <= i < keys.keys.deep_view().len() && k@
                == keys.keys.deep_view()[i],
            None => r is None,
        }),
{
    let n = keys.keys.len();
    let mut k: usize = 0;
    proof {
        assert(keys.keys.deep_view().skip(0) =~= keys.keys.deep_view());
        lemma_find_kid_bounds(keys.keys.deep_view(), kid@);
    }
    while k < n
        invariant
            k <= n,
            n == keys.keys@.len(),
            (match find_kid(keys.keys.deep_view(), kid@) {
                Some(i) => k <= i < n && find_kid(keys.keys.deep_view().skip(k as int), kid@)
                    == Some(i - k),
                None => find_kid(keys.keys.deep_view().skip(k as int), kid@) is None,
            }),
        decreases n - k,
    {
        proof {
            let rest = keys.keys.deep_view().skip(k as int);
            assert(rest[0] == keys.keys.deep_view()[k as int]);
            assert(rest.drop_first() =~= keys.keys.deep_view().skip(k as int + 1));
            assert(keys.keys.deep_view()[k as int] == keys.keys@[k as int]@);
        }
        if keys.keys[k].kid.eq(kid) {
            return Some(&keys.keys[k]);
        }
        k = k + 1;
    }
    proof {
        assert(keys.keys.deep_view().skip(n as int) =~= Seq::<JwkKeyView>::empty());
    }
    None
}

/// Builds the key set from a fetched key list and the cache-control header
/// beside it: a readable max-age bounds the lifetime, and any failure to
/// read one falls back to sixty seconds.
pub fn assemble_jwk_keys(keys: Vec<JwkKey>, cache_control: &str) -> (r: JwkKeys)
    ensures
        r.keys == keys,
        r.max_age_secs == (match spec_parse_max_age(cache_control@) {
            Ok(secs) => secs,
            Err(_) => 60u64,
        }),
{
    let max_age_secs = match parse_max_age_value(cache_control) {
        Ok(secs) => secs,
        Err(_) => 60,
    };
    JwkKeys { keys, max_age_secs }
}

/// The checks of a credential's header before any key is used: the
/// algorithm must be the expected one and a key id must be named; the
/// failures are told apart exactly as the verifier reports them.
pub fn validate_header(alg_is_rs256: bool, kid: Option<String>) -> (r: Result<
    String,
    VerificationError,
>)
    ensures
        !alg_is_rs256 ==> r == Err::<String, VerificationError>(
            VerificationError::UnkownKeyAlgorithm,
        ),
        alg_is_rs256 && kid is None ==> r == Err::<String, VerificationError>(
            VerificationError::NoKidHeader,
        ),
        (alg_is_rs256 && kid is Some) ==> r == Ok::<String, VerificationError>(kid->Some_0),
{
    if !alg_is_rs256 {
        return Err(VerificationError::UnkownKeyAlgorithm);
    }
    match kid {
        None => Err(VerificationError::NoKidHeader),
        Some(k) => Ok(k),
    }
}

} // verus!

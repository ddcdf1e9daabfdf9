//! Byte-level text helpers shared by the parsers of the crate.
//!
//! All text handled by the library is UTF-8 held as bytes; the helpers
//! below are stated over `Seq<u8>` so that contracts elsewhere can speak of
//! trimming, line splitting and searching directly.

use vstd::prelude::*;

verus! {

/// The bytes of an ASCII string literal.
pub open spec fn lit(s: &str) -> Seq<u8> {
    s@.map_values(|c: char| c as u8)
}

/// Copies an ASCII literal into a byte vector.
pub fn ascii_bytes(s: &str) -> (r: Vec<u8>)
    requires
        s.is_ascii(),
    ensures
        r@ == lit(s),
{
    proof {
        vstd::string::is_ascii_spec_bytes(s);
    }
    let r = vstd::slice::slice_to_vec(s.as_bytes());
    assert(r@ =~= lit(s));
    r
}

/// ASCII whitespace as recognised by the trimming helpers.
pub open spec fn is_space(b: u8) -> bool {
    b == 32 || (9 <= b && b <= 13)
}

/// Index of the first non-space byte at or after `i`.
pub open spec fn skip_space(s: Seq<u8>, i: int) -> int
    decreases s.len() - i,
{
    if i < 0 || i >= s.len() {
        if i < 0 { 0 } else { s.len() as int }
    } else if is_space(s[i]) {
        skip_space(s, i + 1)
    } else {
        i
    }
}

/// End of `s[lo..j]` once trailing spaces are removed.
pub open spec fn rskip_space(s: Seq<u8>, lo: int, j: int) -> int
    decreases j - lo,
{
    if j <= lo {
        lo
    } else if is_space(s[j - 1]) {
        rskip_space(s, lo, j - 1)
    } else {
        j
    }
}

/// `s` without leading and trailing whitespace.
pub open spec fn trim(s: Seq<u8>) -> Seq<u8> {
    let a = skip_space(s, 0);
    s.subrange(a, rskip_space(s, a, s.len() as int))
}

pub proof fn lemma_skip_space_bounds(s: Seq<u8>, i: int)
    requires
        0 <= i <= s.len(),
    ensures
        i <= skip_space(s, i) <= s.len(),
        forall|k: int| i <= k < skip_space(s, i) ==> is_space(#[trigger] s[k]),
        skip_space(s, i) < s.len() ==> !is_space(s[skip_space(s, i)]),
    decreases s.len() - i,
{
    if i < s.len() && is_space(s[i]) {
        lemma_skip_space_bounds(s, i + 1);
    }
}

pub proof fn lemma_rskip_space_bounds(s: Seq<u8>, lo: int, j: int)
    requires
        0 <= lo <= j <= s.len(),
    ensures
        lo <= rskip_space(s, lo, j) <= j,
        forall|k: int| rskip_space(s, lo, j) <= k < j ==> is_space(#[trigger] s[k]),
        rskip_space(s, lo, j) > lo ==> !is_space(s[rskip_space(s, lo, j) - 1]),
    decreases j - lo,
{
    if j > lo && is_space(s[j - 1]) {
        lemma_rskip_space_bounds(s, lo, j - 1);
    }
}

/// Trims ASCII whitespace from both ends.
pub fn trim_bytes(s: &[u8]) -> (r: &[u8])
    ensures
        r@ == trim(s@),
{
    let n = s.len();
    let mut a: usize = 0;
    while a < n && (s[a] == 32 || (9 <= s[a] && s[a] <= 13))
        invariant
            0 <= a <= n,
            n == s@.len(),
            skip_space(s@, 0) == skip_space(s@, a as int),
        decreases n - a,
    {
        a = a + 1;
    }
    let mut b: usize = n;
    while b > a && (s[b - 1] == 32 || (9 <= s[b - 1] && s[b - 1] <= 13))
        invariant
            a <= b <= n,
            n == s@.len(),
            skip_space(s@, 0) == a,
            rskip_space(s@, a as int, n as int) == rskip_space(s@, a as int, b as int),
        decreases b - a,
    {
        b = b - 1;
    }
    vstd::slice::slice_subrange(s, a, b)
}

/// First index `>= i` at which `b` occurs.
pub open spec fn find_from(s: Seq<u8>, b: u8, i: int) -> Option<int>
    decreases s.len() - i,
{
    if i < 0 || i >= s.len() {
        None
    } else if s[i] == b {
        Some(i)
    } else {
        find_from(s, b, i + 1)
    }
}

pub open spec fn find(s: Seq<u8>, b: u8) -> Option<int> {
    find_from(s, b, 0)
}

pub proof fn lemma_find_from(s: Seq<u8>, b: u8, i: int)
    requires
        0 <= i,
    ensures
        match find_from(s, b, i) {
            Some(j) => i <= j < s.len() && s[j] == b && forall|k: int|
                i <= k < j ==> #[trigger] s[k] != b,
            None => forall|k: int| i <= k < s.len() ==> #[trigger] s[k] != b,
        },
    decreases s.len() - i,
{
    if i < s.len() && s[i] != b {
        lemma_find_from(s, b, i + 1);
    }
}

/// Position of the first `b` in `s`.
pub fn find_byte(s: &[u8], b: u8) -> (r: Option<usize>)
    ensures
        match r {
            Some(j) => find(s@, b) == Some(j as int),
            None => find(s@, b) is None,
        },
{
    let mut i: usize = 0;
    while i < s.len()
        invariant
            0 <= i <= s@.len(),
            find(s@, b) == find_from(s@, b, i as int),
        decreases s.len() - i,
    {
        if s[i] == b {
            return Some(i);
        }
        i = i + 1;
    }
    None
}

/// First index `>= i` at which the pattern `p` starts.
pub open spec fn find_sub_from(s: Seq<u8>, p: Seq<u8>, i: int) -> Option<int>
    decreases s.len() + 1 - i,
{
    if i < 0 || i + p.len() > s.len() {
        None
    } else if s.subrange(i, i + p.len()) == p {
        Some(i)
    } else {
        find_sub_from(s, p, i + 1)
    }
}

pub proof fn lemma_find_sub_from(s: Seq<u8>, p: Seq<u8>, i: int)
    requires
        0 <= i,
    ensures
        match find_sub_from(s, p, i) {
            Some(j) => i <= j && j + p.len() <= s.len() && s.subrange(j, j + p.len()) == p,
            None => true,
        },
    decreases s.len() + 1 - i,
{
    if i + p.len() <= s.len() && s.subrange(i, i + p.len()) != p {
        lemma_find_sub_from(s, p, i + 1);
    }
}

/// Whether `s[i..i + p.len()]` equals `p`.
pub fn matches_at(s: &[u8], i: usize, p: &[u8]) -> (r: bool)
    requires
        i <= s@.len(),
    ensures
        r == (i + p@.len() <= s@.len() && s@.subrange(i as int, i + p@.len()) == p@),
{
    if p.len() > s.len() - i {
        return false;
    }
    let mut k: usize = 0;
    while k < p.len()
        invariant
            0 <= k <= p@.len(),
            i + p@.len() <= s@.len(),
            i + p.len() <= s.len(),
            forall|t: int| 0 <= t < k ==> s@[i + t] == p@[t],
        decreases p.len() - k,
    {
        if s[i + k] != p[k] {
            assert(s@.subrange(i as int, i + p@.len())[k as int] != p@[k as int]);
            return false;
        }
        k = k + 1;
    }
    assert(s@.subrange(i as int, i + p@.len()) =~= p@);
    true
}

/// Position of the first occurrence of `p` in `s`, starting at `start`.
pub fn find_sub(s: &[u8], p: &[u8], start: usize) -> (r: Option<usize>)
    ensures
        match r {
            Some(j) => find_sub_from(s@, p@, start as int) == Some(j as int),
            None => find_sub_from(s@, p@, start as int) is None,
        },
{
    let mut i: usize = start;
    while i < s.len() || (i == s.len() && p.len() == 0)
        invariant
            start <= i,
            find_sub_from(s@, p@, start as int) == find_sub_from(s@, p@, i as int),
        decreases s@.len() + 1 - i,
    {
        if matches_at(s, i, p) {
            return Some(i);
        }
        if i == s.len() {
            assert(find_sub_from(s@, p@, i as int + 1) is None);
            return None;
        }
        i = i + 1;
    }
    None
}

/// Whether `p` is a prefix of `s`.
pub open spec fn has_prefix(s: Seq<u8>, p: Seq<u8>) -> bool {
    p.len() <= s.len() && s.subrange(0, p.len() as int) == p
}

/// Whether `p` is a suffix of `s`.
pub open spec fn has_suffix(s: Seq<u8>, p: Seq<u8>) -> bool {
    p.len() <= s.len() && s.subrange(s.len() - p.len(), s.len() as int) == p
}

pub fn starts_with(s: &[u8], p: &[u8]) -> (r: bool)
    ensures
        r == has_prefix(s@, p@),
{
    matches_at(s, 0, p)
}

pub fn ends_with(s: &[u8], p: &[u8]) -> (r: bool)
    ensures
        r == has_suffix(s@, p@),
{
    if p.len() > s.len() {
        return false;
    }
    matches_at(s, s.len() - p.len(), p)
}

/// Byte-wise equality of two slices.
pub fn bytes_eq(a: &[u8], b: &[u8]) -> (r: bool)
    ensures
        r == (a@ == b@),
{
    if a.len() != b.len() {
        return false;
    }
    let r = matches_at(a, 0, b);
    assert(a@.subrange(0, b@.len() as int) =~= a@);
    r
}

/// ASCII lower-casing of one byte.
pub open spec fn lower(b: u8) -> u8 {
    if 65 <= b && b <= 90 {
        (b + 32) as u8
    } else {
        b
    }
}

pub open spec fn lower_seq(s: Seq<u8>) -> Seq<u8> {
    s.map_values(|b: u8| lower(b))
}

pub fn to_lower_byte(b: u8) -> (r: u8)
    ensures
        r == lower(b),
{
    if 65 <= b && b <= 90 {
        b + 32
    } else {
        b
    }
}

/// ASCII case-insensitive equality.
pub fn eq_ignore_ascii_case(a: &[u8], b: &[u8]) -> (r: bool)
    ensures
        r == (lower_seq(a@) == lower_seq(b@)),
{
    if a.len() != b.len() {
        assert(lower_seq(a@).len() != lower_seq(b@).len());
        return false;
    }
    let mut k: usize = 0;
    while k < a.len()
        invariant
            0 <= k <= a@.len(),
            a@.len() == b@.len(),
            forall|t: int| 0 <= t < k ==> lower(a@[t]) == lower(b@[t]),
        decreases a.len() - k,
    {
        if to_lower_byte(a[k]) != to_lower_byte(b[k]) {
            assert(lower_seq(a@)[k as int] != lower_seq(b@)[k as int]);
            return false;
        }
        k = k + 1;
    }
    assert(lower_seq(a@) =~= lower_seq(b@));
    true
}

/// Appends all bytes of `s` to `v`.
pub fn push_all(v: &mut Vec<u8>, s: &[u8])
    ensures
        final(v)@ == old(v)@ + s@,
{
    let ghost v0 = v@;
    let mut k: usize = 0;
    while k < s.len()
        invariant
            0 <= k <= s@.len(),
            v@ == v0 + s@.subrange(0, k as int),
        decreases s.len() - k,
    {
        v.push(s[k]);
        k = k + 1;
        assert(v@ =~= v0 + s@.subrange(0, k as int));
    }
    assert(s@.subrange(0, s@.len() as int) =~= s@);
}

/// Copies a slice into a fresh vector.
pub fn to_vec(s: &[u8]) -> (r: Vec<u8>)
    ensures
        r@ == s@,
{
    vstd::slice::slice_to_vec(s)
}

/// Whether `b` is an ASCII decimal digit.
pub open spec fn is_digit(b: u8) -> bool {
    48 <= b && b <= 57
}

/// Value of a string of decimal digits (the empty string has value 0).
pub open spec fn digits_value(s: Seq<u8>) -> nat
    decreases s.len(),
{
    if s.len() == 0 {
        0
    } else {
        digits_value(s.drop_last()) * 10 + (s.last() - 48) as nat
    }
}

pub open spec fn all_digits(s: Seq<u8>) -> bool {
    forall|i: int| 0 <= i < s.len() ==> is_digit(#[trigger] s[i])
}

/// Parses a non-empty run of decimal digits, failing on any other byte or
/// on a value above `max`.
pub fn parse_digits(s: &[u8], max: u64) -> (r: Option<u64>)
    ensures
        match r {
            Some(v) => s@.len() > 0 && all_digits(s@) && v == digits_value(s@) && v <= max,
            None => s@.len() == 0 || !all_digits(s@) || digits_value(s@) > max,
        },
{
    if s.len() == 0 {
        return None;
    }
    let mut acc: u64 = 0;
    let mut i: usize = 0;
    while i < s.len()
        invariant
            0 <= i <= s@.len(),
            all_digits(s@.subrange(0, i as int)),
            acc == digits_value(s@.subrange(0, i as int)),
            acc <= max,
        decreases s.len() - i,
    {
        let b = s[i];
        assert(s@.subrange(0, i + 1).drop_last() =~= s@.subrange(0, i as int));
        if b < 48 || b > 57 {
            return None;
        }
        let d = (b - 48) as u64;
        let next: u128 = (acc as u128) * 10 + (d as u128);
        if next > max as u128 {
            proof {
                lemma_digits_monotone(s@, i as int + 1);
            }
            return None;
        }
        acc = next as u64;
        i = i + 1;
        assert(all_digits(s@.subrange(0, i as int)));
    }
    assert(s@.subrange(0, s@.len() as int) =~= s@);
    Some(acc)
}

/// Once a prefix of digits exceeds a bound, the whole digit string does too.
pub proof fn lemma_digits_monotone(s: Seq<u8>, k: int)
    requires
        0 <= k <= s.len(),
    ensures
        all_digits(s) ==> digits_value(s.subrange(0, k)) <= digits_value(s),
    decreases s.len() - k,
{
    if k < s.len() && all_digits(s) {
        assert(s.subrange(0, k + 1).drop_last() =~= s.subrange(0, k));
        lemma_digits_monotone(s, k + 1);
    } else if k == s.len() {
        assert(s.subrange(0, k) =~= s);
    }
}

/// Decimal representation of a natural number.
pub open spec fn dec(n: nat) -> Seq<u8>
    decreases n,
{
    if n < 10 {
        seq![(n + 48) as u8]
    } else {
        dec(n / 10).push(((n % 10) + 48) as u8)
    }
}

/// `s` left-padded with `'0'` up to `width` bytes.
pub open spec fn zero_pad(s: Seq<u8>, width: nat) -> Seq<u8> {
    if s.len() >= width {
        s
    } else {
        Seq::new((width - s.len()) as nat, |i: int| 48u8) + s
    }
}

/// Appends the decimal digits of `n` to `v`.
pub fn push_dec(v: &mut Vec<u8>, n: u64)
    ensures
        final(v)@ == old(v)@ + dec(n as nat),
    decreases n,
{
    if n >= 10 {
        push_dec(v, n / 10);
    }
    let d: u8 = (n % 10) as u8;
    v.push(d + 48);
    assert(v@ =~= old(v)@ + dec(n as nat));
}

/// Appends the decimal digits of `n`, left-padded with zeros to `width`.
pub fn push_dec_padded(v: &mut Vec<u8>, n: u64, width: usize)
    ensures
        final(v)@ == old(v)@ + zero_pad(dec(n as nat), width as nat),
{
    let mut digits: Vec<u8> = Vec::new();
    push_dec(&mut digits, n);
    assert(digits@ =~= dec(n as nat));
    let ghost v0 = v@;
    if digits.len() < width {
        let pad = width - digits.len();
        let mut k: usize = 0;
        while k < pad
            invariant
                0 <= k <= pad,
                v@ == v0 + Seq::new(k as nat, |i: int| 48u8),
            decreases pad - k,
        {
            v.push(48);
            k = k + 1;
            assert(v@ =~= v0 + Seq::new(k as nat, |i: int| 48u8));
        }
    }
    let ghost v1 = v@;
    push_all(v, digits.as_slice());
    assert(v@ =~= v0 + zero_pad(dec(n as nat), width as nat));
}

/// A line as produced by splitting on `\n`: one trailing `\r` is dropped.
pub open spec fn strip_cr(line: Seq<u8>) -> Seq<u8> {
    if line.len() > 0 && line.last() == 13 {
        line.drop_last()
    } else {
        line
    }
}

/// The lines of `s`, split at `\n` (or `\r\n`); a final line ending adds no
/// empty line.
pub open spec fn lines(s: Seq<u8>) -> Seq<Seq<u8>>
    decreases s.len(),
{
    if s.len() == 0 {
        seq![]
    } else {
        match find(s, 10) {
            Some(j) => if 0 <= j < s.len() {
                seq![strip_cr(s.subrange(0, j))] + lines(s.subrange(j + 1, s.len() as int))
            } else {
                seq![]
            },
            None => seq![s],
        }
    }
}

/// Splits off the first line of a non-empty text.
pub fn split_first_line(s: &[u8]) -> (r: (&[u8], &[u8]))
    requires
        s@.len() > 0,
    ensures
        lines(s@) == seq![r.0@] + lines(r.1@),
        r.1@.len() < s@.len(),
{
    proof {
        lemma_find_from(s@, 10, 0);
    }
    match find_byte(s, 10) {
        Some(j) => {
            let line = vstd::slice::slice_subrange(s, 0, j);
            let line = if j > 0 && s[j - 1] == 13 {
                assert(s@.subrange(0, j as int).drop_last() =~= s@.subrange(0, j - 1));
                vstd::slice::slice_subrange(s, 0, j - 1)
            } else {
                line
            };
            let rest = vstd::slice::slice_subrange(s, j + 1, s.len());
            (line, rest)
        },
        None => {
            let rest = vstd::slice::slice_subrange(s, 0, 0);
            assert(lines(rest@) =~= seq![]);
            assert(seq![s@] + lines(rest@) =~= seq![s@]);
            (s, rest)
        },
    }
}

/// Whether `b` is valid UTF-8.
///
/// Trusted: calls `core::str::from_utf8`, whose documentation states that it
/// succeeds exactly on well-formed UTF-8; the contract equates the answer with
/// vstd's `valid_utf8`.
#[verifier::external_body]
pub fn is_utf8(b: &[u8]) -> (r: bool)
    ensures
        r == vstd::utf8::valid_utf8(b@),
{
    core::str::from_utf8(b).is_ok()
}


/// Name for the text `String::from_utf8_lossy` makes of some bytes.
pub uninterp spec fn utf8_lossy(b: Seq<u8>) -> Seq<u8>;

/// Decodes text that may not be well-formed UTF-8.
///
/// Trusted: calls `String::from_utf8_lossy`. The contract names its result
/// and states what its documentation promises: valid UTF-8 comes back
/// unchanged. How invalid sequences are replaced is left unsaid.
#[verifier::external_body]
pub fn lossy_text(b: &[u8]) -> (r: Vec<u8>)
    ensures
        r@ == utf8_lossy(b@),
        vstd::utf8::valid_utf8(b@) ==> r@ == b@,
{
    String::from_utf8_lossy(b).into_owned().into_bytes()
}

/// A text has at most as many lines as bytes.
pub proof fn lemma_lines_len(s: Seq<u8>)
    ensures
        lines(s).len() <= s.len(),
    decreases s.len(),
{
    if s.len() > 0 {
        lemma_find_from(s, 10, 0);
        match find(s, 10) {
            Some(j) => {
                lemma_lines_len(s.subrange(j + 1, s.len() as int));
            },
            None => {},
        }
    }
}

/// The pieces of `s` between occurrences of `b` (as `str::split`: an empty
/// text is one empty piece).
pub open spec fn split_on(s: Seq<u8>, b: u8) -> Seq<Seq<u8>>
    decreases s.len(),
{
    match find(s, b) {
        Some(i) => if 0 <= i < s.len() {
            seq![s.subrange(0, i)] + split_on(s.subrange(i + 1, s.len() as int), b)
        } else {
            seq![]
        },
        None => seq![s],
    }
}

/// Splits `s` at every occurrence of `b`.
pub fn split_bytes(s: &[u8], b: u8) -> (r: Vec<&[u8]>)
    ensures
        r@.map_values(|x: &[u8]| x@) == split_on(s@, b),
{
    let mut out: Vec<&[u8]> = Vec::new();
    let mut rest = s;
    loop
        invariant
            split_on(s@, b) == out@.map_values(|x: &[u8]| x@) + split_on(rest@, b),
        decreases rest@.len(),
    {
        proof {
            lemma_find_from(rest@, b, 0);
        }
        let ghost o0 = out@;
        match find_byte(rest, b) {
            Some(i) => {
                let n = rest.len();
                out.push(vstd::slice::slice_subrange(rest, 0, i));
                let next = vstd::slice::slice_subrange(rest, i + 1, n);
                assert(out@.map_values(|x: &[u8]| x@) =~= o0.map_values(|x: &[u8]| x@).push(
                    rest@.subrange(0, i as int),
                ));
                assert(split_on(s@, b) =~= out@.map_values(|x: &[u8]| x@) + split_on(next@, b));
                rest = next;
            },
            None => {
                out.push(rest);
                assert(out@.map_values(|x: &[u8]| x@) =~= o0.map_values(|x: &[u8]| x@).push(
                    rest@,
                ));
                assert(split_on(s@, b) =~= out@.map_values(|x: &[u8]| x@));
                return out;
            },
        }
    }
}

/// Index of the first non-digit at or after `i` (the length if none).
pub open spec fn digit_run(s: Seq<u8>, i: nat) -> nat
    decreases s.len() - i,
{
    if i >= s.len() {
        s.len()
    } else if is_digit(s[i as int]) {
        digit_run(s, i + 1)
    } else {
        i
    }
}

pub proof fn lemma_digit_run(s: Seq<u8>, i: nat)
    requires
        i <= s.len(),
    ensures
        i <= digit_run(s, i) <= s.len(),
        forall|k: int| i <= k < digit_run(s, i) ==> is_digit(#[trigger] s[k]),
        digit_run(s, i) < s.len() ==> !is_digit(s[digit_run(s, i) as int]),
    decreases s.len() - i,
{
    if i < s.len() && is_digit(s[i as int]) {
        lemma_digit_run(s, i + 1);
    }
}

} // verus!

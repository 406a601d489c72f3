//! Byte-string primitives shared by the parser, the router and the encoder.
//!
//! All text handled by the server is a sequence of bytes. The functions here
//! search, split, trim and compare such sequences; each comes with a
//! specification function over `Seq<u8>` and an executable counterpart.
use vstd::prelude::*;
use vstd::slice::slice_subrange;
use vstd::string::StringSliceAdditionalSpecFns;

verus! {

/// The bytes of a string slice: its UTF-8 encoding.
pub open spec fn bytes_of(s: &str) -> Seq<u8> {
    s.spec_bytes()
}

/// The views of a list of byte slices.
pub open spec fn views_of(pieces: Seq<&[u8]>) -> Seq<Seq<u8>> {
    pieces.map_values(|p: &[u8]| p@)
}

/// `pat` occurs in `s` at index `i`.
pub open spec fn occurs_at(s: Seq<u8>, i: int, pat: Seq<u8>) -> bool {
    0 <= i && i + pat.len() <= s.len() && s.subrange(i, i + pat.len()) == pat
}

/// Index of the first occurrence of `pat` in `s`, or `s.len()` when `pat`
/// does not occur.
pub open spec fn find(s: Seq<u8>, pat: Seq<u8>) -> int
    decreases s.len(),
{
    if pat.is_prefix_of(s) {
        0
    } else if s.len() == 0 {
        0
    } else {
        1 + find(s.skip(1), pat)
    }
}

/// `pat` occurs somewhere in `s`.
pub open spec fn contains(s: Seq<u8>, pat: Seq<u8>) -> bool {
    exists|i: int| occurs_at(s, i, pat)
}

/// The pieces of `s` between successive non-overlapping occurrences of the
/// separator `pat`. There is always at least one piece; with an empty
/// separator `s` is the one piece.
pub open spec fn split(s: Seq<u8>, pat: Seq<u8>) -> Seq<Seq<u8>>
    decreases s.len(),
{
    let i = find(s, pat);
    if pat.len() == 0 || i < 0 || i + pat.len() > s.len() {
        seq![s]
    } else {
        seq![s.take(i)] + split(s.skip(i + pat.len()), pat)
    }
}

/// The whitespace bytes: space, tab, line feed, vertical tab, form feed and
/// carriage return.
pub open spec fn is_ws(b: u8) -> bool {
    b == 32 || (9 <= b && b <= 13)
}

/// `s` without its leading whitespace.
pub open spec fn trim_start(s: Seq<u8>) -> Seq<u8>
    decreases s.len(),
{
    if s.len() > 0 && is_ws(s[0]) {
        trim_start(s.skip(1))
    } else {
        s
    }
}

/// `s` without its trailing whitespace.
pub open spec fn trim_end(s: Seq<u8>) -> Seq<u8>
    decreases s.len(),
{
    if s.len() > 0 && is_ws(s.last()) {
        trim_end(s.drop_last())
    } else {
        s
    }
}

/// `s` without leading and trailing whitespace.
pub open spec fn trim(s: Seq<u8>) -> Seq<u8> {
    trim_end(trim_start(s))
}

/// The lower-case form of an ASCII letter; any other byte is unchanged.
pub open spec fn lower_byte(b: u8) -> u8 {
    if 65 <= b && b <= 90 {
        (b + 32) as u8
    } else {
        b
    }
}

/// `s` with every ASCII upper-case letter replaced by its lower-case form.
pub open spec fn lower(s: Seq<u8>) -> Seq<u8> {
    Seq::new(s.len(), |i: int| lower_byte(s[i]))
}

/// `a` and `b` are equal up to the case of ASCII letters.
pub open spec fn eq_ignore_case(a: Seq<u8>, b: Seq<u8>) -> bool {
    lower(a) == lower(b)
}

/// The decimal digits of `n`, most significant first, as ASCII bytes.
pub open spec fn decimal(n: nat) -> Seq<u8>
    decreases n,
{
    if n < 10 {
        seq![(48 + n) as u8]
    } else {
        decimal(n / 10).push((48 + n % 10) as u8)
    }
}

/// `find` stays within `0 ..= s.len()`, nothing matches before it, and
/// below `s.len()` it is a match.
pub proof fn lemma_find(s: Seq<u8>, pat: Seq<u8>)
    ensures
        0 <= find(s, pat) <= s.len(),
        forall|j: int| 0 <= j < find(s, pat) ==> !occurs_at(s, j, pat),
        find(s, pat) < s.len() ==> occurs_at(s, find(s, pat), pat),
        pat.len() > 0 && find(s, pat) + pat.len() <= s.len() ==> occurs_at(s, find(s, pat), pat),
    decreases s.len(),
{
    if pat.is_prefix_of(s) {
        assert(s.subrange(0, pat.len() as int) == pat);
    } else if s.len() == 0 {
    } else {
        let t = s.skip(1);
        lemma_find(t, pat);
        let k = find(t, pat);
        assert forall|j: int| 0 <= j < 1 + k implies !occurs_at(s, j, pat) by {
            if j == 0 {
                if occurs_at(s, 0, pat) {
                    assert(pat.is_prefix_of(s));
                }
            } else {
                if occurs_at(s, j, pat) {
                    assert(t.subrange(j - 1, j - 1 + pat.len()) =~= s.subrange(j, j + pat.len()));
                    assert(occurs_at(t, j - 1, pat));
                }
            }
        }
        if occurs_at(t, k, pat) {
            assert(s.subrange(1 + k, 1 + k + pat.len()) =~= t.subrange(k, k + pat.len()));
        }
    }
}

/// The first match is where nothing matches earlier.
pub proof fn lemma_find_is(s: Seq<u8>, pat: Seq<u8>, i: int)
    requires
        pat.len() > 0,
        0 <= i <= s.len(),
        forall|j: int| 0 <= j < i ==> !occurs_at(s, j, pat),
        i == s.len() || occurs_at(s, i, pat),
    ensures
        find(s, pat) == i,
{
    lemma_find(s, pat);
    let k = find(s, pat);
    if k < i {
        assert(occurs_at(s, k, pat));
    } else if k > i {
        assert(!occurs_at(s, i, pat));
    }
}

/// A sequence without the separator is a single piece.
pub proof fn lemma_split_none(s: Seq<u8>, pat: Seq<u8>)
    requires
        pat.len() > 0,
        !contains(s, pat),
    ensures
        split(s, pat) == seq![s],
{
    lemma_find(s, pat);
    if find(s, pat) + pat.len() <= s.len() {
        assert(occurs_at(s, find(s, pat), pat));
    }
}

/// Splitting `head + pat + tail` where `pat` first occurs right after
/// `head` gives `head` and then the pieces of `tail`.
pub proof fn lemma_split_at(s: Seq<u8>, pat: Seq<u8>, i: int)
    requires
        pat.len() > 0,
        occurs_at(s, i, pat),
        forall|j: int| 0 <= j < i ==> !occurs_at(s, j, pat),
    ensures
        split(s, pat) == seq![s.take(i)] + split(s.skip(i + pat.len()), pat),
        split(s, pat).len() >= 2,
        split(s, pat)[0] == s.take(i),
{
    lemma_find_is(s, pat, i);
}

/// Splitting `a + pat + b`, where `a` holds nowhere the first byte of
/// `pat`, gives `a` and then the pieces of `b`.
pub proof fn lemma_split_first(a: Seq<u8>, pat: Seq<u8>, b: Seq<u8>)
    requires
        pat.len() > 0,
        forall|i: int| 0 <= i < a.len() ==> a[i] != pat[0],
    ensures
        split(a + pat + b, pat) == seq![a] + split(b, pat),
{
    let s = a + pat + b;
    let n = a.len() as int;
    assert(s.subrange(n, n + pat.len()) =~= pat);
    assert forall|j: int| 0 <= j < n implies !occurs_at(s, j, pat) by {
        if occurs_at(s, j, pat) {
            assert(s.subrange(j, j + pat.len())[0] == pat[0]);
            assert(s[j] == a[j]);
        }
    }
    lemma_split_at(s, pat, n);
    assert(s.take(n) =~= a);
    assert(s.skip(n + pat.len()) =~= b);
}

/// Splitting `a + pat + b`, where `pat` does not begin within `a`, gives
/// `a` and then the pieces of `b`.
pub proof fn lemma_split_clean(a: Seq<u8>, pat: Seq<u8>, b: Seq<u8>)
    requires
        pat.len() > 0,
        forall|j: int| 0 <= j < a.len() ==> !occurs_at(a + pat, j, pat),
    ensures
        split(a + pat + b, pat) == seq![a] + split(b, pat),
{
    let s = a + pat + b;
    let n = a.len() as int;
    assert(s.subrange(n, n + pat.len()) =~= pat);
    assert forall|j: int| 0 <= j < n implies !occurs_at(s, j, pat) by {
        if occurs_at(s, j, pat) {
            assert((a + pat).subrange(j, j + pat.len()) =~= s.subrange(j, j + pat.len()));
            assert(occurs_at(a + pat, j, pat));
        }
    }
    lemma_split_at(s, pat, n);
    assert(s.take(n) =~= a);
    assert(s.skip(n + pat.len()) =~= b);
}

/// A sequence that holds nowhere the first byte of `pat` is a single piece.
pub proof fn lemma_split_last(a: Seq<u8>, pat: Seq<u8>)
    requires
        pat.len() > 0,
        forall|i: int| 0 <= i < a.len() ==> a[i] != pat[0],
    ensures
        split(a, pat) == seq![a],
{
    assert forall|j: int| !occurs_at(a, j, pat) by {
        if occurs_at(a, j, pat) {
            assert(a.subrange(j, j + pat.len())[0] == pat[0]);
        }
    }
    lemma_split_none(a, pat);
}

/// Leading whitespace ends at `a`.
pub proof fn lemma_trim_start_is(s: Seq<u8>, a: int)
    requires
        0 <= a <= s.len(),
        forall|j: int| 0 <= j < a ==> is_ws(#[trigger] s[j]),
        a == s.len() || !is_ws(s[a]),
    ensures
        trim_start(s) == s.skip(a),
    decreases a,
{
    if a == 0 {
        assert(s.skip(0) =~= s);
    } else {
        let t = s.skip(1);
        assert forall|j: int| 0 <= j < a - 1 implies is_ws(#[trigger] t[j]) by {
            assert(t[j] == s[j + 1]);
        }
        lemma_trim_start_is(t, a - 1);
        assert(t.skip(a - 1) =~= s.skip(a));
    }
}

/// Trailing whitespace starts at `b`.
pub proof fn lemma_trim_end_is(s: Seq<u8>, b: int)
    requires
        0 <= b <= s.len(),
        forall|j: int| b <= j < s.len() ==> is_ws(#[trigger] s[j]),
        b == 0 || !is_ws(s[b - 1]),
    ensures
        trim_end(s) == s.take(b),
    decreases s.len() - b,
{
    if b == s.len() {
        assert(s.take(b) =~= s);
    } else {
        let t = s.drop_last();
        lemma_trim_end_is(t, b);
        assert(t.take(b) =~= s.take(b));
    }
}

/// A sequence that neither starts nor ends with whitespace is its own trim.
pub proof fn lemma_trim_fixed(s: Seq<u8>)
    requires
        s.len() == 0 || (!is_ws(s[0]) && !is_ws(s.last())),
    ensures
        trim(s) == s,
{
}

/// The bytes of ASCII text are its characters, one byte each.
pub proof fn lemma_ascii_bytes(s: &str)
    requires
        vstd::utf8::is_ascii_chars(s@),
    ensures
        bytes_of(s).len() == s@.len(),
        forall|i: int| 0 <= i < s@.len() ==> #[trigger] bytes_of(s)[i] == s@[i] as u8,
{
    vstd::utf8::is_ascii_chars_encode_utf8(s@);
}

/// The bytes of a string literal.
pub fn lit(s: &'static str) -> (r: &'static [u8])
    ensures
        r@ == bytes_of(s),
{
    s.as_bytes()
}

/// Whether two byte strings are the same.
pub fn bytes_eq(a: &[u8], b: &[u8]) -> (r: bool)
    ensures
        r == (a@ == b@),
{
    if a.len() != b.len() {
        return false;
    }
    let mut i: usize = 0;
    while i < a.len()
        invariant
            a.len() == b.len(),
            i <= a.len(),
            forall|j: int| 0 <= j < i ==> a@[j] == b@[j],
        decreases a.len() - i,
    {
        if a[i] != b[i] {
            return false;
        }
        i += 1;
    }
    assert(a@ =~= b@);
    true
}

/// A fresh copy of a byte string.
pub fn to_vec(s: &[u8]) -> (r: Vec<u8>)
    ensures
        r@ == s@,
{
    let mut out: Vec<u8> = Vec::new();
    append(&mut out, s);
    assert(out@ =~= s@);
    out
}

/// Appends `s` to `out`.
pub fn append(out: &mut Vec<u8>, s: &[u8])
    ensures
        final(out)@ == old(out)@ + s@,
{
    let mut i: usize = 0;
    while i < s.len()
        invariant
            i <= s.len(),
            out@ == old(out)@ + s@.take(i as int),
        decreases s.len() - i,
    {
        out.push(s[i]);
        i += 1;
        assert(out@ =~= old(out)@ + s@.take(i as int));
    }
    assert(s@.take(s.len() as int) =~= s@);
}

/// Whether `pat` occurs in `s` at index `i`.
pub fn matches_at(s: &[u8], i: usize, pat: &[u8]) -> (r: bool)
    ensures
        r == occurs_at(s@, i as int, pat@),
{
    if i > s.len() || pat.len() > s.len() - i {
        return false;
    }
    let mut k: usize = 0;
    while k < pat.len()
        invariant
            i + pat.len() <= s.len(),
            k <= pat.len(),
            forall|j: int| 0 <= j < k ==> s@[i + j] == pat@[j],
        decreases pat.len() - k,
    {
        if s[i + k] != pat[k] {
            assert(s@.subrange(i as int, i + pat.len())[k as int] != pat@[k as int]);
            return false;
        }
        k += 1;
    }
    assert(s@.subrange(i as int, i + pat.len()) =~= pat@);
    true
}

/// Whether `s` begins with `pat`.
pub fn starts_with(s: &[u8], pat: &[u8]) -> (r: bool)
    ensures
        r == pat@.is_prefix_of(s@),
{
    matches_at(s, 0, pat)
}

/// Whether `s` ends with `pat`.
pub fn ends_with(s: &[u8], pat: &[u8]) -> (r: bool)
    ensures
        r == pat@.is_suffix_of(s@),
{
    if pat.len() > s.len() {
        return false;
    }
    matches_at(s, s.len() - pat.len(), pat)
}

/// Index of the first occurrence of `pat` in `s` at or after `start`, or
/// `s.len()` when there is none.
pub fn find_from(s: &[u8], start: usize, pat: &[u8]) -> (r: usize)
    requires
        start <= s.len(),
    ensures
        r == start + find(s@.skip(start as int), pat@),
        start <= r <= s.len(),
{
    let ghost t = s@.skip(start as int);
    if pat.len() == 0 {
        assert(pat@.is_prefix_of(t));
        return start;
    }
    let mut i: usize = start;
    while i < s.len()
        invariant
            pat.len() > 0,
            start <= i <= s.len(),
            t == s@.skip(start as int),
            forall|j: int| 0 <= j < i - start ==> !occurs_at(t, j, pat@),
        decreases s.len() - i,
    {
        if matches_at(s, i, pat) {
            proof {
                assert(t.subrange(i - start, i - start + pat.len()) =~= s@.subrange(
                    i as int,
                    i + pat.len(),
                ));
                lemma_find_is(t, pat@, i - start);
            }
            return i;
        }
        proof {
            if occurs_at(t, i - start, pat@) {
                assert(t.subrange(i - start, i - start + pat.len()) =~= s@.subrange(
                    i as int,
                    i + pat.len(),
                ));
            }
        }
        i += 1;
    }
    proof {
        lemma_find_is(t, pat@, s.len() - start);
    }
    s.len()
}

/// Index of the first occurrence of `pat` in `s`, or `s.len()` when there
/// is none.
pub fn find_first(s: &[u8], pat: &[u8]) -> (r: usize)
    ensures
        r == find(s@, pat@),
        r <= s.len(),
{
    assert(s@.skip(0) =~= s@);
    find_from(s, 0, pat)
}

/// The pieces of `s` between occurrences of the separator `pat`. With an
/// empty separator `s` is the one piece.
pub fn split_on<'a>(s: &'a [u8], pat: &[u8]) -> (r: Vec<&'a [u8]>)
    ensures
        views_of(r@) == split(s@, pat@),
        r@.len() >= 1,
{
    let mut out: Vec<&'a [u8]> = Vec::new();
    if pat.len() == 0 {
        out.push(s);
        assert(views_of(out@) =~= seq![s@]);
        return out;
    }
    let mut pos: usize = 0;
    assert(s@.skip(0) =~= s@);
    assert(views_of(out@) =~= Seq::<Seq<u8>>::empty());
    loop
        invariant
            pat.len() > 0,
            pos <= s.len(),
            split(s@, pat@) == views_of(out@) + split(s@.skip(pos as int), pat@),
        decreases s.len() - pos,
    {
        let i = find_from(s, pos, pat);
        let ghost rest = s@.skip(pos as int);
        let ghost prev = views_of(out@);
        if i >= s.len() || pat.len() > s.len() - i {
            let piece = slice_subrange(s, pos, s.len());
            out.push(piece);
            proof {
                assert(piece@ =~= rest);
                assert(split(rest, pat@) == seq![rest]);
                assert(views_of(out@) =~= prev + seq![rest]);
            }
            return out;
        }
        let piece = slice_subrange(s, pos, i);
        out.push(piece);
        proof {
            assert(piece@ =~= rest.take(i - pos));
            assert(rest.skip(i - pos + pat.len()) =~= s@.skip(i + pat.len()));
            assert(views_of(out@) =~= prev + seq![rest.take(i - pos)]);
        }
        pos = i + pat.len();
    }
}

/// Whether `b` is a whitespace byte.
pub fn is_whitespace(b: u8) -> (r: bool)
    ensures
        r == is_ws(b),
{
    b == 32 || (9 <= b && b <= 13)
}

/// `s` without leading and trailing whitespace.
pub fn trimmed(s: &[u8]) -> (r: &[u8])
    ensures
        r@ == trim(s@),
{
    let mut a: usize = 0;
    while a < s.len() && is_whitespace(s[a])
        invariant
            a <= s.len(),
            forall|j: int| 0 <= j < a ==> is_ws(#[trigger] s@[j]),
        decreases s.len() - a,
    {
        a += 1;
    }
    let mut b: usize = s.len();
    while b > a && is_whitespace(s[b - 1])
        invariant
            a <= b <= s.len(),
            forall|j: int| b <= j < s.len() ==> is_ws(#[trigger] s@[j]),
        decreases b,
    {
        b -= 1;
    }
    proof {
        lemma_trim_start_is(s@, a as int);
        let t = s@.skip(a as int);
        assert forall|j: int| b - a <= j < t.len() implies is_ws(#[trigger] t[j]) by {
            assert(t[j] == s@[j + a]);
        }
        lemma_trim_end_is(t, b - a);
        assert(t.take(b - a) =~= s@.subrange(a as int, b as int));
    }
    slice_subrange(s, a, b)
}

/// The lower-case form of one byte.
pub fn to_lower_byte(b: u8) -> (r: u8)
    ensures
        r == lower_byte(b),
{
    if 65 <= b && b <= 90 {
        b + 32
    } else {
        b
    }
}

/// `s` with its ASCII letters in lower case.
pub fn to_lower(s: &[u8]) -> (r: Vec<u8>)
    ensures
        r@ == lower(s@),
{
    let mut out: Vec<u8> = Vec::new();
    let mut i: usize = 0;
    while i < s.len()
        invariant
            i <= s.len(),
            out@.len() == i,
            forall|j: int| 0 <= j < i ==> out@[j] == lower_byte(s@[j]),
        decreases s.len() - i,
    {
        out.push(to_lower_byte(s[i]));
        i += 1;
    }
    assert(out@ =~= lower(s@));
    out
}

/// Whether `a` and `b` are equal up to the case of ASCII letters.
pub fn equals_ignore_case(a: &[u8], b: &[u8]) -> (r: bool)
    ensures
        r == eq_ignore_case(a@, b@),
{
    if a.len() != b.len() {
        assert(lower(a@).len() != lower(b@).len());
        return false;
    }
    let mut i: usize = 0;
    while i < a.len()
        invariant
            a.len() == b.len(),
            i <= a.len(),
            forall|j: int| 0 <= j < i ==> lower_byte(a@[j]) == lower_byte(b@[j]),
        decreases a.len() - i,
    {
        if to_lower_byte(a[i]) != to_lower_byte(b[i]) {
            assert(lower(a@)[i as int] != lower(b@)[i as int]);
            return false;
        }
        i += 1;
    }
    assert(lower(a@) =~= lower(b@));
    true
}

/// The decimal digits of `n` as ASCII bytes.
pub fn decimal_digits(n: usize) -> (r: Vec<u8>)
    ensures
        r@ == decimal(n as nat),
    decreases n,
{
    if n < 10 {
        let mut out: Vec<u8> = Vec::new();
        out.push(48 + n as u8);
        assert(out@ =~= decimal(n as nat));
        out
    } else {
        let mut out = decimal_digits(n / 10);
        out.push(48 + (n % 10) as u8);
        out
    }
}

} // verus!

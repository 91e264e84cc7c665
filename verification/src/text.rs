//! Octet-string primitives shared by the codecs: literals, search and
//! trimming. Text on the wire is carried as octets throughout.

use vstd::prelude::*;
use vstd::string::*;

verus! {

/// The octets of an ASCII character sequence.
pub open spec fn ascii(s: Seq<char>) -> Seq<u8> {
    Seq::new(s.len(), |i: int| s[i] as u8)
}

/// The octets of an ASCII string literal.
pub(crate) fn lit(s: &str) -> (r: &[u8])
    requires
        is_ascii(s),
    ensures
        r@ == ascii(s@),
{
    broadcast use is_ascii_spec_bytes;

    s.as_bytes()
}

/// Octet-wise equality of two slices.
pub fn bytes_eq(a: &[u8], b: &[u8]) -> (r: bool)
    ensures
        r == (a@ == b@),
{
    if a.len() != b.len() {
        return false;
    }
    let mut i: usize = 0;
    while i < a.len()
        invariant
            i <= a.len(),
            a.len() == b.len(),
            forall|j: int| 0 <= j < i ==> a@[j] == b@[j],
        decreases a.len() - i,
    {
        if a[i] != b[i] {
            return false;
        }
        i += 1;
    }
    assert(a@ =~= b@);
    true
}

/// An owned copy of a slice.
pub fn to_vec(s: &[u8]) -> (r: Vec<u8>)
    ensures
        r@ == s@,
{
    let mut v: Vec<u8> = Vec::new();
    v.extend_from_slice(s);
    v
}

/// Appends the octets of `s` to `out`.
pub fn append(out: &mut Vec<u8>, s: &[u8])
    ensures
        final(out)@ == old(out)@ + s@,
{
    out.extend_from_slice(s);
    assert(out@ =~= old(out)@ + s@);
}

/// A text begins with `a` followed by `b` exactly when it begins with `a`
/// and goes on with `b`.
pub proof fn lemma_prefix_concat(a: Seq<u8>, b: Seq<u8>, l: Seq<u8>)
    ensures
        (a + b).is_prefix_of(l) <==> (a.is_prefix_of(l) && b.is_prefix_of(l.skip(a.len() as int))),
{
    if (a + b).is_prefix_of(l) {
        assert(a =~= l.subrange(0, a.len() as int)) by {
            assert forall|i: int| 0 <= i < a.len() implies a[i] == l[i] by {
                assert((a + b)[i] == l[i]);
            }
        }
        assert(b =~= l.skip(a.len() as int).subrange(0, b.len() as int)) by {
            assert forall|i: int| 0 <= i < b.len() implies b[i] == l[a.len() + i] by {
                assert((a + b)[a.len() + i] == l[a.len() + i]);
            }
        }
    }
    if a.is_prefix_of(l) && b.is_prefix_of(l.skip(a.len() as int)) {
        assert(a + b =~= l.subrange(0, (a + b).len() as int)) by {
            assert forall|i: int| 0 <= i < (a + b).len() implies (a + b)[i] == l[i] by {
                if i < a.len() {
                    assert(a[i] == l.subrange(0, a.len() as int)[i]);
                } else {
                    assert(b[i - a.len()] == l.skip(a.len() as int).subrange(0, b.len() as int)[i
                        - a.len()]);
                }
            }
        }
    }
}

/// `pat` occurs in `s` at offset `i`.
pub open spec fn matches_at(s: Seq<u8>, pat: Seq<u8>, i: int) -> bool {
    0 <= i && i + pat.len() <= s.len() && s.subrange(i, i + pat.len()) == pat
}

/// `i` is the offset of the leftmost occurrence of `pat` in `s`.
pub open spec fn is_first_match(s: Seq<u8>, pat: Seq<u8>, i: int) -> bool {
    matches_at(s, pat, i) && forall|j: int| 0 <= j < i ==> !matches_at(s, pat, j)
}

/// The offset of the leftmost occurrence of `pat` in `s`, if there is one.
pub open spec fn first_match(s: Seq<u8>, pat: Seq<u8>) -> Option<int> {
    if exists|i: int| is_first_match(s, pat, i) {
        Some(choose|i: int| is_first_match(s, pat, i))
    } else {
        None
    }
}

/// The leftmost occurrence is unique, so any witness is the chosen one.
pub proof fn lemma_first_match_is(s: Seq<u8>, pat: Seq<u8>, i: int)
    requires
        is_first_match(s, pat, i),
    ensures
        first_match(s, pat) == Some(i),
{
    let k = choose|k: int| is_first_match(s, pat, k);
    if k < i {
        assert(!matches_at(s, pat, k));
    } else if i < k {
        assert(!matches_at(s, pat, i));
    }
}

/// Without any occurrence there is no leftmost one.
pub proof fn lemma_first_match_none(s: Seq<u8>, pat: Seq<u8>)
    requires
        forall|j: int| !matches_at(s, pat, j),
    ensures
        first_match(s, pat) is None,
{
}

/// What `first_match` returns is a leftmost occurrence; `None` means no
/// occurrence at all.
pub proof fn lemma_first_match_sound(s: Seq<u8>, pat: Seq<u8>)
    ensures
        first_match(s, pat) matches Some(i) ==> is_first_match(s, pat, i),
        first_match(s, pat) is None ==> forall|j: int| !matches_at(s, pat, j),
{
    if first_match(s, pat) is None {
        assert forall|j: int| !matches_at(s, pat, j) by {
            if matches_at(s, pat, j) {
                lemma_leftmost_exists(s, pat, j);
            }
        }
    }
}

/// An occurrence at `j` implies a leftmost occurrence at or before `j`.
pub proof fn lemma_leftmost_exists(s: Seq<u8>, pat: Seq<u8>, j: int)
    requires
        matches_at(s, pat, j),
    ensures
        exists|i: int| 0 <= i <= j && is_first_match(s, pat, i),
    decreases j,
{
    if exists|k: int| 0 <= k < j && matches_at(s, pat, k) {
        let k = choose|k: int| 0 <= k < j && matches_at(s, pat, k);
        lemma_leftmost_exists(s, pat, k);
        let i = choose|i: int| 0 <= i <= k && is_first_match(s, pat, i);
        assert(0 <= i <= j && is_first_match(s, pat, i));
    } else {
        assert(is_first_match(s, pat, j));
    }
}

/// Appending octets does not move a leftmost occurrence that is already
/// there.
pub proof fn lemma_first_match_append(s: Seq<u8>, t: Seq<u8>, pat: Seq<u8>)
    requires
        first_match(s, pat) is Some,
    ensures
        first_match(s + t, pat) == first_match(s, pat),
{
    lemma_first_match_sound(s, pat);
    let i = first_match(s, pat)->0;
    assert((s + t).subrange(i, i + pat.len()) =~= s.subrange(i, i + pat.len()));
    assert forall|j: int| 0 <= j < i implies !matches_at(s + t, pat, j) by {
        assert(!matches_at(s, pat, j));
        assert((s + t).subrange(j, j + pat.len()) =~= s.subrange(j, j + pat.len()));
    }
    lemma_first_match_is(s + t, pat, i);
}

fn matches_here(s: &[u8], pat: &[u8], i: usize) -> (r: bool)
    requires
        i + pat@.len() <= s@.len(),
    ensures
        r == matches_at(s@, pat@, i as int),
{
    let n: usize = s.len();
    let mut k: usize = 0;
    while k < pat.len()
        invariant
            k <= pat.len(),
            i + pat@.len() <= s@.len(),
            s@.len() == n,
            forall|j: int| 0 <= j < k ==> s@[i + j] == pat@[j],
        decreases pat.len() - k,
    {
        if s[i + k] != pat[k] {
            assert(s@.subrange(i as int, i + pat@.len())[k as int] != pat@[k as int]);
            return false;
        }
        k += 1;
    }
    assert(s@.subrange(i as int, i + pat@.len()) =~= pat@);
    true
}

/// Finds the leftmost occurrence of `pat` in `s`.
pub fn find(s: &[u8], pat: &[u8]) -> (r: Option<usize>)
    ensures
        r matches Some(i) ==> first_match(s@, pat@) == Some(i as int),
        r is None ==> first_match(s@, pat@) is None,
{
    if pat.len() > s.len() {
        proof {
            lemma_first_match_none(s@, pat@);
        }
        return None;
    }
    let last: usize = s.len() - pat.len();
    let mut i: usize = 0;
    loop
        invariant
            i <= last,
            last == s@.len() - pat@.len(),
            forall|j: int| 0 <= j < i ==> !matches_at(s@, pat@, j),
        decreases last - i,
    {
        if matches_here(s, pat, i) {
            proof {
                lemma_first_match_is(s@, pat@, i as int);
            }
            return Some(i);
        }
        if i == last {
            proof {
                lemma_first_match_none(s@, pat@);
            }
            return None;
        }
        i += 1;
    }
}

/// `s` cut at the leftmost occurrence of `pat`: what precedes it and what
/// follows it.
pub open spec fn split_once(s: Seq<u8>, pat: Seq<u8>) -> Option<(Seq<u8>, Seq<u8>)> {
    match first_match(s, pat) {
        Some(i) => Some((s.take(i), s.skip(i + pat.len()))),
        None => None,
    }
}

/// Cuts `s` at the leftmost occurrence of `pat`.
pub fn cut<'a>(s: &'a [u8], pat: &[u8]) -> (r: Option<(&'a [u8], &'a [u8])>)
    ensures
        r is Some <==> split_once(s@, pat@) is Some,
        r matches Some((head, tail)) ==> split_once(s@, pat@) == Some((head@, tail@)),
{
    match find(s, pat) {
        Some(i) => {
            proof {
                lemma_first_match_sound(s@, pat@);
            }
            let n: usize = s.len();
            let head = vstd::slice::slice_subrange(s, 0, i);
            let tail = vstd::slice::slice_subrange(s, i + pat.len(), s.len());
            Some((head, tail))
        },
        None => None,
    }
}

/// Whether `pat` occurs anywhere in `s`.
pub fn contains(s: &[u8], pat: &[u8]) -> (r: bool)
    ensures
        r == first_match(s@, pat@) is Some,
{
    find(s, pat).is_some()
}

/// Whether `s` ends with `pat`.
pub fn ends_with(s: &[u8], pat: &[u8]) -> (r: bool)
    ensures
        r == (pat@.len() <= s@.len() && s@.skip(s@.len() - pat@.len()) == pat@),
{
    if pat.len() > s.len() {
        return false;
    }
    let start: usize = s.len() - pat.len();
    let r = matches_here(s, pat, start);
    assert(s@.skip(start as int) =~= s@.subrange(start as int, start + pat@.len()));
    r
}

/// White space as trimming understands it: the space and the controls from
/// horizontal tab to carriage return.
pub open spec fn is_space(b: u8) -> bool {
    b == 32 || (9 <= b && b <= 13)
}

/// How many octets of white space `s` begins with.
pub open spec fn leading_spaces(s: Seq<u8>) -> nat
    decreases s.len(),
{
    if s.len() > 0 && is_space(s[0]) {
        1 + leading_spaces(s.skip(1))
    } else {
        0
    }
}

/// How many octets of white space `s` ends with.
pub open spec fn trailing_spaces(s: Seq<u8>) -> nat
    decreases s.len(),
{
    if s.len() > 0 && is_space(s.last()) {
        1 + trailing_spaces(s.drop_last())
    } else {
        0
    }
}

/// `s` without its leading white space.
pub open spec fn trim_start(s: Seq<u8>) -> Seq<u8> {
    s.skip(leading_spaces(s) as int)
}

/// `s` without its trailing white space.
pub open spec fn trim_end(s: Seq<u8>) -> Seq<u8> {
    s.take(s.len() - trailing_spaces(s))
}

/// `s` without white space at either end.
pub open spec fn trim(s: Seq<u8>) -> Seq<u8> {
    trim_end(trim_start(s))
}

/// `s` neither begins nor ends with white space.
pub open spec fn is_trimmed(s: Seq<u8>) -> bool {
    s.len() > 0 ==> !is_space(s[0]) && !is_space(s.last())
}

fn space(b: u8) -> (r: bool)
    ensures
        r == is_space(b),
{
    b == 32 || (9 <= b && b <= 13)
}

/// Every octet of `s` is white space.
pub open spec fn all_spaces(s: Seq<u8>) -> bool {
    forall|i: int| 0 <= i < s.len() ==> is_space(#[trigger] s[i])
}

/// The leading white space of `s` is the longest run of white space that
/// `s` begins with.
pub proof fn lemma_leading_spaces(s: Seq<u8>, k: int)
    requires
        0 <= k <= s.len(),
        all_spaces(s.take(k)),
        k < s.len() ==> !is_space(s[k]),
    ensures
        leading_spaces(s) == k,
    decreases k,
{
    if k > 0 {
        assert(is_space(s.take(k)[0]));
        assert forall|i: int| 0 <= i < k - 1 implies is_space(#[trigger] s.skip(1).take(k - 1)[i]) by {
            assert(is_space(s.take(k)[i + 1]));
        }
        lemma_leading_spaces(s.skip(1), k - 1);
    }
}

/// The trailing white space of `s` is the longest run of white space that
/// `s` ends with.
pub proof fn lemma_trailing_spaces(s: Seq<u8>, k: int)
    requires
        0 <= k <= s.len(),
        all_spaces(s.skip(s.len() - k)),
        k < s.len() ==> !is_space(s[s.len() - k - 1]),
    ensures
        trailing_spaces(s) == k,
    decreases k,
{
    if k > 0 {
        assert(is_space(s.skip(s.len() - k)[k - 1]));
        let t = s.drop_last();
        assert forall|i: int| 0 <= i < k - 1 implies is_space(
            #[trigger] t.skip(t.len() - (k - 1))[i],
        ) by {
            assert(is_space(s.skip(s.len() - k)[i]));
        }
        lemma_trailing_spaces(t, k - 1);
    }
}

/// The leading white space ends within `s`, before an octet that is none.
pub proof fn lemma_leading_ends(s: Seq<u8>)
    ensures
        leading_spaces(s) <= s.len(),
        leading_spaces(s) < s.len() ==> !is_space(s[leading_spaces(s) as int]),
    decreases s.len(),
{
    if s.len() > 0 && is_space(s[0]) {
        lemma_leading_ends(s.skip(1));
    }
}

/// The trailing white space begins within `s`, after an octet that is
/// none.
pub proof fn lemma_trailing_begins(s: Seq<u8>)
    ensures
        trailing_spaces(s) <= s.len(),
        trailing_spaces(s) < s.len() ==> !is_space(s[s.len() - trailing_spaces(s) - 1]),
    decreases s.len(),
{
    if s.len() > 0 && is_space(s.last()) {
        lemma_trailing_begins(s.drop_last());
    }
}

/// What trimming leaves is trimmed.
pub proof fn lemma_trim_is_trimmed(s: Seq<u8>)
    ensures
        is_trimmed(trim(s)),
{
    lemma_leading_ends(s);
    let t = trim_start(s);
    lemma_trailing_begins(t);
}

/// What is trimmed comes back from any padding of white space.
pub proof fn lemma_trim_padded(before: Seq<u8>, t: Seq<u8>, after: Seq<u8>)
    requires
        all_spaces(before),
        all_spaces(after),
        is_trimmed(t),
    ensures
        trim(before + t + after) == t,
{
    let s = before + t + after;
    if t.len() == 0 {
        assert(s.take(s.len() as int) =~= s);
        assert forall|i: int| 0 <= i < s.len() implies is_space(#[trigger] s[i]) by {
            if i < before.len() {
                assert(is_space(before[i]));
            } else {
                assert(is_space(after[i - before.len()]));
            }
        }
        lemma_leading_spaces(s, s.len() as int);
        assert(trim_start(s) =~= Seq::<u8>::empty());
        assert(trim(s) =~= t);
    } else {
        assert(s.take(before.len() as int) =~= before);
        assert(s[before.len() as int] == t[0]);
        lemma_leading_spaces(s, before.len() as int);
        let rest = t + after;
        assert(trim_start(s) =~= rest);
        assert(rest.skip(rest.len() - after.len()) =~= after);
        assert(rest[rest.len() - after.len() - 1] == t.last());
        lemma_trailing_spaces(rest, after.len() as int);
        assert(trim_end(rest) =~= t);
    }
}

/// Removes the white space at both ends of `s`.
pub fn trimmed(s: &[u8]) -> (r: &[u8])
    ensures
        r@ == trim(s@),
{
    let n: usize = s.len();
    let mut a: usize = 0;
    assert(s@.skip(0) =~= s@);
    while a < n && space(s[a])
        invariant
            a <= n,
            n == s@.len(),
            leading_spaces(s@) == a + leading_spaces(s@.skip(a as int)),
        decreases n - a,
    {
        assert(s@.skip(a as int).skip(1) =~= s@.skip(a + 1));
        a += 1;
    }
    let t = vstd::slice::slice_subrange(s, a, n);
    assert(t@ =~= trim_start(s@));
    let m: usize = n - a;
    let mut b: usize = m;
    assert(t@.take(m as int) =~= t@);
    while b > 0 && space(t[b - 1])
        invariant
            b <= m,
            m == t@.len(),
            trailing_spaces(t@) == (m - b) + trailing_spaces(t@.take(b as int)),
        decreases b,
    {
        assert(t@.take(b as int).drop_last() =~= t@.take(b - 1));
        b -= 1;
    }
    let r = vstd::slice::slice_subrange(t, 0, b);
    assert(r@ =~= trim_end(t@));
    r
}

/// Whether the octets are well-formed UTF-8, as `std::str::from_utf8`
/// judges them: it accepts exactly the well-formed encodings.
#[verifier::external_body]
pub(crate) fn is_utf8(s: &[u8]) -> (r: bool)
    ensures
        r == vstd::utf8::valid_utf8(s@),
{
    std::str::from_utf8(s).is_ok()
}

/// `i` is the position of the last occurrence of the octet `b` in `s`.
pub open spec fn is_last_octet(s: Seq<u8>, b: u8, i: int) -> bool {
    0 <= i < s.len() && s[i] == b && forall|j: int| i < j < s.len() ==> s[j] != b
}

/// The position of the last occurrence of the octet `b` in `s`, if any.
pub open spec fn last_octet(s: Seq<u8>, b: u8) -> Option<int> {
    if exists|i: int| is_last_octet(s, b, i) {
        Some(choose|i: int| is_last_octet(s, b, i))
    } else {
        None
    }
}

/// The last occurrence is unique, so any witness is the chosen one.
pub proof fn lemma_last_octet_is(s: Seq<u8>, b: u8, i: int)
    requires
        is_last_octet(s, b, i),
    ensures
        last_octet(s, b) == Some(i),
{
    let k = choose|k: int| is_last_octet(s, b, k);
    if k < i {
        assert(s[i] != b);
    } else if i < k {
        assert(s[k] != b);
    }
}

/// Finds the last occurrence of the octet `b` in `s`.
pub fn rfind_octet(s: &[u8], b: u8) -> (r: Option<usize>)
    ensures
        r matches Some(i) ==> last_octet(s@, b) == Some(i as int) && i < s@.len(),
        r is None ==> last_octet(s@, b) is None && forall|j: int| 0 <= j < s@.len() ==> s@[j] != b,
{
    let mut i: usize = s.len();
    while i > 0
        invariant
            i <= s@.len(),
            forall|j: int| i <= j < s@.len() ==> s@[j] != b,
        decreases i,
    {
        i -= 1;
        if s[i] == b {
            proof {
                lemma_last_octet_is(s@, b, i as int);
            }
            return Some(i);
        }
    }
    None
}

} // verus!

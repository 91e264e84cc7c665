//! Prefix-discarding primitives over octet strings.

use vstd::prelude::*;

verus! {

/// Strips `to_find` from the front of `s`.
///
/// Succeeds exactly when `s` begins with `to_find`, and then returns what
/// follows it.
pub fn discard_string<'a>(to_find: &[u8], s: &'a [u8]) -> (r: Result<&'a [u8], ()>)
    ensures
        r is Ok <==> to_find@.is_prefix_of(s@),
        r matches Ok(rest) ==> rest@ == s@.skip(to_find@.len() as int),
{
    if to_find.len() > s.len() {
        return Err(());
    }
    let mut i: usize = 0;
    while i < to_find.len()
        invariant
            i <= to_find.len() <= s.len(),
            forall|j: int| 0 <= j < i ==> to_find@[j] == s@[j],
        decreases to_find.len() - i,
    {
        if to_find[i] != s[i] {
            assert(to_find@[i as int] != s@.subrange(0, to_find@.len() as int)[i as int]);
            return Err(());
        }
        i += 1;
    }
    assert(to_find@ =~= s@.subrange(0, to_find@.len() as int));
    let rest = vstd::slice::slice_subrange(s, to_find.len(), s.len());
    Ok(rest)
}

/// Strips the single octet `to_find` from the front of `s`.
///
/// Succeeds exactly when `s` is non-empty and begins with `to_find`.
pub fn discard_char(to_find: u8, s: &[u8]) -> (r: Result<&[u8], ()>)
    ensures
        r is Ok <==> (s@.len() > 0 && s@[0] == to_find),
        r matches Ok(rest) ==> rest@ == s@.skip(1),
{
    if s.len() > 0 && s[0] == to_find {
        Ok(vstd::slice::slice_subrange(s, 1, s.len()))
    } else {
        Err(())
    }
}

} // verus!

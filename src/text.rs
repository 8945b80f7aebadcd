//! Conversions between strings and character vectors.
use vstd::prelude::*;

verus! {

/// The views of a sequence of strings.
pub open spec fn strings_view(v: Seq<String>) -> Seq<Seq<char>> {
    v.map_values(|s: String| s@)
}

/// Relies on `str::chars`: it yields the characters of the string in order.
#[verifier::external_body]
pub(crate) fn chars_of(s: &str) -> (r: Vec<char>)
    ensures
        r@ == s@,
{
    s.chars().collect()
}

/// Relies on `FromIterator<&char>` for `String`: it appends each character in order.
#[verifier::external_body]
pub(crate) fn string_of(v: &[char]) -> (r: String)
    ensures
        r@ == v@,
{
    v.iter().collect()
}

/// Appends the characters of `s` to `v`.
pub fn push_str_chars(v: &mut Vec<char>, s: &str)
    ensures
        final(v)@ == old(v)@ + s@,
{
    let cs = chars_of(s);
    let mut i: usize = 0;
    while i < cs.len()
        invariant
            i <= cs@.len(),
            cs@ == s@,
            v@ == old(v)@ + cs@.subrange(0, i as int),
        decreases cs@.len() - i,
    {
        v.push(cs[i]);
        i = i + 1;
        assert(cs@.subrange(0, i as int) == cs@.subrange(0, i - 1) .push(cs@[i - 1]));
    }
    assert(cs@.subrange(0, cs@.len() as int) == cs@);
}

} // verus!

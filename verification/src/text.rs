//! Character sequences: the library's string type and conversions at its edge.
use vstd::prelude::*;

verus! {

/// Converts a string slice into the sequence of its characters.
/// Wraps `str::chars` collected into a `Vec`; the contract claims the result
/// holds exactly the characters of `s`, in order, and that it fits in the
/// `isize::MAX` bytes that a `Vec` may hold.
#[verifier::external_body]
pub fn chars_of(s: &str) -> (r: Vec<char>)
    ensures
        r@ == s@,
        4 * r@.len() <= isize::MAX,
{
    s.chars().collect()
}

/// Builds a `String` from a sequence of characters.
/// Wraps `Iterator::collect::<String>` over the characters; the contract
/// claims the resulting string holds exactly the given characters.
#[verifier::external_body]
pub fn string_of(v: &Vec<char>) -> (r: String)
    ensures
        r@ == v@,
{
    v.iter().collect()
}

/// Whether two character sequences are equal.
pub fn chars_eq(a: &Vec<char>, b: &Vec<char>) -> (r: bool)
    ensures
        r == (a@ == b@),
{
    if a.len() != b.len() {
        return false;
    }
    let mut i: usize = 0;
    while i < a.len()
        invariant
            a.len() == b.len(),
            i <= a.len(),
            forall|j: int| 0 <= j < i ==> a@[j] == b@[j],
        decreases a.len() - i,
    {
        if a[i] != b[i] {
            return false;
        }
        i = i + 1;
    }
    assert(a@ =~= b@);
    true
}

} // verus!

//! Small string helpers shared by the menu and the launcher.

use vstd::prelude::*;

verus! {

/// What `str::trim` returns for a given sequence of characters: the sequence
/// with leading and trailing whitespace removed. The result depends on the
/// characters alone.
pub uninterp spec fn trim_of(s: Seq<char>) -> Seq<char>;

/// Relies on `str::trim`: returns the slice with leading and trailing
/// whitespace removed, a function of the characters alone.
#[verifier::external_body]
pub fn trim_str<'a>(s: &'a str) -> (r: &'a str)
    ensures
        r@ == trim_of(s@),
{
    s.trim()
}

/// String-slice equality, decided through owned strings so that the
/// comparison carries a specification.
pub fn str_eq(a: &str, b: &str) -> (r: bool)
    ensures
        r == (a@ == b@),
{
    let x: String = a.to_owned();
    let y: String = b.to_owned();
    x == y
}

} // verus!

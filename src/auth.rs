//! The outcome of an authentication, and the errors an authenticator reports.
use vstd::prelude::*;

verus! {

/// Why an authentication did not produce a result.
#[derive(Debug, PartialEq, Eq)]
pub enum Error {
    /// The credentials were not accepted. Deliberately says nothing about why.
    AuthenticationFailure,
    /// A configuration, connectivity or templating problem, with its detail.
    GenericError(String),
}

/// A projected claim: an attribute name and its list of values.
pub type Claim = (String, Vec<String>);

/// The view of a list of strings.
pub open spec fn strings_view(v: Seq<String>) -> Seq<Seq<char>> {
    v.map_values(|s: String| s@)
}

/// The view of a list of claims or of directory attributes.
pub open spec fn claims_view(v: Seq<Claim>) -> Seq<(Seq<char>, Seq<Seq<char>>)> {
    v.map_values(|c: Claim| (c.0@, strings_view(c.1@)))
}

/// Returns a copy of a list of strings.
pub fn copy_strings(v: &Vec<String>) -> (r: Vec<String>)
    ensures
        r@ == v@,
{
    let mut r: Vec<String> = Vec::new();
    let mut i: usize = 0;
    while i < v.len()
        invariant
            i <= v@.len(),
            r@ == v@.subrange(0, i as int),
        decreases v@.len() - i,
    {
        r.push(v[i].clone());
        assert(r@ =~= v@.subrange(0, i + 1 as int));
        i = i + 1;
    }
    assert(r@ =~= v@);
    r
}

} // verus!

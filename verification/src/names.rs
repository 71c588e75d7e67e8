//! Names as they are used in addresses.

use crate::text::{chars_of, lowercase, lowercased, replaced, string_of};
use vstd::prelude::*;

verus! {

/// A name in lowercase, with an underscore for every space.
pub open spec fn sanitized(name: Seq<char>) -> Seq<char> {
    replaced(lowercased(name), ' ', '_')
}

/// `v` with an underscore for every space.
pub fn underscore(v: &Vec<char>) -> (out: Vec<char>)
    ensures
        out@ == replaced(v@, ' ', '_'),
{
    let mut out: Vec<char> = Vec::new();
    let mut i: usize = 0;
    while i < v.len()
        invariant
            i <= v.len(),
            out.len() == i,
            forall|k: int| 0 <= k < i ==> out@[k] == replaced(v@, ' ', '_')[k],
        decreases v.len() - i,
    {
        let c = v[i];
        out.push(
            if c == ' ' {
                '_'
            } else {
                c
            },
        );
        i += 1;
    }
    out
}

/// The name in lowercase, with an underscore for every space.
pub fn sanitize_name(name: &str) -> (s: String)
    ensures
        s@ == sanitized(name@),
{
    let lowered = lowercase(name);
    let v = chars_of(lowered.as_str());
    string_of(&underscore(&v))
}

} // verus!

//! The parameters that requests carry, and their defaults.

use vstd::prelude::*;

verus! {

/// The root index of a request.
#[derive(Clone, Copy, Debug, PartialEq, Eq, Structural)]
pub struct RootQuery {
    /// Index of the root directory the request is about.
    pub root: usize,
}

/// The page shown when a view request names none: the first.
pub fn default_page() -> (r: u32)
    ensures
        r == 1,
{
    1
}

/// The root used when a request names none: the first.
pub fn default_root_index() -> (r: usize)
    ensures
        r == 0,
{
    0
}

/// The root index that a request selects.
pub fn get_root_index_from_query(params: &RootQuery) -> (r: usize)
    ensures
        r == params.root,
{
    params.root
}

impl Default for RootQuery {
    fn default() -> (r: RootQuery)
        ensures
            r.root == 0,
    {
        RootQuery { root: default_root_index() }
    }
}

} // verus!

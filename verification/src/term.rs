use vstd::prelude::*;

verus! {

/// The kind tag of a catalog term: only transform terms exist.
#[derive(Clone, Copy, Debug, Eq, PartialEq, Ord, PartialOrd, Hash, Structural)]
pub enum RHashType {
    Transform,
}

impl Default for RHashType {
    fn default() -> (r: RHashType)
        ensures
            r == RHashType::Transform,
    {
        RHashType::Transform
    }
}

/// A catalog term: a transform applied to a named reference.
#[derive(Clone, Debug, PartialEq, Default)]
pub struct Term {
    pub r_type: RHashType,
    pub transform: String,
    pub term: String,
}

impl Term {
    pub fn new(r_type: RHashType, transform: String, term: String) -> (t: Term)
        ensures
            t.r_type == r_type,
            t.transform == transform,
            t.term == term,
    {
        Term { r_type, transform, term }
    }
}

} // verus!

use vstd::prelude::*;

verus! {

/// An opaque 128-bit record identifier, carried as two plain halves so that
/// contracts can compare identifiers structurally.
#[derive(Debug, Clone, Copy, PartialEq, Eq, Hash, Structural)]
pub struct Id {
    pub hi: u64,
    pub lo: u64,
}

impl Id {
    pub fn from_parts(hi: u64, lo: u64) -> (r: Id)
        ensures
            r.hi == hi,
            r.lo == lo,
    {
        Id { hi, lo }
    }
}

/// Relies on uuid::Uuid::new_v4 (with Uuid::as_u64_pair) to draw a fresh
/// random version-4 identifier. The result is random, so nothing is promised
/// of its value.
#[verifier::external_body]
pub fn fresh_id() -> Id {
    let (hi, lo) = uuid::Uuid::new_v4().as_u64_pair();
    Id { hi, lo }
}

} // verus!

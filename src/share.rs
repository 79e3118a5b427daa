use vstd::prelude::*;

verus! {

/// A recorded share of an enrollment; `created_at` is in microseconds since the Unix epoch.
#[derive(Clone, Copy, Debug, PartialEq, Eq, Structural)]
pub struct Share {
    pub id: i64,
    pub enrollment_id: i64,
    pub created_at: i64,
}

} // verus!

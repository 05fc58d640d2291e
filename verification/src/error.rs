use vstd::prelude::*;

verus! {

/// The one failure this crate reports: the supplied byte sequence cannot be
/// treated as a single encoded character (its length is outside 1..=4).
#[derive(Debug, Clone, Copy, PartialEq, Eq, Structural)]
pub struct RepcError;

} // verus!

//! Bounded, index-addressed byte segments, a growable segment variant, and a
//! router that writes sequenced voice payloads straight into a segment's raw
//! account bytes.
use vstd::prelude::*;

pub mod layout;
pub mod storage;
pub mod growable;
pub mod router;

verus! {

} // verus!

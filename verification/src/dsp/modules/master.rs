//! Placeholder for unoccupied slots.

use vstd::prelude::*;

verus! {

/// Zero-cost placeholder for an unoccupied slot; it reports
/// `ModuleType::Empty` so callers can tell empty slots from the Master bus.
pub struct EmptyModule;

} // verus!

//! Diagnostic event counting: the trait a countable event type implements.
//!
//! This is orthogonal instrumentation, independent of the boot path: an
//! enumerated event type maps to a fixed set of counters, and counting an
//! event bumps the counter for its variant.

use vstd::prelude::*;

verus! {

/// A countable event.
pub trait Count {
    /// A type that counts occurrences of this event.
    type Counters;

    /// Initializer for a new set of counters.
    ///
    /// The value of each counter in this constant should be 0.
    const NEW_COUNTERS: Self::Counters;

    /// Increment the counter for this event.
    fn count(&self, counters: &Self::Counters);
}

} // verus!

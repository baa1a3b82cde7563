//! Cooperative cancellation flags shared with the threads that request it.
use vstd::prelude::*;
use std::sync::atomic::{AtomicBool, Ordering};

verus! {

/// Reads a cancellation flag. Another thread may set it at any time, so
/// nothing is known of the value read.
pub fn cancel_requested(cancel: &AtomicBool) -> bool {
    cancel.load(Ordering::Relaxed)
}

} // verus!

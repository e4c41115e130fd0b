//! An in-process toast notification queue.
//!
//! The queue owns an ordered list of notification records, hands out
//! monotonically increasing identifiers, enforces a capacity ceiling with an
//! eviction policy that prefers transient records over permanent ones, and
//! tracks per-record expiry against an explicit clock.  A presentation layer
//! reads the record list, animates each entry, and calls back to remove a
//! record once its exit transition has finished.

pub mod laws;
pub mod model;
pub mod toast;

pub use toast::{
    ToastItem, ToastOptions, ToastType, Toasts, DEFAULT_DURATION_MS, DEFAULT_MAX_TOASTS,
};

//! The icons of the design system, as plain text.

use vstd::prelude::*;

verus! {

/// Success.
pub const OK: &'static str = "✓";

/// Failure.
pub const FAIL: &'static str = "✗";

/// Warning.
pub const WARN: &'static str = "⚠";

/// Information.
pub const INFO: &'static str = "ℹ";

/// A step or action.
pub const ARROW: &'static str = "→";

/// Skipped.
pub const SKIP: &'static str = "○";

/// Pending.
pub const PENDING: &'static str = "●";

/// Highlighted.
pub const STAR: &'static str = "★";

/// Selected.
pub const DIAMOND_FILLED: &'static str = "◆";

/// Not selected.
pub const DIAMOND_EMPTY: &'static str = "◇";

/// Running.
pub const PLAY: &'static str = "▶";

/// Refreshed or synced.
pub const REFRESH: &'static str = "↻";

/// An added line.
pub const ADD: &'static str = "+";

/// A removed line.
pub const REMOVE: &'static str = "-";

/// A changed line.
pub const CHANGE: &'static str = "~";

} // verus!

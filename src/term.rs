//! Terminal dimensions to fall back on when they cannot be detected.

use vstd::prelude::*;

verus! {

/// Columns assumed when the terminal width cannot be detected.
pub const DEFAULT_WIDTH: usize = 80;

/// Rows assumed when the terminal height cannot be detected.
pub const DEFAULT_HEIGHT: usize = 24;

} // verus!

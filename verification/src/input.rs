use vstd::prelude::*;

verus! {

/// The run configuration, fixed at start-up and immutable for the run.
pub struct Input {
    /// Announce that a tag occurred in the frame just rendered.
    pub print_announce: bool,
    /// Suppress the per-tick rendering of the full grid.
    pub disable_grid: bool,
    /// Number of agents.
    pub agents: usize,
    /// Number of ticks before the run finishes.
    pub moves: usize,
    /// Side length of the square grid.
    pub size: usize,
    /// Number of milliseconds between ticks.
    pub time: u64,
}

} // verus!

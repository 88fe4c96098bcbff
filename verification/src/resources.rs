use vstd::prelude::*;
use crate::entities::Status;
use crate::input::Input;
use crate::rng::fresh_small_rng;

verus! {

// Resources

/// Number of agents requested at start-up.
pub struct InputAgents(pub usize);

/// Milliseconds the driver waits between ticks.
pub struct InputTime(pub u64);

/// Side length of the square grid.
pub struct InputSize(pub usize);

/// Whether a notice accompanies each tag transfer.
pub struct InputAnnounceTag(pub bool);

/// Number of ticks before the driver stops.
pub struct InputMoves(pub usize);

/// Whether full-grid rendering is suppressed.
pub struct InputDisableGrid(pub bool);

/// Cumulative number of tag transfers; never decreases, never resets.
pub struct TagCount(pub u32);

impl Default for TagCount {
    fn default() -> (r: Self)
        ensures
            r.0 == 0,
    {
        TagCount(0)
    }
}

/// The random source consumed by start-up placement and by movement.
pub struct Random(pub rand::rngs::SmallRng);

/// Dense occupancy view of the grid: each cell holds the status of one
/// occupying agent, or nothing. Derived from the registry, never authoritative.
pub struct Grid(pub Vec<Vec<Option<Status>>>);

impl View for Grid {
    type V = Seq<Seq<Option<Status>>>;

    open spec fn view(&self) -> Seq<Seq<Option<Status>>> {
        Seq::new(self.0@.len(), |y: int| self.0@[y]@)
    }
}

/// Everything the driver owns for one run, gathered from the parsed input.
pub struct LoadResources {
    pub agents: InputAgents,
    pub time: InputTime,
    pub size: InputSize,
    pub announce_tag: InputAnnounceTag,
    pub moves: InputMoves,
    pub disable_grid: InputDisableGrid,
    pub tag_count: TagCount,
    pub random: Random,
    pub grid: Grid,
}

impl LoadResources {
    /// Validate the configuration and gather the start-up resources.
    /// A grid smaller than 2 or an empty agent set makes the wraparound and
    /// initialization arithmetic undefined, so such input is rejected here,
    /// before the first tick.
    pub fn build(input: &Input) -> (r: Option<LoadResources>)
        ensures
            (r is Some) == (input.agents >= 1 && input.size >= 2),
            r matches Some(res) ==> {
                &&& res.agents.0 == input.agents
                &&& res.time.0 == input.time
                &&& res.size.0 == input.size
                &&& res.announce_tag.0 == input.print_announce
                &&& res.moves.0 == input.moves
                &&& res.disable_grid.0 == input.disable_grid
                &&& res.tag_count.0 == 0
                &&& res.grid.0@.len() == 0
            },
    {
        if input.agents < 1 || input.size < 2 {
            return None;
        }
        Some(LoadResources {
            agents: InputAgents(input.agents),
            time: InputTime(input.time),
            size: InputSize(input.size),
            announce_tag: InputAnnounceTag(input.print_announce),
            moves: InputMoves(input.moves),
            disable_grid: InputDisableGrid(input.disable_grid),
            tag_count: TagCount(0),
            random: Random(fresh_small_rng()),
            grid: Grid(Vec::new()),
        })
    }
}

} // verus!

use vstd::prelude::*;
use vstd::arithmetic::div_mod::{lemma_mod_multiples_vanish, lemma_mod_self_0, lemma_small_mod};
use crate::resources::{Random, TagCount};
use crate::rng::draw_below;

verus! {

// ===========
// Agent model
// ===========

/// One inhabitant of the grid: a stable slot in the registry holding the
/// agent's position and tag status.
#[derive(Clone, Copy, PartialEq, Eq, Structural, Debug)]
pub struct Agent {
    pub position: Position,
    pub status: Status,
}

#[derive(Clone, Copy, PartialEq, Eq, Structural, Debug)]
pub enum Status {
    Normal,
    Tagged,
    UnTaggable,
}

#[derive(Clone, Copy, PartialEq, Eq, Structural, Debug)]
pub struct Position(pub usize, pub usize);

/// The increment transform: wraps modulo `grid_size - 1`. Note the asymmetry
/// with `spec_sub`, which wraps modulo `grid_size`; both are kept exactly as
/// the simulation defines them.
pub open spec fn spec_add(v: int, n: int) -> int {
    (v + 1) % (n - 1)
}

/// The decrement transform: steps down, wrapping from 0 to `grid_size - 1`.
pub open spec fn spec_sub(v: int, n: int) -> int {
    if v == 0 {
        n - 1
    } else {
        v - 1
    }
}

/// The position one step away from `p` in direction `d` on the toroidal grid:
/// `0` is `x+`, `1` is `x-`, `2` is `y+`, everything else is `y-`.
pub open spec fn spec_move(p: Position, d: int, n: int) -> Position {
    if d == 0 {
        Position(spec_add(p.0 as int, n) as usize, p.1)
    } else if d == 1 {
        Position(spec_sub(p.0 as int, n) as usize, p.1)
    } else if d == 2 {
        Position(p.0, spec_add(p.1 as int, n) as usize)
    } else {
        Position(p.0, spec_sub(p.1 as int, n) as usize)
    }
}

/// `p` is one of the four computed neighbor cells of `origin`.
pub open spec fn is_neighbor(origin: Position, p: Position, n: int) -> bool {
    exists|d: int| 0 <= d < 4 && p == spec_move(origin, d, n)
}

/// Agent `i` of `post` stands one random step away from where it stood in
/// `pre`: its position is the image of its old one under one of the four
/// direction transforms.
pub open spec fn stepped(pre: Seq<Agent>, post: Seq<Agent>, i: int, n: int) -> bool {
    exists|d: int| 0 <= d < 4 && post[i].position == spec_move(pre[i].position, d, n)
}

/// Every agent sits inside the `n` by `n` grid.
pub open spec fn positions_in_range(s: Seq<Agent>, n: int) -> bool {
    forall|i: int| 0 <= i < s.len() ==> (#[trigger] s[i]).position.0 < n && s[i].position.1 < n
}

/// How many agents currently carry the given status.
pub open spec fn count_status(s: Seq<Agent>, st: Status) -> nat
    decreases s.len(),
{
    if s.len() == 0 {
        0
    } else {
        count_status(s.drop_last(), st) + (if s.last().status == st {
            1nat
        } else {
            0nat
        })
    }
}

/// The registry invariant: positions stay on the grid, exactly one agent is
/// `Tagged`, and at most one is `UnTaggable`.
pub open spec fn wf(s: Seq<Agent>, n: int) -> bool {
    &&& n >= 2
    &&& positions_in_range(s, n)
    &&& count_status(s, Status::Tagged) == 1
    &&& count_status(s, Status::UnTaggable) <= 1
}

/// Agent `o` is the one the resolver starts from: the first agent in
/// iteration order whose status is `Tagged`.
pub open spec fn is_origin(s: Seq<Agent>, o: int) -> bool {
    &&& 0 <= o < s.len()
    &&& s[o].status == Status::Tagged
    &&& forall|j: int| 0 <= j < o ==> (#[trigger] s[j]).status != Status::Tagged
}

/// Agent `j` could receive the tag from agent `o`: it stands on one of the
/// four computed neighbor cells and is not on cooldown.
pub open spec fn is_eligible(s: Seq<Agent>, o: int, j: int, n: int) -> bool {
    &&& 0 <= j < s.len()
    &&& is_neighbor(s[o].position, s[j].position, n)
    &&& s[j].status != Status::UnTaggable
}

/// The transfer the resolver performs, if any: from the first tagged agent
/// `o` to the first eligible agent `t` in iteration order.
pub open spec fn is_transfer(s: Seq<Agent>, o: int, t: int, n: int) -> bool {
    &&& is_origin(s, o)
    &&& is_eligible(s, o, t, n)
    &&& forall|j: int| 0 <= j < t ==> !is_eligible(s, o, j, n)
}

// ===========
// Agent utils
// ===========

pub fn position_add(current_axis_position: usize, grid_size: usize) -> (r: usize)
    requires
        grid_size >= 2,
        current_axis_position < grid_size,
    ensures
        r == spec_add(current_axis_position as int, grid_size as int),
        r < grid_size - 1,
{
    (current_axis_position + 1) % (grid_size - 1)
}

pub fn position_sub(current_axis_position: usize, grid_size: usize) -> (r: usize)
    requires
        grid_size >= 2,
        current_axis_position < grid_size,
    ensures
        r == spec_sub(current_axis_position as int, grid_size as int),
        r < grid_size,
{
    if current_axis_position == 0 {
        // last index
        grid_size - 1
    } else {
        current_axis_position - 1
    }
}

/// Create the full agent population: `agent_count - 1` agents with status
/// `Normal` at independently random positions, then one `Tagged` agent at an
/// independently random position. Establishes the registry invariant.
pub fn add_agents(agent_count: usize, grid_size: usize, rng: &mut Random) -> (agents: Vec<Agent>)
    requires
        agent_count >= 1,
        grid_size >= 2,
    ensures
        agents@.len() == agent_count,
        forall|i: int| 0 <= i < agent_count - 1 ==> (#[trigger] agents@[i]).status == Status::Normal,
        agents@[agent_count - 1].status == Status::Tagged,
        positions_in_range(agents@, grid_size as int),
        wf(agents@, grid_size as int),
{
    let mut agents: Vec<Agent> = Vec::new();
    let mut i: usize = 0;
    while i < agent_count - 1
        invariant
            i <= agent_count - 1,
            agents@.len() == i,
            grid_size >= 2,
            forall|j: int| 0 <= j < i ==> (#[trigger] agents@[j]).status == Status::Normal,
            positions_in_range(agents@, grid_size as int),
        decreases agent_count - 1 - i,
    {
        let x = draw_below(&mut rng.0, grid_size);
        let y = draw_below(&mut rng.0, grid_size);
        agents.push(Agent { position: Position(x, y), status: Status::Normal });
        i += 1;
    }

    // Make one tagged
    let x = draw_below(&mut rng.0, grid_size);
    let y = draw_below(&mut rng.0, grid_size);
    agents.push(Agent { position: Position(x, y), status: Status::Tagged });

    proof {
        lemma_count_single(agents@, Status::Tagged, agents@.len() - 1);
        lemma_count_none(agents@, Status::UnTaggable);
    }
    agents
}

/// Advance every agent one random step on the toroidal grid. Statuses are
/// never touched here, and every position stays on the grid.
pub fn move_agents(agents: &mut Vec<Agent>, rng: &mut Random, grid_size: usize)
    requires
        grid_size >= 2,
        positions_in_range(old(agents)@, grid_size as int),
    ensures
        final(agents)@.len() == old(agents)@.len(),
        forall|i: int| 0 <= i < old(agents)@.len() ==> (#[trigger] final(agents)@[i]).status
            == old(agents)@[i].status,
        forall|i: int| 0 <= i < old(agents)@.len()
            ==> #[trigger] stepped(old(agents)@, final(agents)@, i, grid_size as int),
        positions_in_range(final(agents)@, grid_size as int),
        wf(old(agents)@, grid_size as int) ==> wf(final(agents)@, grid_size as int),
{
    let ghost pre = agents@;
    let n_agents = agents.len();
    let mut i: usize = 0;
    while i < n_agents
        invariant
            i <= n_agents,
            n_agents == pre.len(),
            agents@.len() == pre.len(),
            grid_size >= 2,
            positions_in_range(pre, grid_size as int),
            forall|j: int| 0 <= j < pre.len() ==> (#[trigger] agents@[j]).status == pre[j].status,
            forall|j: int| i <= j < pre.len() ==> (#[trigger] agents@[j]).position == pre[j].position,
            forall|j: int| 0 <= j < i ==> #[trigger] stepped(pre, agents@, j, grid_size as int),
            positions_in_range(agents@, grid_size as int),
        decreases n_agents - i,
    {
        let a = agents[i];
        let direction = draw_below(&mut rng.0, 4);
        let new_position = if direction == 0 {
            // on edges - pop out on the other side
            Position(position_add(a.position.0, grid_size), a.position.1)
        } else if direction == 1 {
            Position(position_sub(a.position.0, grid_size), a.position.1)
        } else if direction == 2 {
            Position(a.position.0, position_add(a.position.1, grid_size))
        } else {
            Position(a.position.0, position_sub(a.position.1, grid_size))
        };
        let ghost before = agents@;
        agents.set(i, Agent { position: new_position, status: a.status });
        proof {
            let d = if direction < 3 { direction as int } else { 3int };
            assert(0 <= d < 4 && agents@[i as int].position
                == spec_move(pre[i as int].position, d, grid_size as int));
            assert(stepped(pre, agents@, i as int, grid_size as int));
            assert forall|j: int| 0 <= j < i
                implies #[trigger] stepped(pre, agents@, j, grid_size as int) by {
                assert(stepped(pre, before, j, grid_size as int));
                let dj = choose|dj: int|
                    0 <= dj < 4 && before[j].position
                        == spec_move(pre[j].position, dj, grid_size as int);
                assert(agents@[j] == before[j]);
                assert(0 <= dj < 4 && agents@[j].position
                    == spec_move(pre[j].position, dj, grid_size as int));
            }
        }
        i += 1;
    }
    proof {
        assert forall|i: int| 0 <= i < old(agents)@.len()
            implies #[trigger] stepped(old(agents)@, agents@, i, grid_size as int) by {
            assert(stepped(pre, agents@, i, grid_size as int));
        }
        if wf(pre, grid_size as int) {
            lemma_count_pointwise(pre, agents@, Status::Tagged);
            lemma_count_pointwise(pre, agents@, Status::UnTaggable);
        }
    }
}

/// Detect adjacency between the tagged agent and an eligible neighbor, and
/// perform the tag transfer. Two passes: locate the first tagged agent and
/// its four toroidal neighbor cells, then scan for the first agent standing
/// on one of them that is not on cooldown. If one is found, the counter goes
/// up by one, every status resets to `Normal`, the target becomes `Tagged`
/// and the origin becomes `UnTaggable`; otherwise nothing changes.
pub fn tag(agents: &mut Vec<Agent>, tag_count: &mut TagCount, grid_size: usize) -> (transferred:
    bool)
    requires
        grid_size >= 2,
        positions_in_range(old(agents)@, grid_size as int),
        old(tag_count).0 < u32::MAX,
    ensures
        final(agents)@.len() == old(agents)@.len(),
        forall|i: int| 0 <= i < old(agents)@.len() ==> (#[trigger] final(agents)@[i]).position
            == old(agents)@[i].position,
        transferred == exists|o: int, t: int| is_transfer(old(agents)@, o, t, grid_size as int),
        forall|o: int, t: int| is_transfer(old(agents)@, o, t, grid_size as int)
            ==> forall|i: int| 0 <= i < final(agents)@.len()
                ==> (#[trigger] final(agents)@[i]).status == (if i == o {
                    Status::UnTaggable
                } else if i == t {
                    Status::Tagged
                } else {
                    Status::Normal
                }),
        transferred ==> final(tag_count).0 == old(tag_count).0 + 1,
        !transferred ==> final(agents)@ == old(agents)@ && final(tag_count).0 == old(
            tag_count,
        ).0,
        final(tag_count).0 >= old(tag_count).0,
        wf(old(agents)@, grid_size as int) && grid_size >= 3 ==> wf(
            final(agents)@,
            grid_size as int,
        ),
{
    let ghost pre = agents@;
    let ghost gs = grid_size as int;
    let n_agents = agents.len();

    // First iteration - find the first tagged agent
    let mut origin: usize = 0;
    let mut found_origin = false;
    let mut k: usize = 0;
    while k < n_agents
        invariant
            k <= n_agents,
            n_agents == pre.len(),
            agents@ == pre,
            !found_origin ==> forall|j: int| 0 <= j < k ==> (#[trigger] pre[j]).status
                != Status::Tagged,
            found_origin ==> is_origin(pre, origin as int) && origin < n_agents,
        decreases n_agents - k,
    {
        if !found_origin && agents[k].status == Status::Tagged {
            origin = k;
            found_origin = true;
        }
        k += 1;
    }

    if !found_origin {
        proof {
            if exists|o: int, t: int| is_transfer(pre, o, t, gs) {
                let (o, t) = choose|o: int, t: int| is_transfer(pre, o, t, gs);
                assert(pre[o].status != Status::Tagged);
                assert(false);
            }
        }
        return false;
    }

    // The four neighbor cells of the tagged agent
    let opos = agents[origin].position;
    proof {
        assert(pre[origin as int].position.0 < gs && pre[origin as int].position.1 < gs);
    }
    let nb0 = Position(position_add(opos.0, grid_size), opos.1);
    let nb1 = Position(position_sub(opos.0, grid_size), opos.1);
    let nb2 = Position(opos.0, position_add(opos.1, grid_size));
    let nb3 = Position(opos.0, position_sub(opos.1, grid_size));
    proof {
        assert(nb0 == spec_move(opos, 0, gs));
        assert(nb1 == spec_move(opos, 1, gs));
        assert(nb2 == spec_move(opos, 2, gs));
        assert(nb3 == spec_move(opos, 3, gs));
    }

    // Second iteration - find the first agent on a neighboring cell that is
    // not on cooldown
    let mut target: usize = 0;
    let mut found_target = false;
    let mut k: usize = 0;
    while k < n_agents
        invariant
            k <= n_agents,
            n_agents == pre.len(),
            agents@ == pre,
            is_origin(pre, origin as int),
            origin < n_agents,
            opos == pre[origin as int].position,
            gs == grid_size as int,
            nb0 == spec_move(opos, 0, gs),
            nb1 == spec_move(opos, 1, gs),
            nb2 == spec_move(opos, 2, gs),
            nb3 == spec_move(opos, 3, gs),
            !found_target ==> forall|j: int| 0 <= j < k ==> !is_eligible(
                pre,
                origin as int,
                j,
                gs,
            ),
            found_target ==> is_transfer(pre, origin as int, target as int, gs) && target
                < n_agents,
        decreases n_agents - k,
    {
        if !found_target {
            let a = agents[k];
            proof {
                lemma_neighbor_cases(opos, a.position, gs, nb0, nb1, nb2, nb3);
            }
            if (a.position == nb0 || a.position == nb1 || a.position == nb2 || a.position == nb3)
                && a.status != Status::UnTaggable {
                target = k;
                found_target = true;
            }
        }
        k += 1;
    }

    if !found_target {
        proof {
            if exists|o: int, t: int| is_transfer(pre, o, t, gs) {
                let (o, t) = choose|o: int, t: int| is_transfer(pre, o, t, gs);
                lemma_origin_unique(pre, o, origin as int);
                assert(!is_eligible(pre, origin as int, t, gs));
                assert(false);
            }
        }
        return false;
    }

    // Found a neighbor (target) -> tag: raise the count, reset every status,
    // then set the target tagged and the origin untaggable
    tag_count.0 = tag_count.0 + 1;

    let mut k: usize = 0;
    while k < n_agents
        invariant
            k <= n_agents,
            n_agents == pre.len(),
            agents@.len() == pre.len(),
            forall|j: int| 0 <= j < k ==> (#[trigger] agents@[j]).status == Status::Normal,
            forall|j: int| k <= j < pre.len() ==> agents@[j] == pre[j],
            forall|j: int| 0 <= j < pre.len() ==> (#[trigger] agents@[j]).position
                == pre[j].position,
        decreases n_agents - k,
    {
        let a = agents[k];
        agents.set(k, Agent { position: a.position, status: Status::Normal });
        k += 1;
    }

    let a = agents[target];
    agents.set(target, Agent { position: a.position, status: Status::Tagged });
    let a = agents[origin];
    agents.set(origin, Agent { position: a.position, status: Status::UnTaggable });

    proof {
        assert(is_transfer(pre, origin as int, target as int, gs));
        assert forall|o: int, t: int| is_transfer(pre, o, t, gs) implies forall|i: int|
            0 <= i < agents@.len() ==> (#[trigger] agents@[i]).status == (if i == o {
                Status::UnTaggable
            } else if i == t {
                Status::Tagged
            } else {
                Status::Normal
            }) by {
            lemma_transfer_unique(pre, o, t, origin as int, target as int, gs);
        }
        if wf(pre, gs) && grid_size >= 3 {
            if origin == target {
                assert(is_eligible(pre, origin as int, origin as int, gs));
                lemma_no_self_neighbor(pre[origin as int].position, gs);
                assert(false);
            }
            lemma_count_single(agents@, Status::Tagged, target as int);
            lemma_count_single(agents@, Status::UnTaggable, origin as int);
        }
    }
    true
}

// ================
// Neighbor lemmas
// ================

/// The increment transform never maps a coordinate back onto itself once the
/// grid side is at least 3.
proof fn lemma_wrap_add_changes(x: int, n: int)
    requires
        n >= 3,
        0 <= x < n,
    ensures
        spec_add(x, n) != x,
{
    let m = n - 1;
    if x + 1 < m {
        lemma_small_mod((x + 1) as nat, m as nat);
    } else if x + 1 == m {
        lemma_mod_self_0(m);
        assert(spec_add(x, n) == 0);
    } else {
        assert(x == m);
        lemma_mod_multiples_vanish(1, 1, m);
        lemma_small_mod(1nat, m as nat);
        assert(spec_add(x, n) == 1);
    }
}

/// On a grid of side at least 3, no position is one of its own computed
/// neighbor cells; on side 2 the asymmetric increment transform can map a
/// zero coordinate onto itself, which is why 3 is required here.
proof fn lemma_no_self_neighbor(p: Position, n: int)
    requires
        3 <= n <= usize::MAX,
        p.0 < n,
        p.1 < n,
    ensures
        !is_neighbor(p, p, n),
{
    if is_neighbor(p, p, n) {
        let d = choose|d: int| 0 <= d < 4 && p == spec_move(p, d, n);
        if d == 0 {
            lemma_wrap_add_changes(p.0 as int, n);
            assert(false);
        } else if d == 1 {
            assert(false);
        } else if d == 2 {
            lemma_wrap_add_changes(p.1 as int, n);
            assert(false);
        } else {
            assert(false);
        }
    }
}

/// A position equals one of the four computed neighbor cells exactly when it
/// is a neighbor in the sense of `is_neighbor`.
proof fn lemma_neighbor_cases(origin: Position, p: Position, n: int, nb0: Position, nb1: Position, nb2: Position, nb3: Position)
    requires
        nb0 == spec_move(origin, 0, n),
        nb1 == spec_move(origin, 1, n),
        nb2 == spec_move(origin, 2, n),
        nb3 == spec_move(origin, 3, n),
    ensures
        is_neighbor(origin, p, n) <==> (p == nb0 || p == nb1 || p == nb2 || p == nb3),
{
    if p == nb0 || p == nb1 || p == nb2 || p == nb3 {
        if p == nb0 {
            assert(0 <= 0int < 4 && p == spec_move(origin, 0, n));
        } else if p == nb1 {
            assert(0 <= 1int < 4 && p == spec_move(origin, 1, n));
        } else if p == nb2 {
            assert(0 <= 2int < 4 && p == spec_move(origin, 2, n));
        } else {
            assert(0 <= 3int < 4 && p == spec_move(origin, 3, n));
        }
        assert(is_neighbor(origin, p, n));
    }
    if is_neighbor(origin, p, n) {
        let d = choose|d: int| 0 <= d < 4 && p == spec_move(origin, d, n);
        if d == 0 {
            assert(p == nb0);
        } else if d == 1 {
            assert(p == nb1);
        } else if d == 2 {
            assert(p == nb2);
        } else {
            assert(p == nb3);
        }
    }
}

/// The first tagged agent is unique.
proof fn lemma_origin_unique(s: Seq<Agent>, o1: int, o2: int)
    requires
        is_origin(s, o1),
        is_origin(s, o2),
    ensures
        o1 == o2,
{
    if o1 < o2 {
        assert(s[o1].status != Status::Tagged);
    }
    if o2 < o1 {
        assert(s[o2].status != Status::Tagged);
    }
}

/// The transfer the resolver performs is unique: one origin, one target.
proof fn lemma_transfer_unique(s: Seq<Agent>, o1: int, t1: int, o2: int, t2: int, n: int)
    requires
        is_transfer(s, o1, t1, n),
        is_transfer(s, o2, t2, n),
    ensures
        o1 == o2,
        t1 == t2,
{
    lemma_origin_unique(s, o1, o2);
    if t1 < t2 {
        assert(!is_eligible(s, o2, t1, n));
    }
    if t2 < t1 {
        assert(!is_eligible(s, o1, t2, n));
    }
}

// ====
// Laws
// ====

/// Law: an agent whose status is `UnTaggable` is never the transfer target,
/// even when it is the only agent on a neighboring cell.
pub proof fn lemma_untaggable_never_target(s: Seq<Agent>, o: int, t: int, n: int)
    requires
        is_transfer(s, o, t, n),
    ensures
        s[t].status != Status::UnTaggable,
{
}

/// Law: with a single agent on a grid of side at least 3, that agent carries
/// the tag and no transfer can ever occur, so the counter never moves. (On a
/// grid of side 2 the asymmetric increment transform can make an agent with
/// a zero coordinate its own neighbor, which is why 3 is required here.)
pub proof fn lemma_lone_agent_keeps_tag(s: Seq<Agent>, n: int)
    requires
        s.len() == 1,
        wf(s, n),
        3 <= n <= usize::MAX,
    ensures
        s[0].status == Status::Tagged,
        !(exists|o: int, t: int| is_transfer(s, o, t, n)),
{
    assert(s.drop_last().len() == 0);
    assert(count_status(s.drop_last(), Status::Tagged) == 0);
    assert(s[0] == s.last());
    if exists|o: int, t: int| is_transfer(s, o, t, n) {
        let (o, t) = choose|o: int, t: int| is_transfer(s, o, t, n);
        assert(o == 0 && t == 0);
        assert(is_neighbor(s[0].position, s[0].position, n));
        lemma_no_self_neighbor(s[0].position, n);
        assert(false);
    }
}

// ==============
// Counting facts
// ==============

proof fn lemma_count_none(s: Seq<Agent>, st: Status)
    requires
        forall|i: int| 0 <= i < s.len() ==> (#[trigger] s[i]).status != st,
    ensures
        count_status(s, st) == 0,
    decreases s.len(),
{
    if s.len() > 0 {
        lemma_count_none(s.drop_last(), st);
    }
}

proof fn lemma_count_single(s: Seq<Agent>, st: Status, k: int)
    requires
        0 <= k < s.len(),
        s[k].status == st,
        forall|i: int| 0 <= i < s.len() && i != k ==> (#[trigger] s[i]).status != st,
    ensures
        count_status(s, st) == 1,
    decreases s.len(),
{
    if k == s.len() - 1 {
        lemma_count_none(s.drop_last(), st);
    } else {
        lemma_count_single(s.drop_last(), st, k);
    }
}

proof fn lemma_count_pointwise(s1: Seq<Agent>, s2: Seq<Agent>, st: Status)
    requires
        s1.len() == s2.len(),
        forall|i: int| 0 <= i < s1.len() ==> (#[trigger] s1[i]).status == s2[i].status,
    ensures
        count_status(s1, st) == count_status(s2, st),
    decreases s1.len(),
{
    if s1.len() > 0 {
        lemma_count_pointwise(s1.drop_last(), s2.drop_last(), st);
    }
}

} // verus!


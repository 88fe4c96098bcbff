use vstd::prelude::*;
use crate::entities::{Agent, Status, positions_in_range};
use crate::resources::Grid;

verus! {

// ==========
// Grid utils
// ==========

/// The cell content the snapshot owes position `(x, y)`: the status of the
/// last agent in iteration order occupying that cell, or nothing. Two agents
/// on one cell overwrite each other, later one wins — lossy by design.
pub open spec fn cell_of(s: Seq<Agent>, x: int, y: int) -> Option<Status>
    decreases s.len(),
{
    if s.len() == 0 {
        None
    } else if s.last().position.0 == x && s.last().position.1 == y {
        Some(s.last().status)
    } else {
        cell_of(s.drop_last(), x, y)
    }
}

/// `g` is the dense `n` by `n` snapshot of the registry `s`: row `y` holds in
/// column `x` exactly the cell content `cell_of` prescribes.
pub open spec fn grid_built(s: Seq<Agent>, g: Seq<Seq<Option<Status>>>, n: int) -> bool {
    &&& g.len() == n
    &&& (forall|y: int| 0 <= y < n ==> (#[trigger] g[y]).len() == n)
    &&& (forall|x: int, y: int| 0 <= x < n && 0 <= y < n ==> #[trigger] g[y][x] == cell_of(
        s,
        x,
        y,
    ))
}

/// Rebuild the snapshot from the registry: a fresh all-empty grid, then every
/// agent's status written into the cell at its position, in iteration order.
/// Pure projection of the registry; the registry itself is never touched.
pub fn update_grid(agents: &Vec<Agent>, grid: &mut Grid, grid_size: usize)
    requires
        positions_in_range(agents@, grid_size as int),
    ensures
        grid_built(agents@, final(grid)@, grid_size as int),
{
    let ghost s = agents@;
    let ghost gs = grid_size as int;

    // init empty grid
    let mut rows: Vec<Vec<Option<Status>>> = Vec::new();
    let mut y: usize = 0;
    while y < grid_size
        invariant
            y <= grid_size,
            rows@.len() == y,
            forall|j: int| 0 <= j < y ==> (#[trigger] rows@[j])@.len() == grid_size,
            forall|j: int, x: int| 0 <= j < y && 0 <= x < grid_size ==> #[trigger] rows@[j]@[x]
                is None,
        decreases grid_size - y,
    {
        let mut row: Vec<Option<Status>> = Vec::new();
        let mut x: usize = 0;
        while x < grid_size
            invariant
                x <= grid_size,
                row@.len() == x,
                forall|i: int| 0 <= i < x ==> (#[trigger] row@[i]) is None,
            decreases grid_size - x,
        {
            row.push(None);
            x += 1;
        }
        rows.push(row);
        y += 1;
    }

    proof {
        assert(s.take(0).len() == 0);
        assert forall|x: int, yy: int| 0 <= x < gs && 0 <= yy < gs implies #[trigger] rows@[yy]@[x]
            == cell_of(s.take(0), x, yy) by {
            assert(cell_of(s.take(0), x, yy) is None);
        }
    }

    // populate grid with agents
    let mut k: usize = 0;
    while k < agents.len()
        invariant
            k <= agents.len(),
            s == agents@,
            gs == grid_size as int,
            positions_in_range(s, gs),
            rows@.len() == grid_size,
            forall|j: int| 0 <= j < gs ==> (#[trigger] rows@[j])@.len() == grid_size,
            forall|x: int, yy: int| 0 <= x < gs && 0 <= yy < gs ==> #[trigger] rows@[yy]@[x]
                == cell_of(s.take(k as int), x, yy),
        decreases agents.len() - k,
    {
        let a = agents[k];
        let ghost rows_before = rows@;
        let mut row = rows.remove(a.position.1);
        row.set(a.position.0, Some(a.status));
        rows.insert(a.position.1, row);
        proof {
            let px = a.position.0 as int;
            let py = a.position.1 as int;
            assert(rows@[py]@ =~= rows_before[py]@.update(px, Some(a.status)));
            assert forall|j: int| 0 <= j < rows@.len() && j != py implies rows@[j]
                == rows_before[j] by {}
            assert(s.take(k as int + 1).drop_last() =~= s.take(k as int));
            assert(s.take(k as int + 1).last() == s[k as int]);
            assert forall|x: int, yy: int| 0 <= x < gs && 0 <= yy < gs implies #[trigger] rows@[yy]@[x]
                == cell_of(s.take(k as int + 1), x, yy) by {
                if yy == py && x == px {
                    assert(rows@[yy]@[x] == Some(a.status));
                    assert(cell_of(s.take(k as int + 1), x, yy) == Some(s[k as int].status));
                } else {
                    assert(cell_of(s.take(k as int + 1), x, yy) == cell_of(s.take(k as int), x, yy));
                    if yy == py {
                        assert(rows@[yy]@[x] == rows_before[yy]@[x]);
                    } else {
                        assert(rows@[yy] == rows_before[yy]);
                    }
                }
            }
        }
        k += 1;
    }

    proof {
        assert(s.take(s.len() as int) =~= s);
    }
    grid.0 = rows;
}

/// Law: the snapshot is a function of the registry alone — building it twice
/// on an unchanged registry yields identical grids.
pub proof fn lemma_update_grid_idempotent(
    s: Seq<Agent>,
    g1: Seq<Seq<Option<Status>>>,
    g2: Seq<Seq<Option<Status>>>,
    n: int,
)
    requires
        grid_built(s, g1, n),
        grid_built(s, g2, n),
    ensures
        g1 == g2,
{
    assert forall|y: int| 0 <= y < g1.len() implies g1[y] == g2[y] by {
        assert forall|x: int| 0 <= x < g1[y].len() implies g1[y][x] == g2[y][x] by {
            assert(g1[y][x] == cell_of(s, x, y));
            assert(g2[y][x] == cell_of(s, x, y));
        }
        assert(g1[y] =~= g2[y]);
    }
    assert(g1 =~= g2);
}

} // verus!

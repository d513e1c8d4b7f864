//! The run view of a column: each `(x, y)` column of the world splits
//! into maximal vertical runs of same-state voxels, the unit of the
//! sparse column-run map representation.

use vstd::prelude::*;
use crate::world::World;

verus! {

/// One vertical run: `len` consecutive voxels that are all solid or
/// all empty.
#[derive(Clone, Copy, PartialEq, Eq, Structural, Debug)]
pub struct Run {
    pub solid: bool,
    pub len: usize,
}

/// The voxel states a single run stands for.
pub open spec fn run_seq(r: Run) -> Seq<bool> {
    Seq::new(r.len as nat, |i: int| r.solid)
}

/// The voxel states a sequence of runs stands for, in order.
pub open spec fn expand_runs(runs: Seq<Run>) -> Seq<bool>
    decreases runs.len(),
{
    if runs.len() == 0 {
        Seq::empty()
    } else {
        run_seq(runs[0]) + expand_runs(runs.drop_first())
    }
}

/// Well-formed runs: none is empty, and neighbors differ in state, so
/// each run is maximal.
pub open spec fn runs_wf(runs: Seq<Run>) -> bool {
    &&& forall|i: int| 0 <= i < runs.len() ==> (#[trigger] runs[i]).len >= 1
    &&& forall|i: int| 0 <= i < runs.len() - 1 ==> (#[trigger] runs[i]).solid != runs[i + 1].solid
}

/// The solidity of column `(x, y)` from top to bottom.
pub open spec fn column_solid(w: World, x: int, y: int) -> Seq<bool> {
    Seq::new(w.zs as nat, |z: int| w.solid_at(x, y, z))
}

/// Expanding runs with one more run appends that run's states.
proof fn lemma_expand_push(runs: Seq<Run>, r: Run)
    ensures
        expand_runs(runs.push(r)) == expand_runs(runs) + run_seq(r),
    decreases runs.len(),
{
    let p = runs.push(r);
    if runs.len() == 0 {
        assert(p.drop_first() =~= Seq::<Run>::empty());
        assert(expand_runs(p.drop_first()) =~= Seq::<bool>::empty());
        assert(expand_runs(p) =~= run_seq(p[0]) + expand_runs(p.drop_first()));
        assert(expand_runs(p) =~= expand_runs(runs) + run_seq(r));
    } else {
        assert(p.drop_first() =~= runs.drop_first().push(r));
        lemma_expand_push(runs.drop_first(), r);
        assert(expand_runs(p) =~= run_seq(p[0]) + expand_runs(p.drop_first()));
        assert(p[0] == runs[0]);
        assert(expand_runs(runs) =~= run_seq(runs[0]) + expand_runs(runs.drop_first()));
        assert(expand_runs(p) =~= expand_runs(runs) + run_seq(r));
    }
}

impl World {
    /// Decomposes column `(x, y)` into its maximal vertical runs.
    /// The runs are contiguous, non-overlapping and cover the full
    /// height range: expanded back in order they give exactly the
    /// column's solidity, and neighboring runs differ in state.
    pub fn column_runs(&self, x: usize, y: usize) -> (runs: Vec<Run>)
        requires
            self.wf(),
            x < self.xs,
            y < self.ys,
        ensures
            expand_runs(runs@) == column_solid(*self, x as int, y as int),
            runs_wf(runs@),
            runs@.len() >= 1,
    {
        let zs = self.zs;
        let mut runs: Vec<Run> = Vec::new();
        let mut cur_state = self.get(x, y, 0).solid();
        let mut cur_len: usize = 1;
        let mut z: usize = 1;
        while z < zs
            invariant
                self.wf(),
                x < self.xs,
                y < self.ys,
                zs == self.zs,
                1 <= cur_len <= z <= zs,
                expand_runs(runs@) =~= Seq::new((z - cur_len) as nat,
                    |u: int| self.solid_at(x as int, y as int, u)),
                forall|u: int| z - cur_len <= u < z
                    ==> self.solid_at(x as int, y as int, u) == cur_state,
                runs_wf(runs@),
                runs@.len() > 0 ==> runs@.last().solid != cur_state,
            decreases zs - z,
        {
            let s = self.get(x, y, z).solid();
            if s == cur_state {
                cur_len = cur_len + 1;
            } else {
                let r = Run { solid: cur_state, len: cur_len };
                proof {
                    lemma_expand_push(runs@, r);
                    assert(expand_runs(runs@.push(r)) =~= Seq::new(z as nat,
                        |u: int| self.solid_at(x as int, y as int, u)));
                }
                runs.push(r);
                cur_state = s;
                cur_len = 1;
            }
            z = z + 1;
        }
        let r = Run { solid: cur_state, len: cur_len };
        proof {
            lemma_expand_push(runs@, r);
            assert(expand_runs(runs@.push(r)) =~= column_solid(*self, x as int, y as int));
        }
        runs.push(r);
        runs
    }
}

} // verus!

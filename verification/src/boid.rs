//! Agents and the hashing of their bounding boxes into grid cells.

use vstd::prelude::*;
use crate::aabb::AABB;
use crate::fixed::Fixed;
use crate::hashing::{cell_index, first_occurrences, spec_cell_index, spec_grid_cells};
use crate::vec3::Vec3;

verus! {

/// A simulated agent: where it is, and its bounding box.  The box is given
/// relative to the position; `grid_cells` hashes it as it stands, and the
/// world moves it to the position before it asks for the cells.
#[derive(Clone, Copy, Debug, PartialEq, Eq, Structural)]
pub struct Boid {
    pub position: Vec3,
    pub aabb: AABB,
}

/// The cell indices of the eight corners of an agent's box.
#[derive(Clone, Copy, Debug)]
pub struct BoidCellsIter {
    pub cells: [u64; 8],
}

impl Boid {
    /// The box of a fresh agent: the unit cube.
    pub open spec fn unit_box() -> AABB {
        AABB {
            min: Vec3 { x: Fixed { raw: 0 }, y: Fixed { raw: 0 }, z: Fixed { raw: 0 } },
            max: Vec3 { x: Fixed { raw: 65536 }, y: Fixed { raw: 65536 }, z: Fixed { raw: 65536 } },
        }
    }

    /// The agent's box in world coordinates: its box moved to its position.
    pub open spec fn world_box(self) -> AABB {
        self.aabb.spec_translated(self.position)
    }

    /// The indices that `grid_cells` reports for the agent: those of the
    /// corners of its box, as the box stands.
    pub open spec fn spec_cells(self, length: Fixed, width: Fixed, conv_factor: Fixed) -> Seq<u64> {
        spec_grid_cells(self.aabb, length, width, conv_factor)
    }

    /// The indices of the corners of the agent's box in world coordinates.
    pub open spec fn world_cells(self, length: Fixed, width: Fixed, conv_factor: Fixed) -> Seq<
        u64,
    > {
        spec_grid_cells(self.world_box(), length, width, conv_factor)
    }

    /// The agent with its box in world coordinates.
    pub open spec fn spec_placed(self) -> Boid {
        Boid { position: self.position, aabb: self.world_box() }
    }

    /// An agent at `position`, with the unit cube as its box.
    pub fn new(position: Vec3) -> (r: Boid)
        ensures
            r.position == position,
            r.aabb == Self::unit_box(),
            r.aabb.wf(),
    {
        Boid {
            position,
            aabb: AABB::new(
                Vec3::new(Fixed::zero(), Fixed::zero(), Fixed::zero()),
                Vec3::new(Fixed::one(), Fixed::one(), Fixed::one()),
            ),
        }
    }

    /// The agent with its box moved to its position.  Its cells are the
    /// cells that this agent occupies in the world.
    pub fn placed(&self) -> (r: Boid)
        ensures
            r == self.spec_placed(),
    {
        Boid { position: self.position, aabb: self.aabb.translated(self.position) }
    }

    /// The cell indices of the corners of the agent's box.  Where the first
    /// two corners fall into one cell, that cell is reported for all eight.
    /// The position plays no part.
    pub fn grid_cells(&self, length: Fixed, width: Fixed, conv_factor: Fixed) -> (r: BoidCellsIter)
        ensures
            r.cells@ == spec_grid_cells(self.aabb, length, width, conv_factor),
    {
        let mut points = self.aabb.points();
        let first = cell_index(points.next().unwrap(), length, width, conv_factor);
        let second = cell_index(points.next().unwrap(), length, width, conv_factor);

        if first == second {
            let r = BoidCellsIter { cells: [first, first, first, first, first, first, first, first] };
            assert(r.cells@ =~= self.spec_cells(length, width, conv_factor));
            return r;
        }
        let r = BoidCellsIter {
            cells: [
                first,
                second,
                cell_index(points.next().unwrap(), length, width, conv_factor),
                cell_index(points.next().unwrap(), length, width, conv_factor),
                cell_index(points.next().unwrap(), length, width, conv_factor),
                cell_index(points.next().unwrap(), length, width, conv_factor),
                cell_index(points.next().unwrap(), length, width, conv_factor),
                cell_index(points.next().unwrap(), length, width, conv_factor),
            ],
        };
        assert(r.cells@ =~= self.spec_cells(length, width, conv_factor));
        r
    }
}

/// An agent whose box is a single point is reported in one cell: all eight
/// indices are the index of that point.
pub proof fn lemma_point_agent_single_cell(
    boid: Boid,
    length: Fixed,
    width: Fixed,
    conv_factor: Fixed,
)
    requires
        boid.aabb.min == boid.aabb.max,
    ensures
        boid.spec_cells(length, width, conv_factor) == Seq::new(
            8,
            |i: int| spec_cell_index(boid.aabb.min, length, width, conv_factor),
        ),
{
}

/// What `grid_cells` reports depends on the box, the length, the width and
/// the factor alone: two agents with one box are reported in the same cells,
/// wherever they are.
pub proof fn lemma_cells_depend_on_box_alone(
    a: Boid,
    b: Boid,
    length: Fixed,
    width: Fixed,
    conv_factor: Fixed,
)
    requires
        a.aabb == b.aabb,
    ensures
        a.spec_cells(length, width, conv_factor) == b.spec_cells(length, width, conv_factor),
{
}

impl BoidCellsIter {
    /// The reported indices, each once, in the order of first occurrence.
    pub fn distinct(&self) -> (r: Vec<u64>)
        ensures
            r@ == first_occurrences(self.cells@),
    {
        let mut out: Vec<u64> = Vec::new();
        let mut i: usize = 0;
        while i < 8
            invariant
                i <= 8,
                out@ == first_occurrences(self.cells@.take(i as int)),
            decreases 8 - i,
        {
            let c = self.cells[i];
            let mut seen = false;
            let mut j: usize = 0;
            while j < out.len()
                invariant
                    j <= out.len(),
                    seen == out@.take(j as int).contains(c),
                decreases out.len() - j,
            {
                if out[j] == c {
                    seen = true;
                }
                proof {
                    let a = out@.take(j as int);
                    let b = out@.take(j + 1);
                    assert(b =~= a.push(out@[j as int]));
                    assert(b.drop_last() =~= a);
                    if a.contains(c) {
                        let k = choose|k: int| 0 <= k < a.len() && a[k] == c;
                        assert(b[k] == c);
                    }
                    if out@[j as int] == c {
                        assert(b[j as int] == c);
                    }
                }
                j += 1;
            }
            assert(out@.take(out.len() as int) =~= out@);
            proof {
                let t = self.cells@.take(i + 1);
                assert(t.drop_last() =~= self.cells@.take(i as int));
                assert(t.last() == c);
            }
            if !seen {
                out.push(c);
            }
            i += 1;
        }
        assert(self.cells@.take(8) =~= self.cells@);
        out
    }
}

} // verus!

//! The world: the agents, and the table of the cells they occupy.

use vstd::prelude::*;
use vstd::arithmetic::div_mod::{
    lemma_div_is_ordered_by_denominator, lemma_div_pos_is_pos, lemma_fundamental_div_mod,
    lemma_fundamental_div_mod_converse, lemma_mod_bound,
};
use std::collections::HashMap;
use crate::aabb::AABB;
use crate::boid::Boid;
use crate::cell::{
    lemma_register_idempotent, lemma_with_agent, lemma_without_agent, with_agent, without_agent,
    Cell,
};
use crate::fixed::{clamp_raw, Fixed};
use crate::hashing::{
    cell_index, exact_reciprocal, first_occurrences, lemma_first_occurrences_distinct,
    lemma_index_is_row_major, row_major, spec_cell_index,
};
use crate::vec3::Vec3;

verus! {

broadcast use vstd::std_specs::hash::group_hash_axioms;

/// Why a world could not be made.
#[derive(Clone, Copy, Debug, PartialEq, Eq, Structural)]
pub enum ConfigurationError {
    /// The side length of the domain is zero or negative.
    InvalidDomainSize,
    /// The number of cells per side is zero, or its cube is more than a
    /// table can be sized for.
    InvalidCellCount,
    /// The side length divided by the number of cells per side is zero.
    InvalidCellSize,
}

/// What the renderer is handed for one agent: the translation that moves the
/// model to the agent's position.
#[derive(Clone, Copy, Debug, PartialEq, Eq, Structural)]
pub struct BoidInstance {
    pub translation: Vec3,
}

/// A cubic domain, the agents in it in the order in which they were added,
/// and for each cell index the agents registered there.
pub struct World {
    length: Fixed,
    width: Fixed,
    height: Fixed,
    cell_size: Fixed,
    reserved: usize,
    boids: Vec<Boid>,
    known_cells: Vec<Vec<u64>>,
    hash_table: HashMap<u64, Cell>,
}

/// The number of cells of a grid with `cells_per_side` cells along each axis.
pub open spec fn grid_size(cells_per_side: usize) -> int {
    cells_per_side * cells_per_side * cells_per_side
}

/// The error that a configuration is rejected with, if it is rejected.
pub open spec fn config_error(side_len: Fixed, cells_per_side: usize) -> Option<
    ConfigurationError,
> {
    if side_len.raw <= 0 {
        Some(ConfigurationError::InvalidDomainSize)
    } else if cells_per_side == 0 || grid_size(cells_per_side) > usize::MAX {
        Some(ConfigurationError::InvalidCellCount)
    } else if side_len.spec_div_count(cells_per_side).raw <= 0 {
        Some(ConfigurationError::InvalidCellSize)
    } else {
        None
    }
}

/// The whole part of a positive number; zero for the others.
pub open spec fn whole_part(v: Fixed) -> int {
    if v.raw <= 0 {
        0
    } else {
        v.raw / 65536
    }
}

/// `n` cells of edge length `cell_size`, clamped to the representable range.
pub open spec fn cells_to_fixed(n: int, cell_size: Fixed) -> Fixed {
    Fixed { raw: clamp_raw(n * cell_size.raw) as i32 }
}

/// The bounds of the cell with the given index: the index is taken apart
/// row-major, with the whole parts of the width and the length as strides,
/// and each cell coordinate is scaled by the cell size.
pub open spec fn spec_cell_bounds(cell: u64, length: Fixed, width: Fixed, cell_size: Fixed) -> AABB {
    let w = whole_part(width);
    let l = whole_part(length);
    let c = cell as int;
    let i: int = if w > 0 {
        c % w
    } else {
        c
    };
    let rest: int = if w > 0 {
        c / w
    } else {
        0
    };
    let j: int = if l > 0 {
        rest % l
    } else {
        rest
    };
    let k: int = if l > 0 {
        rest / l
    } else {
        0
    };
    let min = Vec3 {
        x: cells_to_fixed(i, cell_size),
        y: cells_to_fixed(j, cell_size),
        z: cells_to_fixed(k, cell_size),
    };
    AABB { min, max: min.spec_saturating_add(Vec3 { x: cell_size, y: cell_size, z: cell_size }) }
}

fn whole(v: Fixed) -> (r: u64)
    ensures
        r == whole_part(v),
{
    if v.raw <= 0 {
        0
    } else {
        (v.raw as u64) / 65536
    }
}

fn scale_cells(n: u64, cell_size: Fixed) -> (r: Fixed)
    ensures
        r == cells_to_fixed(n as int, cell_size),
{
    let wide: i128 = n as i128;
    let size: i128 = cell_size.raw as i128;
    assert(-0x8000_0000_0000_0000_0000_0000 <= wide * size <= 0x8000_0000_0000_0000_0000_0000)
        by (nonlinear_arith)
        requires
            0 <= wide <= 0xffff_ffff_ffff_ffff,
            -0x8000_0000 <= size <= 0x8000_0000,
    ;
    let product: i128 = wide * size;
    if product < i32::MIN as i128 {
        Fixed { raw: i32::MIN }
    } else if product > i32::MAX as i128 {
        Fixed { raw: i32::MAX }
    } else {
        Fixed { raw: product as i32 }
    }
}

/// The bounds of the cell with the given index in a grid of the given
/// length, width and cell size.
pub fn cell_bounds(cell: u64, length: Fixed, width: Fixed, cell_size: Fixed) -> (r: AABB)
    ensures
        r == spec_cell_bounds(cell, length, width, cell_size),
{
    let w = whole(width);
    let l = whole(length);
    let i = if w > 0 {
        cell % w
    } else {
        cell
    };
    let rest = if w > 0 {
        cell / w
    } else {
        0
    };
    let j = if l > 0 {
        rest % l
    } else {
        rest
    };
    let k = if l > 0 {
        rest / l
    } else {
        0
    };
    let min = Vec3::new(
        scale_cells(i, cell_size),
        scale_cells(j, cell_size),
        scale_cells(k, cell_size),
    );
    AABB { min, max: min.saturating_add(Vec3::new(cell_size, cell_size, cell_size)) }
}

/// In a grid of whole width and length, with a conversion factor that is
/// exactly the reciprocal of the cell size, the least corner of a cell's
/// bounds hashes back to the index of the cell, as long as the corner is
/// within the representable range.
pub proof fn lemma_cell_bounds_hash_back(
    cell: u64,
    length: Fixed,
    width: Fixed,
    conv_factor: Fixed,
    cell_size: Fixed,
    l: int,
    w: int,
)
    requires
        exact_reciprocal(conv_factor, cell_size),
        length.raw == l * 65536,
        width.raw == w * 65536,
        l > 0,
        w > 0,
        cell * cell_size.raw <= i32::MAX,
    ensures
        spec_cell_index(
            spec_cell_bounds(cell, length, width, cell_size).min,
            length,
            width,
            conv_factor,
        ) == cell,
{
    let c = cell as int;
    let s = cell_size.raw as int;
    let i = c % w;
    let rest = c / w;
    let j = rest % l;
    let k = rest / l;
    assert(whole_part(width) == w && whole_part(length) == l) by {
        lemma_fundamental_div_mod_converse(width.raw as int, 65536, w, 0);
        lemma_fundamental_div_mod_converse(length.raw as int, 65536, l, 0);
    }
    lemma_fundamental_div_mod(c, w);
    lemma_fundamental_div_mod(rest, l);
    lemma_div_pos_is_pos(c, w);
    lemma_div_pos_is_pos(rest, l);
    lemma_mod_bound(c, w);
    lemma_mod_bound(rest, l);
    assert(rest <= c && k <= rest) by {
        lemma_div_is_ordered_by_denominator(c, 1, w);
        lemma_div_is_ordered_by_denominator(rest, 1, l);
        assert(c / 1 == c && rest / 1 == rest);
    }
    assert(0 <= i * s <= c * s && 0 <= j * s <= c * s && 0 <= k * s <= c * s)
        by (nonlinear_arith)
        requires
            0 <= i <= c,
            0 <= j <= c,
            0 <= k <= c,
            s > 0,
    ;
    let min = spec_cell_bounds(cell, length, width, cell_size).min;
    assert(min.x.raw == i * s && min.y.raw == j * s && min.z.raw == k * s);
    assert(i * s < (i + 1) * s) by (nonlinear_arith)
        requires
            s > 0,
    ;
    assert(row_major(i, j, k, l, w) == c) by (nonlinear_arith)
        requires
            c == w * rest + i,
            rest == l * k + j,
    ;
    lemma_index_is_row_major(min, length, width, conv_factor, cell_size, i, j, k, l, w);
}

/// `cells` with `cell` noted: unchanged where it is noted already, else with
/// `cell` at the end.
pub open spec fn with_cell(cells: Seq<u64>, cell: u64) -> Seq<u64> {
    if cells.contains(cell) {
        cells
    } else {
        cells.push(cell)
    }
}

fn same_cells(a: &Vec<u64>, b: &Vec<u64>) -> (r: bool)
    ensures
        r == (a@ == b@),
{
    if a.len() != b.len() {
        return false;
    }
    let mut i: usize = 0;
    while i < a.len()
        invariant
            a.len() == b.len(),
            i <= a.len(),
            forall|k: int| 0 <= k < i ==> a@[k] == b@[k],
        decreases a.len() - i,
    {
        if a[i] != b[i] {
            return false;
        }
        i += 1;
    }
    assert(a@ =~= b@);
    true
}

impl World {
    /// The agents, in the order in which they were added.
    pub closed spec fn boids(self) -> Seq<Boid> {
        self.boids@
    }

    /// The extent of the domain along z.
    pub closed spec fn length(self) -> Fixed {
        self.length
    }

    /// The extent of the domain along x.
    pub closed spec fn width(self) -> Fixed {
        self.width
    }

    /// The extent of the domain along y.
    pub closed spec fn height(self) -> Fixed {
        self.height
    }

    /// The edge length of a cell.
    pub closed spec fn cell_size(self) -> Fixed {
        self.cell_size
    }

    /// The number of cells that the table was sized for when the world was
    /// made.
    pub closed spec fn reserved_cells(self) -> usize {
        self.reserved
    }

    /// The factor that scales a coordinate down to a cell coordinate: the
    /// reciprocal of the cell size.
    pub open spec fn conv_factor(self) -> Fixed {
        self.cell_size().spec_recip()
    }

    /// The agents registered in the cell with the given index, in the order
    /// of registration.
    pub closed spec fn members(self, cell: u64) -> Seq<usize> {
        if self.hash_table@.contains_key(cell) {
            self.hash_table@[cell].members()
        } else {
            Seq::empty()
        }
    }

    /// Whether the table holds a cell with the given index.  A cell comes to
    /// be when an agent is first registered in it, and stays.
    pub closed spec fn has_cell(self, cell: u64) -> bool {
        self.hash_table@.contains_key(cell)
    }

    /// The indices of the cells an agent is registered in, in the order of
    /// registration.
    pub closed spec fn cells_of(self, agent: int) -> Seq<u64> {
        if 0 <= agent < self.known_cells@.len() {
            self.known_cells@[agent]@
        } else {
            Seq::empty()
        }
    }

    /// The indices of the cells that an agent's box touches where it is now,
    /// each once.
    pub open spec fn occupied_cells(self, agent: int) -> Seq<u64> {
        first_occurrences(
            self.boids()[agent].world_cells(self.length(), self.width(), self.conv_factor()),
        )
    }

    /// Whether the table agrees with where the agents are now.
    pub open spec fn reconciled(self) -> bool {
        forall|agent: int|
            0 <= agent < self.boids().len() ==> #[trigger] self.cells_of(agent)
                == self.occupied_cells(agent)
    }

    /// Whether two worlds have the same domain and cell size, and a table
    /// sized for the same number of cells.
    pub open spec fn same_grid(self, other: World) -> bool {
        &&& self.length() == other.length()
        &&& self.width() == other.width()
        &&& self.height() == other.height()
        &&& self.cell_size() == other.cell_size()
        &&& self.reserved_cells() == other.reserved_cells()
    }

    /// Whether two worlds have the same table of cells.
    pub open spec fn same_table(self, other: World) -> bool {
        &&& forall|cell: u64| #[trigger] self.members(cell) == other.members(cell)
        &&& forall|cell: u64| #[trigger] self.has_cell(cell) == other.has_cell(cell)
        &&& forall|agent: int| #[trigger] self.cells_of(agent) == other.cells_of(agent)
    }

    /// The invariant of a world: the domain is a cube with a positive side
    /// and a positive cell size, no cell holds an agent twice, and an agent
    /// is a member of a cell exactly where that cell is among the agent's
    /// cells.
    pub closed spec fn wf(self) -> bool {
        &&& self.length.raw > 0
        &&& self.width == self.length
        &&& self.height == self.length
        &&& self.cell_size.raw > 0
        &&& self.known_cells@.len() == self.boids@.len()
        &&& forall|agent: int|
            0 <= agent < self.boids@.len() ==> (#[trigger] self.known_cells@[agent])@.no_duplicates()
        &&& forall|cell: u64| #[trigger]
            self.hash_table@.contains_key(cell) ==> {
                &&& self.hash_table@[cell].wf()
                &&& self.hash_table@[cell].bounds() == spec_cell_bounds(
                    cell,
                    self.length,
                    self.width,
                    self.cell_size,
                )
            }
        &&& forall|cell: u64, agent: usize| #[trigger]
            self.members(cell).contains(agent) ==> agent < self.boids@.len() && self.cells_of(
                agent as int,
            ).contains(cell)
        &&& forall|agent: int, cell: u64|
            0 <= agent < self.boids@.len() && #[trigger] self.cells_of(agent).contains(cell)
                ==> self.members(cell).contains(agent as usize)
    }

    /// What the invariant says of the table, for one cell and one agent.
    pub proof fn lemma_membership(self, cell: u64, agent: usize)
        requires
            self.wf(),
        ensures
            self.members(cell).no_duplicates(),
            self.cells_of(agent as int).no_duplicates(),
            self.members(cell).contains(agent) <==> agent < self.boids().len() && self.cells_of(
                agent as int,
            ).contains(cell),
            self.members(cell).len() > 0 ==> self.has_cell(cell),
            self.length().raw > 0,
            self.width() == self.length(),
            self.height() == self.length(),
            self.cell_size().raw > 0,
    {
        if self.hash_table@.contains_key(cell) {
            assert(self.hash_table@[cell].wf());
        }
        if agent < self.boids@.len() {
            assert(self.known_cells@[agent as int]@.no_duplicates());
        }
    }

    /// A change to the agents that leaves the cells and the registrations
    /// alone, and registers new agents nowhere, keeps the invariant.
    proof fn lemma_table_kept(self, after: World)
        requires
            self.wf(),
            after.length == self.length,
            after.width == self.width,
            after.height == self.height,
            after.cell_size == self.cell_size,
            after.reserved == self.reserved,
            after.hash_table@ == self.hash_table@,
            after.boids@.len() >= self.boids@.len(),
            after.known_cells@.len() == after.boids@.len(),
            forall|agent: int|
                0 <= agent < self.boids@.len() ==> #[trigger] after.known_cells@[agent]
                    == self.known_cells@[agent],
            forall|agent: int|
                self.boids@.len() <= agent < after.boids@.len()
                    ==> (#[trigger] after.known_cells@[agent])@ == Seq::<u64>::empty(),
        ensures
            after.wf(),
            after.same_grid(self),
            after.same_table(self),
    {
        assert forall|cell: u64| #[trigger] after.members(cell) == self.members(cell) by {}
        assert forall|cell: u64| #[trigger] after.has_cell(cell) == self.has_cell(cell) by {}
        assert forall|agent: int| #[trigger] after.cells_of(agent) == self.cells_of(agent) by {}
        assert forall|cell: u64, agent: usize| #[trigger]
            after.members(cell).contains(agent) implies agent < after.boids@.len()
            && after.cells_of(agent as int).contains(cell) by {
            assert(self.members(cell).contains(agent));
        }
        assert forall|agent: int, cell: u64|
            0 <= agent < after.boids@.len() && #[trigger] after.cells_of(agent).contains(
                cell,
            ) implies after.members(cell).contains(agent as usize) by {
            assert(self.cells_of(agent).contains(cell));
        }
    }

    /// A world with a cubic domain of side `side_len`, divided into
    /// `cells_per_side` cells along each axis, without agents.  The table is
    /// sized for the whole grid, the cube of `cells_per_side` cells.
    pub fn new(side_len: Fixed, cells_per_side: usize) -> (r: Result<World, ConfigurationError>)
        ensures
            match r {
                Ok(world) => {
                    &&& config_error(side_len, cells_per_side).is_none()
                    &&& world.wf()
                    &&& world.reconciled()
                    &&& world.boids() == Seq::<Boid>::empty()
                    &&& world.length() == side_len
                    &&& world.width() == side_len
                    &&& world.height() == side_len
                    &&& world.cell_size() == side_len.spec_div_count(cells_per_side)
                    &&& world.reserved_cells() == grid_size(cells_per_side)
                    &&& forall|cell: u64| #[trigger] world.members(cell) == Seq::<usize>::empty()
                    &&& forall|cell: u64| !#[trigger] world.has_cell(cell)
                },
                Err(e) => config_error(side_len, cells_per_side) == Some(e),
            },
    {
        if !side_len.is_positive() {
            return Err(ConfigurationError::InvalidDomainSize);
        }
        if cells_per_side == 0 {
            return Err(ConfigurationError::InvalidCellCount);
        }
        let square = match cells_per_side.checked_mul(cells_per_side) {
            Some(v) => v,
            None => {
                assert(grid_size(cells_per_side) > usize::MAX) by (nonlinear_arith)
                    requires
                        cells_per_side * cells_per_side > usize::MAX,
                        cells_per_side >= 1,
                        grid_size(cells_per_side) == cells_per_side * cells_per_side
                            * cells_per_side,
                ;
                return Err(ConfigurationError::InvalidCellCount);
            },
        };
        let num_cells = match square.checked_mul(cells_per_side) {
            Some(v) => v,
            None => {
                return Err(ConfigurationError::InvalidCellCount);
            },
        };
        let cell_size = side_len.div_count(cells_per_side);
        if !cell_size.is_positive() {
            return Err(ConfigurationError::InvalidCellSize);
        }
        let world = World {
            length: side_len,
            width: side_len,
            height: side_len,
            cell_size,
            reserved: num_cells,
            boids: Vec::new(),
            known_cells: Vec::new(),
            hash_table: HashMap::with_capacity(num_cells),
        };
        assert(forall|cell: u64| #[trigger] world.members(cell) == Seq::<usize>::empty());
        assert(forall|cell: u64| !#[trigger] world.has_cell(cell));
        Ok(world)
    }

    /// How many agents the world holds.
    pub fn len(&self) -> (r: usize)
        ensures
            r == self.boids().len(),
    {
        self.boids.len()
    }

    /// The agent with the given handle, if there is one.
    pub fn boid(&self, agent: usize) -> (r: Option<Boid>)
        ensures
            r == if agent < self.boids().len() {
                Some(self.boids()[agent as int])
            } else {
                None
            },
    {
        if agent < self.boids.len() {
            Some(self.boids[agent])
        } else {
            None
        }
    }

    /// The number of cells that the table was sized for when the world was
    /// made.
    pub fn reserved(&self) -> (r: usize)
        ensures
            r == self.reserved_cells(),
    {
        self.reserved
    }

    /// The factor that scales a coordinate down to a cell coordinate.
    pub fn conversion_factor(&self) -> (r: Fixed)
        ensures
            r == self.conv_factor(),
    {
        self.cell_size.recip()
    }

    /// Adds an agent at `pos`, with the unit cube as its box.  The agent is
    /// not registered in any cell until the next `update`.
    pub fn add_boid(&mut self, pos: Vec3)
        requires
            old(self).wf(),
        ensures
            final(self).wf(),
            final(self).same_grid(*old(self)),
            final(self).boids() == old(self).boids().push(
                Boid { position: pos, aabb: Boid::unit_box() },
            ),
            final(self).same_table(*old(self)),
    {
        self.boids.push(Boid::new(pos));
        self.known_cells.push(Vec::new());
        proof {
            old(self).lemma_table_kept(*self);
        }
    }

    /// Moves an agent to `pos`.  The table is left as it is: the agent stays
    /// registered where it was until the next `update`.  An unknown handle
    /// changes nothing.
    pub fn move_boid(&mut self, agent: usize, pos: Vec3)
        requires
            old(self).wf(),
        ensures
            final(self).wf(),
            final(self).same_grid(*old(self)),
            final(self).same_table(*old(self)),
            final(self).boids() == if agent < old(self).boids().len() {
                old(self).boids().update(
                    agent as int,
                    Boid { position: pos, aabb: old(self).boids()[agent as int].aabb },
                )
            } else {
                old(self).boids()
            },
    {
        if agent < self.boids.len() {
            let aabb = self.boids[agent].aabb;
            self.boids.set(agent, Boid { position: pos, aabb });
            proof {
                old(self).lemma_table_kept(*self);
            }
        }
    }

    /// The agents registered in the cell with the given index.
    pub fn cell_members(&self, cell: u64) -> (r: Vec<usize>)
        ensures
            r@ == self.members(cell),
    {
        match self.hash_table.get(&cell) {
            Some(c) => c.agents(),
            None => Vec::new(),
        }
    }

    /// The cell with the given index, if the table holds one.
    pub fn cell(&self, cell: u64) -> (r: Option<&Cell>)
        requires
            self.wf(),
        ensures
            r.is_some() == self.has_cell(cell),
            match r {
                Some(c) => {
                    &&& c.wf()
                    &&& c.members() == self.members(cell)
                    &&& c.bounds() == spec_cell_bounds(
                        cell,
                        self.length(),
                        self.width(),
                        self.cell_size(),
                    )
                },
                None => true,
            },
    {
        self.hash_table.get(&cell)
    }

    /// The agents near the point `p`: those whose box touches the cell that
    /// `p` hashes to.  The table must be up to date, as it is after an
    /// `update`.
    pub fn agents_near(&self, p: Vec3) -> (r: Vec<usize>)
        requires
            self.wf(),
            self.reconciled(),
        ensures
            r@ == self.members(
                spec_cell_index(p, self.length(), self.width(), self.conv_factor()),
            ),
            r@.no_duplicates(),
            forall|agent: usize| #[trigger]
                r@.contains(agent) <==> agent < self.boids().len() && self.boids()[agent as int]
                    .world_cells(self.length(), self.width(), self.conv_factor()).contains(
                    spec_cell_index(p, self.length(), self.width(), self.conv_factor()),
                ),
    {
        let cell = cell_index(p, self.length, self.width, self.cell_size.recip());
        proof {
            assert forall|agent: usize| #[trigger]
                self.members(cell).contains(agent) <==> agent < self.boids().len()
                    && self.boids()[agent as int].world_cells(
                    self.length(),
                    self.width(),
                    self.conv_factor(),
                ).contains(cell) by {
                self.lemma_membership(cell, agent);
                if agent < self.boids().len() {
                    self.lemma_reconciled_membership(agent, cell);
                }
            }
        }
        self.cell_members(cell)
    }

    /// The indices of the cells that an agent is registered in.
    pub fn agent_cells(&self, agent: usize) -> (r: Vec<u64>)
        ensures
            r@ == self.cells_of(agent as int),
    {
        if agent < self.known_cells.len() {
            self.known_cells[agent].clone()
        } else {
            Vec::new()
        }
    }

    /// Registers an agent in the cell with the given index.  Registering an
    /// agent where it is registered already changes nothing, and so does an
    /// unknown handle.
    pub fn register(&mut self, cell_index: u64, agent: usize)
        requires
            old(self).wf(),
        ensures
            final(self).wf(),
            final(self).same_grid(*old(self)),
            final(self).boids() == old(self).boids(),
            agent < old(self).boids().len() ==> {
                &&& final(self).members(cell_index) == with_agent(
                    old(self).members(cell_index),
                    agent,
                )
                &&& final(self).cells_of(agent as int) == with_cell(
                    old(self).cells_of(agent as int),
                    cell_index,
                )
                &&& final(self).has_cell(cell_index)
            },
            agent >= old(self).boids().len() ==> final(self).same_table(*old(self)),
            forall|cell: u64|
                cell != cell_index ==> #[trigger] final(self).members(cell) == old(self).members(
                    cell,
                ),
            forall|cell: u64|
                cell != cell_index ==> #[trigger] final(self).has_cell(cell) == old(self).has_cell(
                    cell,
                ),
            forall|other: int|
                other != agent ==> #[trigger] final(self).cells_of(other) == old(self).cells_of(
                    other,
                ),
    {
        if agent >= self.boids.len() {
            return ;
        }
        proof {
            old(self).lemma_membership(cell_index, agent);
            lemma_with_agent(old(self).members(cell_index), agent);
        }
        let mut cell = match self.hash_table.remove(&cell_index) {
            Some(cell) => cell,
            None => {
                let bounds = cell_bounds(cell_index, self.length, self.width, self.cell_size);
                Cell::new(bounds.min, bounds.max)
            },
        };
        assert(cell.members() == old(self).members(cell_index));
        let known = cell.contains(agent);
        cell.register(agent);
        self.hash_table.insert(cell_index, cell);
        if !known {
            self.known_cells[agent].push(cell_index);
        }
        proof {
            assert(self.members(cell_index) == with_agent(old(self).members(cell_index), agent));
            assert(self.cells_of(agent as int) == with_cell(
                old(self).cells_of(agent as int),
                cell_index,
            ));
            assert forall|c: u64| c != cell_index implies #[trigger] self.members(c) == old(
                self,
            ).members(c) by {}
            assert forall|other: int| other != agent implies #[trigger] self.cells_of(other)
                == old(self).cells_of(other) by {}
            assert forall|c: u64, m: usize| #[trigger]
                self.members(c).contains(m) implies m < self.boids@.len() && self.cells_of(
                m as int,
            ).contains(c) by {
                if c == cell_index && m == agent {
                    if old(self).cells_of(agent as int).contains(cell_index) {
                    } else {
                        assert(self.cells_of(agent as int)[old(self).cells_of(
                            agent as int,
                        ).len() as int] == cell_index);
                    }
                } else {
                    assert(old(self).members(c).contains(m));
                    assert(old(self).cells_of(m as int).contains(c));
                    if m == agent {
                        let i = old(self).cells_of(m as int).index_of(c);
                        assert(self.cells_of(m as int)[i] == c);
                    }
                }
            }
            assert forall|a: int, c: u64|
                0 <= a < self.boids@.len() && #[trigger] self.cells_of(a).contains(
                    c,
                ) implies self.members(c).contains(a as usize) by {
                if c == cell_index && a == agent {
                } else {
                    if a == agent {
                        let i = self.cells_of(a).index_of(c);
                        assert(self.cells_of(a)[i] == c);
                        assert(old(self).cells_of(a)[i] == c);
                    }
                    assert(old(self).cells_of(a).contains(c));
                    assert(old(self).members(c).contains(a as usize));
                }
            }
        }
    }

    /// Takes an agent out of the cell it was registered in last.
    fn unregister_last(&mut self, agent: usize)
        requires
            old(self).wf(),
            agent < old(self).boids().len(),
            old(self).cells_of(agent as int).len() > 0,
        ensures
            final(self).wf(),
            final(self).same_grid(*old(self)),
            final(self).boids() == old(self).boids(),
            final(self).cells_of(agent as int) == old(self).cells_of(agent as int).drop_last(),
            final(self).members(old(self).cells_of(agent as int).last()) == without_agent(
                old(self).members(old(self).cells_of(agent as int).last()),
                agent,
            ),
            forall|cell: u64|
                cell != old(self).cells_of(agent as int).last() ==> #[trigger] final(self).members(
                    cell,
                ) == old(self).members(cell),
            forall|cell: u64| #[trigger] final(self).has_cell(cell) == old(self).has_cell(cell),
            forall|other: int|
                other != agent ==> #[trigger] final(self).cells_of(other) == old(self).cells_of(
                    other,
                ),
    {
        let ghost before = old(self).cells_of(agent as int);
        let count = self.known_cells[agent].len();
        let cell_index = self.known_cells[agent][count - 1];
        proof {
            assert(before[count - 1] == cell_index);
            assert(before.contains(cell_index));
            old(self).lemma_membership(cell_index, agent);
            lemma_without_agent(old(self).members(cell_index), agent);
        }
        match self.hash_table.remove(&cell_index) {
            Some(cell) => {
                let mut cell = cell;
                cell.unregister(agent);
                self.hash_table.insert(cell_index, cell);
            },
            None => {},
        }
        self.known_cells[agent].pop();
        proof {
            let after = self.cells_of(agent as int);
            assert(after == before.drop_last());
            assert(self.members(cell_index) == without_agent(
                old(self).members(cell_index),
                agent,
            ));
            assert forall|c: u64| c != cell_index implies #[trigger] self.members(c) == old(
                self,
            ).members(c) by {}
            assert forall|other: int| other != agent implies #[trigger] self.cells_of(other)
                == old(self).cells_of(other) by {}
            assert forall|c: u64, m: usize| #[trigger]
                self.members(c).contains(m) implies m < self.boids@.len() && self.cells_of(
                m as int,
            ).contains(c) by {
                assert(old(self).members(c).contains(m));
                assert(old(self).cells_of(m as int).contains(c));
                if m == agent {
                    assert(c != cell_index);
                    let i = before.index_of(c);
                    assert(before[i] == c);
                    assert(after[i] == c);
                }
            }
            assert forall|a: int, c: u64|
                0 <= a < self.boids@.len() && #[trigger] self.cells_of(a).contains(
                    c,
                ) implies self.members(c).contains(a as usize) by {
                if a == agent {
                    let i = after.index_of(c);
                    assert(after[i] == c);
                    assert(before[i] == c);
                    assert(c != cell_index);
                }
                assert(old(self).cells_of(a).contains(c));
                assert(old(self).members(c).contains(a as usize));
                if c == cell_index {
                    assert(self.boids.len() == self.boids@.len());
                    assert(without_agent(old(self).members(c), agent).contains(a as usize));
                }
            }
        }
    }

    /// Takes an agent out of every cell it is registered in.  An unknown
    /// handle changes nothing.
    pub fn clear_agent(&mut self, agent: usize)
        requires
            old(self).wf(),
        ensures
            final(self).wf(),
            final(self).same_grid(*old(self)),
            final(self).boids() == old(self).boids(),
            forall|cell: u64| #[trigger]
                final(self).members(cell) == without_agent(old(self).members(cell), agent),
            forall|cell: u64| #[trigger] final(self).has_cell(cell) == old(self).has_cell(cell),
            final(self).cells_of(agent as int) == Seq::<u64>::empty(),
            forall|other: int|
                other != agent ==> #[trigger] final(self).cells_of(other) == old(self).cells_of(
                    other,
                ),
    {
        if agent >= self.boids.len() {
            proof {
                assert forall|cell: u64| #[trigger]
                    self.members(cell) == without_agent(old(self).members(cell), agent) by {
                    old(self).lemma_membership(cell, agent);
                }
            }
            return ;
        }
        let ghost before = old(self).cells_of(agent as int);
        while self.known_cells[agent].len() > 0
            invariant
                old(self).wf(),
                self.wf(),
                self.same_grid(*old(self)),
                self.boids() == old(self).boids(),
                agent < self.boids().len(),
                before == old(self).cells_of(agent as int),
                self.cells_of(agent as int) == self.known_cells@[agent as int]@,
                self.cells_of(agent as int).len() <= before.len(),
                self.cells_of(agent as int) == before.take(
                    self.cells_of(agent as int).len() as int,
                ),
                forall|other: int|
                    other != agent ==> #[trigger] self.cells_of(other) == old(self).cells_of(
                        other,
                    ),
                forall|cell: u64| #[trigger] self.has_cell(cell) == old(self).has_cell(cell),
                forall|cell: u64| #[trigger]
                    self.members(cell) == if before.contains(cell) && !self.cells_of(
                        agent as int,
                    ).contains(cell) {
                        without_agent(old(self).members(cell), agent)
                    } else {
                        old(self).members(cell)
                    },
            decreases self.cells_of(agent as int).len(),
        {
            let ghost prev = *self;
            let ghost cur = self.cells_of(agent as int);
            let ghost last = cur.last();
            self.unregister_last(agent);
            proof {
                let next = self.cells_of(agent as int);
                old(self).lemma_membership(last, agent);
                assert(next =~= before.take(next.len() as int));
                assert(before[cur.len() - 1] == last);
                assert(before.contains(last));
                assert(!next.contains(last)) by {
                    if next.contains(last) {
                        let i = next.index_of(last);
                        assert(next[i] == last);
                        assert(before[i] == last);
                    }
                }
                assert(cur.contains(last)) by {
                    assert(cur[cur.len() - 1] == last);
                }
                assert forall|cell: u64| #[trigger]
                    self.members(cell) == if before.contains(cell) && !next.contains(cell) {
                        without_agent(old(self).members(cell), agent)
                    } else {
                        old(self).members(cell)
                    } by {
                    if cell != last {
                        assert(self.members(cell) == prev.members(cell));
                        if next.contains(cell) {
                            let i = next.index_of(cell);
                            assert(next[i] == cell);
                            assert(cur[i] == cell);
                        }
                        if cur.contains(cell) {
                            let i = cur.index_of(cell);
                            assert(cur[i] == cell);
                            assert(next[i] == cell);
                        }
                    }
                }
            }
        }
        proof {
            assert(self.cells_of(agent as int) =~= Seq::<u64>::empty());
            assert forall|cell: u64| #[trigger]
                self.members(cell) == without_agent(old(self).members(cell), agent) by {
                old(self).lemma_membership(cell, agent);
            }
        }
    }

    /// Brings the table up to date with where the agents are now: each
    /// agent's box is moved to the agent's position, and afterwards the agent
    /// is registered in exactly the cells that the corners of that box hash
    /// to.  Agents whose cells have not changed are left alone.
    pub fn update(&mut self)
        requires
            old(self).wf(),
        ensures
            final(self).wf(),
            final(self).reconciled(),
            final(self).same_grid(*old(self)),
            final(self).boids() == old(self).boids(),
            forall|cell: u64, agent: usize| #[trigger]
                final(self).members(cell).contains(agent) <==> agent < old(self).boids().len()
                    && old(self).boids()[agent as int].world_cells(
                    old(self).length(),
                    old(self).width(),
                    old(self).conv_factor(),
                ).contains(cell),
            forall|cell: u64| #[trigger]
                final(self).has_cell(cell) == (old(self).has_cell(cell) || final(self).members(
                    cell,
                ).len() > 0),
    {
        let conv = self.cell_size.recip();
        let n = self.boids.len();
        let mut agent: usize = 0;
        while agent < n
            invariant
                self.wf(),
                self.same_grid(*old(self)),
                self.boids() == old(self).boids(),
                n == self.boids().len(),
                agent <= n,
                conv == self.conv_factor(),
                self.length == self.length(),
                self.width == self.width(),
                old(self).wf(),
                forall|done: int|
                    0 <= done < agent ==> #[trigger] self.cells_of(done) == self.occupied_cells(
                        done,
                    ),
                forall|later: int|
                    agent <= later < n ==> #[trigger] self.cells_of(later) == old(self).cells_of(
                        later,
                    ),
                forall|cell: u64| old(self).has_cell(cell) ==> #[trigger] self.has_cell(cell),
                forall|cell: u64| #[trigger]
                    self.has_cell(cell) ==> old(self).has_cell(cell) || self.members(cell).len()
                        > 0,
            decreases n - agent,
        {
            let placed = self.boids[agent].placed();
            let desired = placed.grid_cells(self.length, self.width, conv).distinct();
            assert(desired@ == self.occupied_cells(agent as int));
            proof {
                lemma_first_occurrences_distinct(
                    self.boids()[agent as int].world_cells(
                        self.length(),
                        self.width(),
                        self.conv_factor(),
                    ),
                );
            }
            if !same_cells(&desired, &self.known_cells[agent]) {
                let ghost prev = *self;
                self.clear_agent(agent);
                proof {
                    assert forall|cell: u64| #[trigger]
                        self.has_cell(cell) implies old(self).has_cell(cell) || self.members(
                        cell,
                    ).len() > 0 by {
                        if !old(self).has_cell(cell) {
                            prev.lemma_membership(cell, agent);
                            old(self).lemma_membership(cell, agent);
                            assert(!prev.members(cell).contains(agent));
                        }
                    }
                }
                let mut k: usize = 0;
                while k < desired.len()
                    invariant
                        self.wf(),
                        self.same_grid(*old(self)),
                        self.boids() == old(self).boids(),
                        n == self.boids().len(),
                        agent < n,
                        k <= desired.len(),
                        desired@.no_duplicates(),
                        desired@ == self.occupied_cells(agent as int),
                        self.cells_of(agent as int) == desired@.take(k as int),
                        forall|done: int|
                            0 <= done < agent ==> #[trigger] self.cells_of(done)
                                == self.occupied_cells(done),
                        forall|later: int|
                            agent < later < n ==> #[trigger] self.cells_of(later) == old(
                                self,
                            ).cells_of(later),
                        forall|cell: u64| old(self).has_cell(cell) ==> #[trigger] self.has_cell(cell),
                        forall|cell: u64| #[trigger]
                            self.has_cell(cell) ==> old(self).has_cell(cell) || self.members(
                                cell,
                            ).len() > 0,
                    decreases desired.len() - k,
                {
                    let ghost sofar = self.cells_of(agent as int);
                    let ghost stage = *self;
                    self.register(desired[k], agent);
                    proof {
                        assert forall|cell: u64| #[trigger]
                            self.has_cell(cell) implies old(self).has_cell(cell) || self.members(
                            cell,
                        ).len() > 0 by {
                            if cell == desired@[k as int] {
                                lemma_register_idempotent(stage.members(cell), agent);
                                assert(self.members(cell).contains(agent));
                            }
                        }
                        assert(!sofar.contains(desired@[k as int])) by {
                            if sofar.contains(desired@[k as int]) {
                                let i = sofar.index_of(desired@[k as int]);
                                assert(sofar[i] == desired@[k as int]);
                                assert(desired@[i] == desired@[k as int]);
                            }
                        }
                        assert(self.cells_of(agent as int) =~= desired@.take(k + 1));
                    }
                    k += 1;
                }
                assert(desired@.take(desired.len() as int) =~= desired@);
            }
            agent += 1;
        }
        proof {
            assert forall|cell: u64| #[trigger]
                self.has_cell(cell) == (old(self).has_cell(cell) || self.members(cell).len()
                    > 0) by {
                self.lemma_membership(cell, 0);
            }
            assert forall|cell: u64, agent: usize| #[trigger]
                self.members(cell).contains(agent) <==> agent < old(self).boids().len() && old(
                    self,
                ).boids()[agent as int].world_cells(
                    old(self).length(),
                    old(self).width(),
                    old(self).conv_factor(),
                ).contains(cell) by {
                self.lemma_membership(cell, agent);
                if agent < self.boids().len() {
                    self.lemma_reconciled_membership(agent, cell);
                }
            }
        }
    }

    /// Clears `buff` and fills it with one entry for each agent, in the order
    /// in which the agents were added.
    pub fn fill_instance_buffer(&self, buff: &mut Vec<BoidInstance>)
        ensures
            final(buff)@.len() == self.boids().len(),
            forall|i: int|
                0 <= i < self.boids().len() ==> (#[trigger] final(buff)@[i]).translation
                    == self.boids()[i].position,
    {
        buff.clear();
        let mut i: usize = 0;
        while i < self.boids.len()
            invariant
                i <= self.boids.len(),
                buff@.len() == i,
                forall|k: int|
                    0 <= k < i ==> (#[trigger] buff@[k]).translation == self.boids@[k].position,
            decreases self.boids.len() - i,
        {
            buff.push(BoidInstance { translation: self.boids[i].position });
            i += 1;
        }
    }

    /// After an `update`, an agent is a member of exactly the cells that the
    /// corners of its box hash to where it is now.  So an agent that has
    /// moved is absent from a cell that it has left, and present in each
    /// cell that it has entered.
    pub proof fn lemma_reconciled_membership(self, agent: usize, cell: u64)
        requires
            self.wf(),
            self.reconciled(),
            agent < self.boids().len(),
        ensures
            self.members(cell).contains(agent) <==> self.boids()[agent as int].world_cells(
                self.length(),
                self.width(),
                self.conv_factor(),
            ).contains(cell),
    {
        self.lemma_membership(cell, agent);
        lemma_first_occurrences_distinct(
            self.boids()[agent as int].world_cells(
                self.length(),
                self.width(),
                self.conv_factor(),
            ),
        );
        assert(self.cells_of(agent as int) == self.occupied_cells(agent as int));
    }

    /// After an `update`, an agent that has moved out of the cell `from` and
    /// into the cell `to` is absent from the first and present in the second.
    pub proof fn lemma_moved_agent_changes_cells(self, agent: usize, from: u64, to: u64)
        requires
            self.wf(),
            self.reconciled(),
            agent < self.boids().len(),
            !self.boids()[agent as int].world_cells(
                self.length(),
                self.width(),
                self.conv_factor(),
            ).contains(from),
            self.boids()[agent as int].world_cells(
                self.length(),
                self.width(),
                self.conv_factor(),
            ).contains(to),
        ensures
            !self.members(from).contains(agent),
            self.members(to).contains(agent),
    {
        self.lemma_reconciled_membership(agent, from);
        self.lemma_reconciled_membership(agent, to);
    }
}

} // verus!

//! Buckets of the grid.

use vstd::prelude::*;
use crate::aabb::AABB;
use crate::vec3::Vec3;

verus! {

/// One bucket of the grid: its bounds in space, and the agents registered in
/// it, each at most once, in the order in which they were registered.
pub struct Cell {
    min: Vec3,
    max: Vec3,
    boids_inside: Vec<usize>,
}

/// `members` with `agent` registered: unchanged where it is a member already,
/// else with `agent` at the end.
pub open spec fn with_agent(members: Seq<usize>, agent: usize) -> Seq<usize> {
    if members.contains(agent) {
        members
    } else {
        members.push(agent)
    }
}

/// `members` without `agent`, the others in their order.
pub open spec fn without_agent(members: Seq<usize>, agent: usize) -> Seq<usize> {
    if members.contains(agent) {
        members.remove(members.index_of(agent))
    } else {
        members
    }
}

/// Registering twice is registering once.
pub proof fn lemma_register_idempotent(members: Seq<usize>, agent: usize)
    ensures
        with_agent(with_agent(members, agent), agent) == with_agent(members, agent),
        with_agent(with_agent(members, agent), agent).len() == with_agent(members, agent).len(),
        with_agent(members, agent).contains(agent),
{
    if !members.contains(agent) {
        assert(members.push(agent)[members.len() as int] == agent);
    }
}

/// Registering keeps a membership free of repetitions, and changes nothing
/// for the other agents.
pub proof fn lemma_with_agent(members: Seq<usize>, agent: usize)
    requires
        members.no_duplicates(),
    ensures
        with_agent(members, agent).no_duplicates(),
        with_agent(members, agent).contains(agent),
        forall|other: usize|
            other != agent ==> (#[trigger] with_agent(members, agent).contains(other)
                <==> members.contains(other)),
{
    let after = with_agent(members, agent);
    if !members.contains(agent) {
        assert(after[members.len() as int] == agent);
        assert forall|other: usize| other != agent implies (#[trigger] after.contains(other)
            <==> members.contains(other)) by {
            if members.contains(other) {
                let i = members.index_of(other);
                assert(after[i] == other);
            }
        }
    }
}

/// Removing an agent from a membership free of repetitions leaves it without
/// that agent, and changes nothing for the other agents.
pub proof fn lemma_without_agent(members: Seq<usize>, agent: usize)
    requires
        members.no_duplicates(),
    ensures
        without_agent(members, agent).no_duplicates(),
        !without_agent(members, agent).contains(agent),
        forall|other: usize|
            other != agent ==> (#[trigger] without_agent(members, agent).contains(other)
                <==> members.contains(other)),
{
    let after = without_agent(members, agent);
    if members.contains(agent) {
        let at = members.index_of(agent);
        assert(0 <= at < members.len() && members[at] == agent);
        assert forall|i: int, j: int| 0 <= i < j < after.len() implies after[i] != after[j] by {
            let oi = if i < at { i } else { i + 1 };
            let oj = if j < at { j } else { j + 1 };
            assert(after[i] == members[oi]);
            assert(after[j] == members[oj]);
        }
        assert forall|other: usize| (#[trigger] after.contains(other)) implies other != agent
            && members.contains(other) by {
            let i = after.index_of(other);
            assert(0 <= i < after.len() && after[i] == other);
            let oi = if i < at { i } else { i + 1 };
            assert(members[oi] == other);
        }
        assert forall|other: usize| other != agent && members.contains(other) implies (
        #[trigger] after.contains(other)) by {
            let oi = members.index_of(other);
            assert(0 <= oi < members.len() && members[oi] == other);
            let i = if oi < at { oi } else { oi - 1 };
            assert(after[i] == other);
        }
    }
}

impl Cell {
    /// The agents registered in the cell, in the order of registration.
    pub closed spec fn members(self) -> Seq<usize> {
        self.boids_inside@
    }

    /// The bounds that the cell was made with.
    pub closed spec fn bounds(self) -> AABB {
        AABB { min: self.min, max: self.max }
    }

    /// A cell is well formed when no agent is registered in it twice.
    pub open spec fn wf(self) -> bool {
        self.members().no_duplicates()
    }

    /// An empty cell with the given bounds.
    pub fn new(min: Vec3, max: Vec3) -> (r: Cell)
        ensures
            r.members() == Seq::<usize>::empty(),
            r.bounds() == (AABB { min, max }),
            r.wf(),
    {
        Cell { min, max, boids_inside: Vec::new() }
    }

    /// The position of `agent` in the membership, if it is registered.
    fn position(&self, agent: usize) -> (r: Option<usize>)
        ensures
            match r {
                Some(i) => i < self.members().len() && self.members()[i as int] == agent,
                None => !self.members().contains(agent),
            },
    {
        let mut i: usize = 0;
        while i < self.boids_inside.len()
            invariant
                i <= self.boids_inside.len(),
                forall|k: int| 0 <= k < i ==> self.boids_inside@[k] != agent,
            decreases self.boids_inside.len() - i,
        {
            if self.boids_inside[i] == agent {
                return Some(i);
            }
            i += 1;
        }
        None
    }

    /// Whether `agent` is registered in the cell.
    pub fn contains(&self, agent: usize) -> (r: bool)
        ensures
            r == self.members().contains(agent),
    {
        self.position(agent).is_some()
    }

    /// How many agents are registered in the cell.
    pub fn len(&self) -> (r: usize)
        ensures
            r == self.members().len(),
    {
        self.boids_inside.len()
    }

    /// The least corner of the cell's bounds.
    pub fn min(&self) -> (r: Vec3)
        ensures
            r == self.bounds().min,
    {
        self.min
    }

    /// The greatest corner of the cell's bounds.
    pub fn max(&self) -> (r: Vec3)
        ensures
            r == self.bounds().max,
    {
        self.max
    }

    /// The agents registered in the cell, in the order of registration.
    pub fn agents(&self) -> (r: Vec<usize>)
        ensures
            r@ == self.members(),
    {
        self.boids_inside.clone()
    }

    /// Registers `agent` in the cell.  Registering an agent that is a member
    /// already changes nothing.
    pub fn register(&mut self, agent: usize)
        requires
            old(self).wf(),
        ensures
            final(self).members() == with_agent(old(self).members(), agent),
            final(self).bounds() == old(self).bounds(),
            final(self).wf(),
    {
        proof {
            lemma_with_agent(self.members(), agent);
        }
        if self.position(agent).is_none() {
            self.boids_inside.push(agent);
        }
    }

    /// Removes `agent` from the cell, if it is registered there.
    pub fn unregister(&mut self, agent: usize)
        requires
            old(self).wf(),
        ensures
            final(self).members() == without_agent(old(self).members(), agent),
            final(self).bounds() == old(self).bounds(),
            final(self).wf(),
    {
        proof {
            lemma_without_agent(self.members(), agent);
        }
        match self.position(agent) {
            Some(i) => {
                assert(self.members().index_of(agent) == i);
                self.boids_inside.remove(i);
            },
            None => {},
        }
    }
}

} // verus!

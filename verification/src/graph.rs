//! The building connection graph: an arena of building records keyed by
//! stable integer handles, each holding a world position, an ordered list of
//! outgoing connection targets and the current highlight state.
//!
//! A connection is a directed edge stored on the producer's side, but it is
//! symmetric in effect: for any pair of buildings at most one of the two
//! directions may exist, and neither may be re-created.  Connections are
//! append-only; the list order is the production scheduling order.

use vstd::prelude::*;

verus! {

use crate::geometry::Vec3;

/// Stable handle of a building in its graph.
pub type BuildingId = usize;

/// Tri-state visual indicator of a building's interaction role.
/// `Connecting` wins over `Hovering`, which wins over `Off`.
#[derive(Clone, Copy, Debug, PartialEq, Eq, Structural)]
pub enum Glowing {
    Off,
    Hovering,
    Connecting,
}

/// The recoverable rejections of the logistics core.  Each operation that
/// would violate an invariant is rejected without mutation.
#[derive(Clone, Copy, Debug, PartialEq, Eq, Structural)]
pub enum FlowError {
    /// A connection's source equals its target.
    SelfConnection,
    /// The connection already exists, in either direction.
    DuplicateConnection,
    /// A referenced building id is not present (defensive; buildings are
    /// never removed during play).
    MissingBuilding,
    /// A placement session was started while one is active.
    SessionAlreadyActive,
}

/// One building record.
pub struct Building {
    pub position: Vec3,
    pub connected: Vec<BuildingId>,
    pub glowing: Glowing,
}

/// Mathematical model of a building record.
pub ghost struct BuildingModel {
    pub position: Vec3,
    pub connected: Seq<BuildingId>,
    pub glowing: Glowing,
}

impl View for Building {
    type V = BuildingModel;

    open spec fn view(&self) -> BuildingModel {
        BuildingModel { position: self.position, connected: self.connected@, glowing: self.glowing }
    }
}

/// `a` stores an outgoing connection to `b`.
pub open spec fn linked(g: Seq<BuildingModel>, a: BuildingId, b: BuildingId) -> bool {
    a < g.len() && g[a as int].connected.contains(b)
}

/// The pair `(a, b)` is connected, in whichever direction it is stored.
pub open spec fn connected_either(g: Seq<BuildingModel>, a: BuildingId, b: BuildingId) -> bool {
    linked(g, a, b) || linked(g, b, a)
}

/// Well-formedness of one building record: a bounded position and a
/// duplicate-free connection list whose targets are valid and not the
/// building itself.
pub open spec fn building_wf(g: Seq<BuildingModel>, i: int) -> bool {
    &&& g[i].position.in_bounds()
    &&& g[i].connected.no_duplicates()
    &&& forall|k: int|
        0 <= k < g[i].connected.len() ==> (#[trigger] g[i].connected[k]) < g.len()
            && g[i].connected[k] != i
}

/// Well-formedness of the graph: every record is well formed and at most one
/// stored direction exists per pair of buildings.
pub open spec fn graph_wf(g: Seq<BuildingModel>) -> bool {
    &&& forall|i: int| 0 <= i < g.len() ==> #[trigger] building_wf(g, i)
    &&& forall|a: BuildingId, b: BuildingId| #[trigger] linked(g, a, b) ==> !linked(g, b, a)
}

/// What `add_connection` answers: self edges are rejected first, then unknown
/// ids, then pairs already connected in either direction.
pub open spec fn add_connection_check(
    g: Seq<BuildingModel>,
    from: BuildingId,
    to: BuildingId,
) -> Result<(), FlowError> {
    if from == to {
        Err(FlowError::SelfConnection)
    } else if !(from < g.len() && to < g.len()) {
        Err(FlowError::MissingBuilding)
    } else if connected_either(g, from, to) {
        Err(FlowError::DuplicateConnection)
    } else {
        Ok(())
    }
}

/// The graph after `add_connection`: on success `to` is appended to `from`'s
/// connection list; on failure nothing changes.
pub open spec fn add_connection_next(
    g: Seq<BuildingModel>,
    from: BuildingId,
    to: BuildingId,
) -> Seq<BuildingModel> {
    if add_connection_check(g, from, to) is Ok {
        g.update(
            from as int,
            BuildingModel {
                position: g[from as int].position,
                connected: g[from as int].connected.push(to),
                glowing: g[from as int].glowing,
            },
        )
    } else {
        g
    }
}

/// The record a fresh building starts from.
pub open spec fn new_building(position: Vec3) -> BuildingModel {
    BuildingModel { position, connected: Seq::empty(), glowing: Glowing::Off }
}

/// The graph, an arena owning every building record.
pub struct BuildingGraph {
    pub buildings: Vec<Building>,
}

impl View for BuildingGraph {
    type V = Seq<BuildingModel>;

    open spec fn view(&self) -> Seq<BuildingModel> {
        self.buildings@.map(|i: int, b: Building| b@)
    }
}

impl BuildingGraph {
    pub open spec fn wf(&self) -> bool {
        graph_wf(self@)
    }

    pub fn new() -> (g: BuildingGraph)
        ensures
            g@ == Seq::<BuildingModel>::empty(),
            g.wf(),
    {
        let g = BuildingGraph { buildings: Vec::new() };
        proof {
            assert(g@ =~= Seq::<BuildingModel>::empty());
        }
        g
    }

    pub fn len(&self) -> (n: usize)
        ensures
            n == self@.len(),
    {
        self.buildings.len()
    }

    /// Creates a building at `position` with no connections and glow `Off`;
    /// always succeeds and returns its handle.
    pub fn add_building(&mut self, position: Vec3) -> (id: BuildingId)
        requires
            old(self).wf(),
            position.in_bounds(),
            old(self)@.len() < usize::MAX,
        ensures
            final(self).wf(),
            id == old(self)@.len(),
            final(self)@ == old(self)@.push(new_building(position)),
    {
        let id = self.buildings.len();
        self.buildings.push(Building { position, connected: Vec::new(), glowing: Glowing::Off });
        proof {
            assert(final(self)@ =~= old(self)@.push(new_building(position)));
            lemma_push_building_wf(old(self)@, position);
        }
        id
    }

    pub fn position_of(&self, b: BuildingId) -> (p: Vec3)
        requires
            b < self@.len(),
        ensures
            p == self@[b as int].position,
    {
        self.buildings[b].position
    }

    pub fn glowing_of(&self, b: BuildingId) -> (s: Glowing)
        requires
            b < self@.len(),
        ensures
            s == self@[b as int].glowing,
    {
        self.buildings[b].glowing
    }

    /// The ordered sequence of outgoing connection targets of `b`; this order
    /// is the production cycling order.
    pub fn connections_of(&self, b: BuildingId) -> (r: &Vec<BuildingId>)
        requires
            b < self@.len(),
        ensures
            r@ == self@[b as int].connected,
    {
        &self.buildings[b].connected
    }

    /// Whether the pair `(a, b)` is connected, in whichever direction it is
    /// stored.
    pub fn connected_either_of(&self, a: BuildingId, b: BuildingId) -> (r: bool)
        requires
            a < self@.len(),
        ensures
            r == connected_either(self@, a, b),
    {
        if contains_id(&self.buildings[a].connected, b) {
            return true;
        }
        if b < self.buildings.len() && contains_id(&self.buildings[b].connected, a) {
            return true;
        }
        false
    }

    /// Commits the connection `(from, to)`, storing it on `from`'s side.
    /// Rejected, leaving the graph untouched, when `from == to`
    /// (`SelfConnection`), when either id is unknown (`MissingBuilding`), or
    /// when the pair is already connected in either direction
    /// (`DuplicateConnection`).
    pub fn add_connection(&mut self, from: BuildingId, to: BuildingId) -> (r: Result<
        (),
        FlowError,
    >)
        requires
            old(self).wf(),
        ensures
            final(self).wf(),
            r == add_connection_check(old(self)@, from, to),
            final(self)@ == add_connection_next(old(self)@, from, to),
            r is Err ==> final(self)@ == old(self)@,
    {
        if from == to {
            return Err(FlowError::SelfConnection);
        }
        let n = self.buildings.len();
        if from >= n || to >= n {
            return Err(FlowError::MissingBuilding);
        }
        if contains_id(&self.buildings[from].connected, to) || contains_id(
            &self.buildings[to].connected,
            from,
        ) {
            return Err(FlowError::DuplicateConnection);
        }
        let b = &mut self.buildings[from];
        b.connected.push(to);
        proof {
            assert(final(self)@ =~= add_connection_next(old(self)@, from, to));
            lemma_add_connection_wf(old(self)@, from, to);
        }
        Ok(())
    }
}

/// Linear membership scan over a connection list.
fn contains_id(v: &Vec<BuildingId>, x: BuildingId) -> (r: bool)
    ensures
        r == v@.contains(x),
{
    let mut i: usize = 0;
    while i < v.len()
        invariant
            i <= v@.len(),
            forall|k: int| 0 <= k < i ==> v@[k] != x,
        decreases v@.len() - i,
    {
        if v[i] == x {
            return true;
        }
        i = i + 1;
    }
    false
}

/// A sequence still contains every element other than the one just pushed.
proof fn lemma_push_contains_other(s: Seq<BuildingId>, x: BuildingId, y: BuildingId)
    requires
        s.push(x).contains(y),
        y != x,
    ensures
        s.contains(y),
{
    let i = choose|i: int| 0 <= i < s.push(x).len() && s.push(x)[i] == y;
    assert(i < s.len());
    assert(s[i] == y);
}

/// Appending a fresh, empty building preserves well-formedness.
proof fn lemma_push_building_wf(g: Seq<BuildingModel>, position: Vec3)
    requires
        graph_wf(g),
        position.in_bounds(),
    ensures
        graph_wf(g.push(new_building(position))),
{
    let g2 = g.push(new_building(position));
    assert forall|i: int| 0 <= i < g2.len() implies #[trigger] building_wf(g2, i) by {
        if i < g.len() {
            assert(building_wf(g, i));
        }
    }
    assert forall|a: BuildingId, b: BuildingId| #[trigger] linked(g2, a, b) implies !linked(
        g2,
        b,
        a,
    ) by {
        assert(linked(g, a, b));
        if b < g.len() {
            assert(g2[b as int] == g[b as int]);
        }
    }
}

/// A successful `add_connection` preserves well-formedness.
proof fn lemma_add_connection_wf(g: Seq<BuildingModel>, from: BuildingId, to: BuildingId)
    requires
        graph_wf(g),
        add_connection_check(g, from, to) is Ok,
    ensures
        graph_wf(add_connection_next(g, from, to)),
{
    let g2 = add_connection_next(g, from, to);
    let c = g[from as int].connected;
    let c2 = c.push(to);
    assert(!c.contains(to));
    assert(building_wf(g, from as int));
    assert forall|i: int| 0 <= i < g2.len() implies #[trigger] building_wf(g2, i) by {
        assert(building_wf(g, i));
        if i == from {
            assert(g2[i].connected == c2);
            assert forall|p: int, q: int|
                0 <= p < c2.len() && 0 <= q < c2.len() && p != q implies c2[p] != c2[q] by {
                if p == c.len() && q < c.len() {
                    assert(c.contains(c[q]));
                } else if q == c.len() && p < c.len() {
                    assert(c.contains(c[p]));
                }
            }
        }
    }
    assert forall|a: BuildingId, b: BuildingId| #[trigger] linked(g2, a, b) implies !linked(
        g2,
        b,
        a,
    ) by {
        if a == from && b == to {
            // the freshly stored direction; the reverse was absent and stays so
            if linked(g2, to, from) {
                assert(g2[to as int].connected == g[to as int].connected);
                assert(linked(g, to, from));
            }
        } else {
            if a == from && b != to {
                lemma_push_contains_other(c, to, b);
            }
            assert(linked(g, a, b));
            assert(!linked(g, b, a));
            if linked(g2, b, a) {
                if b == from {
                    if a == to {
                        // then linked(g, to, from), contradicting the check
                        assert(false);
                    }
                    lemma_push_contains_other(c, to, a);
                    assert(linked(g, b, a));
                } else {
                    assert(g2[b as int].connected == g[b as int].connected);
                    assert(linked(g, b, a));
                }
            }
        }
    }
}

/// Connecting a building to itself always fails with `SelfConnection` and
/// leaves the graph untouched, whatever the handle — even one the graph
/// does not know.
pub proof fn lemma_self_connection_rejected(g: Seq<BuildingModel>, a: BuildingId)
    ensures
        add_connection_check(g, a, a) == Err::<(), FlowError>(FlowError::SelfConnection),
        add_connection_next(g, a, a) == g,
{
}

/// After a connection `(a, b)` succeeds, re-adding it in either direction is
/// rejected as a duplicate.
pub proof fn lemma_duplicate_rejected(g: Seq<BuildingModel>, a: BuildingId, b: BuildingId)
    requires
        graph_wf(g),
        add_connection_check(g, a, b) is Ok,
    ensures
        add_connection_check(add_connection_next(g, a, b), a, b) == Err::<
            (),
            FlowError,
        >(FlowError::DuplicateConnection),
        add_connection_check(add_connection_next(g, a, b), b, a) == Err::<
            (),
            FlowError,
        >(FlowError::DuplicateConnection),
{
    let g2 = add_connection_next(g, a, b);
    assert(g2[a as int].connected.last() == b);
    assert(g2[a as int].connected.contains(b));
    assert(linked(g2, a, b));
}

} // verus!

//! Derived per-building highlight ("glow") state.
//!
//! The glow of every building is a pure function of this tick's interaction
//! state: the active placement source glows `Connecting`, the hovered
//! building (unless it is the source) glows `Hovering`, every other building
//! is `Off`.  Recomputation reports only the buildings whose state actually
//! changed, so downstream rendering is touched no more than needed.

use vstd::prelude::*;

verus! {

use crate::graph::{
    building_wf, graph_wf, linked, BuildingGraph, BuildingId, BuildingModel, Glowing,
};

/// Notification that a building's glow changed, for the rendering layer.
#[derive(Clone, Copy, Debug, PartialEq, Eq, Structural)]
pub struct BuildingGlowChanged {
    pub building: BuildingId,
    pub state: Glowing,
}

/// The glow a building must show given the active placement source and the
/// hovered building.  `Connecting` always wins over `Hovering`.
pub open spec fn derived_glow(
    b: BuildingId,
    source: Option<BuildingId>,
    hovered: Option<BuildingId>,
) -> Glowing {
    if source == Some(b) {
        Glowing::Connecting
    } else if hovered == Some(b) {
        Glowing::Hovering
    } else {
        Glowing::Off
    }
}

/// The graph with every building's glow recomputed.
pub open spec fn glow_updated(
    g: Seq<BuildingModel>,
    source: Option<BuildingId>,
    hovered: Option<BuildingId>,
) -> Seq<BuildingModel> {
    g.map(
        |i: int, b: BuildingModel|
            BuildingModel {
                position: b.position,
                connected: b.connected,
                glowing: derived_glow(i as BuildingId, source, hovered),
            },
    )
}

/// The modified set of a recomputation: one entry, in ascending building
/// order, for each building whose glow differs from the derived one.
pub open spec fn glow_changes(
    g: Seq<BuildingModel>,
    source: Option<BuildingId>,
    hovered: Option<BuildingId>,
) -> Seq<BuildingGlowChanged>
    decreases g.len(),
{
    if g.len() == 0 {
        Seq::empty()
    } else {
        let b = (g.len() - 1) as BuildingId;
        let pre = glow_changes(g.drop_last(), source, hovered);
        if g.last().glowing != derived_glow(b, source, hovered) {
            pre.push(BuildingGlowChanged { building: b, state: derived_glow(b, source, hovered) })
        } else {
            pre
        }
    }
}

/// Recomputing glows touches neither positions nor connections, so it
/// preserves graph well-formedness.
proof fn lemma_glow_updated_wf(
    g: Seq<BuildingModel>,
    source: Option<BuildingId>,
    hovered: Option<BuildingId>,
)
    requires
        graph_wf(g),
    ensures
        graph_wf(glow_updated(g, source, hovered)),
{
    let g2 = glow_updated(g, source, hovered);
    assert forall|i: int| 0 <= i < g2.len() implies #[trigger] building_wf(g2, i) by {
        assert(building_wf(g, i));
        assert(g2[i].connected == g[i].connected);
    }
    assert forall|a: BuildingId, b: BuildingId| #[trigger] linked(g2, a, b) implies !linked(
        g2,
        b,
        a,
    ) by {
        assert(g2[a as int].connected == g[a as int].connected);
        assert(linked(g, a, b));
        if b < g.len() {
            assert(g2[b as int].connected == g[b as int].connected);
        }
    }
}

/// Recomputes every building's glow from this tick's interaction state and
/// returns the modified set, in ascending building order.
pub fn update_glowing(
    graph: &mut BuildingGraph,
    source: Option<BuildingId>,
    hovered: Option<BuildingId>,
) -> (changes: Vec<BuildingGlowChanged>)
    requires
        old(graph).wf(),
    ensures
        final(graph).wf(),
        final(graph)@ == glow_updated(old(graph)@, source, hovered),
        changes@ == glow_changes(old(graph)@, source, hovered),
{
    let ghost g0 = graph@;
    let mut changes: Vec<BuildingGlowChanged> = Vec::new();
    let n = graph.buildings.len();
    let mut i: usize = 0;
    while i < n
        invariant
            n == g0.len(),
            i <= n,
            graph.buildings@.len() == g0.len(),
            forall|k: int|
                0 <= k < i ==> (#[trigger] graph.buildings@[k])@ == glow_updated(
                    g0,
                    source,
                    hovered,
                )[k],
            forall|k: int| i <= k < n ==> (#[trigger] graph.buildings@[k])@ == g0[k],
            changes@ == glow_changes(g0.take(i as int), source, hovered),
        decreases n - i,
    {
        let want = derive_glow_exec(i, source, hovered);
        let current = graph.buildings[i].glowing;
        if !glow_eq(current, want) {
            let b = &mut graph.buildings[i];
            b.glowing = want;
            changes.push(BuildingGlowChanged { building: i, state: want });
        }
        proof {
            let taken = g0.take(i + 1 as int);
            assert(taken.drop_last() =~= g0.take(i as int));
            assert(taken.last() == g0[i as int]);
            assert(graph.buildings@[i as int]@ == glow_updated(g0, source, hovered)[i as int]);
        }
        i = i + 1;
    }
    proof {
        assert(g0.take(n as int) =~= g0);
        assert forall|k: int| 0 <= k < n implies graph@[k] == glow_updated(
            g0,
            source,
            hovered,
        )[k] by {
            assert(graph@[k] == graph.buildings@[k]@);
        }
        assert(graph@ =~= glow_updated(g0, source, hovered));
        lemma_glow_updated_wf(g0, source, hovered);
    }
    changes
}

/// Executable form of `derived_glow`.
fn derive_glow_exec(b: BuildingId, source: Option<BuildingId>, hovered: Option<BuildingId>) -> (s:
    Glowing)
    ensures
        s == derived_glow(b, source, hovered),
{
    if opt_is(source, b) {
        Glowing::Connecting
    } else if opt_is(hovered, b) {
        Glowing::Hovering
    } else {
        Glowing::Off
    }
}

/// Whether `o` holds exactly the building `b`.
fn opt_is(o: Option<BuildingId>, b: BuildingId) -> (r: bool)
    ensures
        r == (o == Some(b)),
{
    match o {
        Some(x) => x == b,
        None => false,
    }
}

fn glow_eq(a: Glowing, b: Glowing) -> (r: bool)
    ensures
        r == (a == b),
{
    a == b
}

/// Highlight priority law: a building that is the active placement source
/// resolves to `Connecting`, never `Hovering`, whatever is hovered — even
/// the building itself.
pub proof fn lemma_connecting_wins(b: BuildingId, hovered: Option<BuildingId>)
    ensures
        derived_glow(b, Some(b), hovered) == Glowing::Connecting,
{
}

/// The modified set reports only real changes: every entry names a building
/// whose stored glow differed from the derived one, with the derived state.
pub proof fn lemma_glow_changes_sound(
    g: Seq<BuildingModel>,
    source: Option<BuildingId>,
    hovered: Option<BuildingId>,
    k: int,
)
    requires
        g.len() <= usize::MAX,
        0 <= k < glow_changes(g, source, hovered).len(),
    ensures
        ({
            let c = glow_changes(g, source, hovered)[k];
            &&& c.building < g.len()
            &&& g[c.building as int].glowing != derived_glow(c.building, source, hovered)
            &&& c.state == derived_glow(c.building, source, hovered)
        }),
    decreases g.len(),
{
    let cs = glow_changes(g, source, hovered);
    let pre = glow_changes(g.drop_last(), source, hovered);
    if k < pre.len() {
        lemma_glow_changes_sound(g.drop_last(), source, hovered, k);
        let c = pre[k];
        assert(g.drop_last()[c.building as int] == g[c.building as int]);
    }
}

/// The modified set misses no change: every building whose stored glow
/// differs from the derived one appears in it.
pub proof fn lemma_glow_changes_complete(
    g: Seq<BuildingModel>,
    source: Option<BuildingId>,
    hovered: Option<BuildingId>,
    b: int,
)
    requires
        g.len() <= usize::MAX,
        0 <= b < g.len(),
        g[b].glowing != derived_glow(b as BuildingId, source, hovered),
    ensures
        ({
            let cs = glow_changes(g, source, hovered);
            exists|k: int|
                0 <= k < cs.len() && cs[k] == (BuildingGlowChanged {
                    building: b as BuildingId,
                    state: derived_glow(b as BuildingId, source, hovered),
                })
        }),
    decreases g.len(),
{
    let cs = glow_changes(g, source, hovered);
    let pre = glow_changes(g.drop_last(), source, hovered);
    if b == g.len() - 1 {
        assert(cs[cs.len() - 1] == (BuildingGlowChanged {
            building: b as BuildingId,
            state: derived_glow(b as BuildingId, source, hovered),
        }));
    } else {
        assert(g.drop_last()[b] == g[b]);
        lemma_glow_changes_complete(g.drop_last(), source, hovered, b);
        let k = choose|k: int|
            0 <= k < pre.len() && pre[k] == (BuildingGlowChanged {
                building: b as BuildingId,
                state: derived_glow(b as BuildingId, source, hovered),
            });
        assert(cs[k] == pre[k]);
    }
}

} // verus!

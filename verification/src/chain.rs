//! The mathematical model of a chain: a sequence of node slots and the
//! sequence of link slots between neighboring nodes.

use crate::flat_graph::{Color, Vertex, VertexDirection};
use vstd::prelude::*;

verus! {

/// What a chain holds: slot `p` of `nodes` is node `p`, slot `p` of `links`
/// is the link between node `p` and node `p + 1`. An absent value is an empty
/// slot.
pub struct Chain {
    pub nodes: Seq<Option<Color>>,
    pub links: Seq<Option<Vertex>>,
}

/// The number of populated slots among `slots`.
pub open spec fn populated(slots: Seq<Option<Color>>) -> nat
    decreases slots.len(),
{
    if slots.len() == 0 {
        0
    } else {
        populated(slots.drop_last()) + if slots.last() is Some { 1nat } else { 0nat }
    }
}

/// No more slots are populated than there are slots.
pub proof fn lemma_populated_bound(slots: Seq<Option<Color>>)
    ensures
        populated(slots) <= slots.len(),
    decreases slots.len(),
{
    if slots.len() > 0 {
        lemma_populated_bound(slots.drop_last());
    }
}

/// Among empty slots none is populated.
pub proof fn lemma_populated_all_empty(slots: Seq<Option<Color>>)
    requires
        forall|i: int| 0 <= i < slots.len() ==> slots[i] is None,
    ensures
        populated(slots) == 0,
    decreases slots.len(),
{
    if slots.len() > 0 {
        lemma_populated_all_empty(slots.drop_last());
    }
}

/// Where every slot is populated, the count is the number of slots.
pub proof fn lemma_populated_all_some(slots: Seq<Option<Color>>)
    requires
        forall|i: int| 0 <= i < slots.len() ==> slots[i] is Some,
    ensures
        populated(slots) == slots.len(),
    decreases slots.len(),
{
    if slots.len() > 0 {
        lemma_populated_all_some(slots.drop_last());
    }
}

/// Writing one slot changes the count by what that slot gains or loses.
pub proof fn lemma_populated_update(slots: Seq<Option<Color>>, i: int, slot: Option<Color>)
    requires
        0 <= i < slots.len(),
    ensures
        populated(slots.update(i, slot)) + (if slots[i] is Some { 1nat } else { 0nat })
            == populated(slots) + (if slot is Some { 1nat } else { 0nat }),
    decreases slots.len(),
{
    let after = slots.update(i, slot);
    if i == slots.len() - 1 {
        assert(after.drop_last() =~= slots.drop_last());
    } else {
        lemma_populated_update(slots.drop_last(), i, slot);
        assert(after.drop_last() =~= slots.drop_last().update(i, slot));
    }
}

/// How a node slot is written out: the color's letter in round brackets, or
/// one space for an empty slot.
pub open spec fn node_text(slot: Option<Color>) -> Seq<char> {
    match slot {
        Some(color) => seq!['(', color.letter(), ')'],
        None => seq![' '],
    }
}

/// How a link slot is written out: the link as an arrow, or five spaces for
/// an empty slot.
pub open spec fn link_text(slot: Option<Vertex>) -> Seq<char> {
    match slot {
        Some(vertex) => vertex.text(),
        None => seq![' ', ' ', ' ', ' ', ' '],
    }
}

impl Chain {
    /// A chain has one link slot fewer than it has node slots.
    pub open spec fn wf(self) -> bool {
        self.nodes.len() == self.links.len() + 1
    }

    /// The number of node slots, fixed for the life of the chain.
    pub open spec fn capacity(self) -> nat {
        self.nodes.len()
    }

    /// The chain of `capacity` node slots in which every slot is empty.
    pub open spec fn empty(capacity: nat) -> Chain {
        Chain {
            nodes: Seq::new(capacity, |i: int| None::<Color>),
            links: Seq::new((capacity - 1) as nat, |i: int| None::<Vertex>),
        }
    }

    /// Node `p` is in range and populated.
    pub open spec fn node_exists(self, p: int) -> bool {
        0 <= p < self.nodes.len() && self.nodes[p] is Some
    }

    /// Link `p` is in range and populated.
    pub open spec fn link_exists(self, p: int) -> bool {
        0 <= p < self.links.len() && self.links[p] is Some
    }

    /// Node `p` is populated and holds color `c`.
    pub open spec fn node_has_color(self, p: int, c: Color) -> bool {
        0 <= p < self.nodes.len() && self.nodes[p] == Some(c)
    }

    /// The number of populated node slots.
    pub open spec fn live_nodes(self) -> nat {
        populated(self.nodes)
    }

    /// Every node slot and every link slot is populated.
    pub open spec fn fully_populated(self) -> bool {
        &&& forall|p: int| 0 <= p < self.nodes.len() ==> self.node_exists(p)
        &&& forall|p: int| 0 <= p < self.links.len() ==> self.link_exists(p)
    }

    /// The chain that three rows of draws populate, one draw of the first
    /// row for each node and one of either other row for each link: a node
    /// is red where `red_nodes` succeeded and blue where it failed, a link
    /// is red where `red_links` succeeded and blue where it failed, and
    /// points left where `left_links` succeeded and right where it failed.
    pub open spec fn drawn(red_nodes: Seq<bool>, red_links: Seq<bool>, left_links: Seq<bool>)
        -> Chain {
        Chain {
            nodes: Seq::new(red_nodes.len(), |i: int| Some(Color::of_draw(red_nodes[i]))),
            links: Seq::new(
                red_links.len(),
                |i: int|
                    Some(
                        Vertex {
                            color: Color::of_draw(red_links[i]),
                            direction: VertexDirection::of_draw(left_links[i]),
                        },
                    ),
            ),
        }
    }

    /// The chain with node slot `p` holding `color`.
    pub open spec fn insert_node(self, p: int, color: Color) -> Chain {
        Chain { nodes: self.nodes.update(p, Some(color)), links: self.links }
    }

    /// The chain with link slot `p` holding a link of `color` that points in
    /// `direction`.
    pub open spec fn insert_link(self, p: int, color: Color, direction: VertexDirection) -> Chain {
        Chain { nodes: self.nodes, links: self.links.update(p, Some(Vertex { color, direction })) }
    }

    /// Node `p` written out, followed by the link to its right where there
    /// is one.
    pub open spec fn segment_text(self, p: int) -> Seq<char> {
        node_text(self.nodes[p]) + if p < self.links.len() {
            link_text(self.links[p])
        } else {
            Seq::<char>::empty()
        }
    }

    /// The first `n` nodes written out from left to right, each followed by
    /// the link to its right.
    pub open spec fn text_upto(self, n: nat) -> Seq<char>
        decreases n,
    {
        if n == 0 {
            Seq::<char>::empty()
        } else {
            self.text_upto((n - 1) as nat) + self.segment_text(n - 1)
        }
    }

    /// The whole chain written out, with nothing between the parts.
    pub open spec fn text(self) -> Seq<char> {
        self.text_upto(self.nodes.len())
    }

    /// Removing node `p` discharges the link on its left: node `p - 1` and
    /// the link between the two are both populated.
    pub open spec fn left_link_fires(self, p: int) -> bool {
        self.node_exists(p - 1) && self.link_exists(p - 1)
    }

    /// Removing node `p` discharges the link on its right: node `p + 1` and
    /// the link between the two are both populated.
    pub open spec fn right_link_fires(self, p: int) -> bool {
        self.node_exists(p + 1) && self.link_exists(p)
    }

    /// What node slot `i` holds once the populated node `p` is removed:
    /// nothing at `p` itself; at a neighbor of `p` the color of the link
    /// between the two, where that link fires and points at the neighbor;
    /// and elsewhere what it held before.
    pub open spec fn node_after_removal(self, p: int, i: int) -> Option<Color> {
        if i == p {
            None
        } else if i == p - 1 && self.left_link_fires(p) && self.links[p - 1]->0.direction
            == VertexDirection::LEFT {
            Some(self.links[p - 1]->0.color)
        } else if i == p + 1 && self.right_link_fires(p) && self.links[p]->0.direction
            == VertexDirection::RIGHT {
            Some(self.links[p]->0.color)
        } else {
            self.nodes[i]
        }
    }

    /// What link slot `j` holds once the populated node `p` is removed:
    /// nothing where it is a link next to `p` that fires, whichever way it
    /// points, and elsewhere what it held before.
    pub open spec fn link_after_removal(self, p: int, j: int) -> Option<Vertex> {
        if (j == p - 1 && self.left_link_fires(p)) || (j == p && self.right_link_fires(p)) {
            None
        } else {
            self.links[j]
        }
    }

    /// The chain after the populated node `p` is removed. Only node `p`, its
    /// two neighbors and the two links next to it can change.
    pub open spec fn discharge(self, p: int) -> Chain {
        Chain {
            nodes: Seq::new(self.nodes.len(), |i: int| self.node_after_removal(p, i)),
            links: Seq::new(self.links.len(), |j: int| self.link_after_removal(p, j)),
        }
    }

    /// The chain after a removal of node `p` is asked for: the removal takes
    /// place where node `p` is populated, and nothing changes where it is
    /// not.
    pub open spec fn remove_node(self, p: int) -> Chain {
        if self.node_exists(p) {
            self.discharge(p)
        } else {
            self
        }
    }
}

/// What the removal of a populated node changes and what it leaves alone.
pub proof fn lemma_remove_node_frame(chain: Chain, p: int)
    requires
        chain.node_exists(p),
    ensures
        chain.remove_node(p).nodes.len() == chain.nodes.len(),
        chain.remove_node(p).links.len() == chain.links.len(),
        chain.wf() ==> chain.remove_node(p).wf(),
        !chain.remove_node(p).node_exists(p),
        chain.remove_node(p).live_nodes() + 1 == chain.live_nodes(),
        forall|i: int| i != p ==> (chain.remove_node(p).node_exists(i) <==> chain.node_exists(i)),
        forall|i: int|
            0 <= i < chain.nodes.len() && (i < p - 1 || i > p + 1) ==> chain.remove_node(p).nodes[i]
                == chain.nodes[i],
        forall|j: int|
            0 <= j < chain.links.len() && (j < p - 1 || j > p) ==> chain.remove_node(p).links[j]
                == chain.links[j],
{
    let cleared = chain.nodes.update(p, None);
    lemma_populated_update(chain.nodes, p, None);
    let left_painted = if chain.node_after_removal(p, p - 1) != chain.nodes[p - 1] {
        lemma_populated_update(cleared, p - 1, chain.node_after_removal(p, p - 1));
        cleared.update(p - 1, chain.node_after_removal(p, p - 1))
    } else {
        cleared
    };
    let both_painted = if chain.node_after_removal(p, p + 1) != chain.nodes[p + 1] {
        lemma_populated_update(left_painted, p + 1, chain.node_after_removal(p, p + 1));
        left_painted.update(p + 1, chain.node_after_removal(p, p + 1))
    } else {
        left_painted
    };
    assert(chain.remove_node(p).nodes =~= both_painted);
}

/// A removal populates no slot: a node slot that is empty stays empty.
pub proof fn lemma_remove_node_keeps_empty(chain: Chain, p: int, q: int)
    requires
        !chain.node_exists(q),
    ensures
        !chain.remove_node(p).node_exists(q),
{
    if chain.node_exists(p) {
        lemma_remove_node_frame(chain, p);
    }
}

} // verus!

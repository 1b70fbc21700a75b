//! The model of the search for a maximal removable sequence, and the laws
//! that hold of it.
//!
//! The search walks the chain from left to right with a cursor. Where the
//! cursor finds a node of the target color it removes the run of such nodes
//! that lies beyond it, far end first, then the node itself, and steps back
//! where the removal repainted the node behind the cursor.

use crate::chain::{lemma_remove_node_frame, lemma_remove_node_keeps_empty, Chain};
use crate::flat_graph::{Color, VertexDirection};
use vstd::prelude::*;

verus! {

/// Positions as the mathematical integers that the model counts in.
pub open spec fn positions(emitted: Seq<usize>) -> Seq<int> {
    emitted.map_values(|p: usize| p as int)
}

/// Recording one more position records its integer.
pub proof fn lemma_positions_push(emitted: Seq<usize>, p: usize)
    ensures
        positions(emitted.push(p)) == positions(emitted).push(p as int),
{
    assert(positions(emitted.push(p)) =~= positions(emitted).push(p as int));
}

/// Positions that differ as integers differ as machine words.
pub proof fn lemma_positions_no_duplicates(emitted: Seq<usize>)
    requires
        positions(emitted).no_duplicates(),
    ensures
        emitted.no_duplicates(),
{
    assert forall|i: int, j: int|
        0 <= i < emitted.len() && 0 <= j < emitted.len() && i != j implies emitted[i]
        != emitted[j] by {
        assert(positions(emitted)[i] == emitted[i] as int);
        assert(positions(emitted)[j] == emitted[j] as int);
    }
}

/// The position next to `p` on side `d`.
pub open spec fn neighbor(p: int, d: VertexDirection) -> int {
    match d {
        VertexDirection::LEFT => p - 1,
        VertexDirection::RIGHT => p + 1,
    }
}

/// The link between `p` and its neighbor on side `d`.
pub open spec fn link_beside(p: int, d: VertexDirection) -> int {
    match d {
        VertexDirection::LEFT => p - 1,
        VertexDirection::RIGHT => p,
    }
}

impl Chain {
    /// Node `p` sits at a boundary on side `d`: it holds the target color
    /// `c`, the link on that side is populated, points to that side and
    /// holds `c` too, and the neighbor on that side is populated with the
    /// other color.
    pub open spec fn removable(self, p: int, d: VertexDirection, c: Color) -> bool {
        let e = link_beside(p, d);
        let q = neighbor(p, d);
        &&& self.link_exists(e)
        &&& self.links[e]->0.direction == d
        &&& self.links[e]->0.color == c
        &&& self.node_has_color(p, c)
        &&& self.node_exists(q)
        &&& !self.node_has_color(q, c)
    }

    /// A walk that goes in direction `d` may pass over node `t`: the node
    /// holds the target color `c`, and the link that the walk crossed to
    /// reach it is populated and points in direction `d`.
    pub open spec fn continues_run(self, t: int, d: VertexDirection, c: Color) -> bool {
        let crossed = match d {
            VertexDirection::LEFT => t,
            VertexDirection::RIGHT => t - 1,
        };
        &&& self.node_has_color(t, c)
        &&& self.link_exists(crossed)
        &&& self.links[crossed]->0.direction == d
    }

    /// Where a walk from `t` in direction `d` stops: the first position that
    /// it may not pass over. The walk never leaves the chain by more than
    /// one position.
    pub open spec fn sweep_stop(self, t: int, d: VertexDirection, c: Color) -> int
        decreases
            (match d {
                VertexDirection::LEFT => t + 1,
                VertexDirection::RIGHT => self.nodes.len() - t,
            }),
    {
        if self.continues_run(t, d, c) {
            self.sweep_stop(neighbor(t, d), d, c)
        } else {
            t
        }
    }

    /// The positions that a sweep anchored at `a` removes, in the order in
    /// which it removes them: every position strictly between the anchor and
    /// the place where the walk from the anchor's neighbor stops, the one
    /// nearest to that place first.
    pub open spec fn sweep(self, a: int, d: VertexDirection, c: Color) -> Seq<int> {
        let stop = self.sweep_stop(neighbor(a, d), d, c);
        match d {
            VertexDirection::LEFT => Seq::new((a - 1 - stop) as nat, |k: int| stop + 1 + k),
            VertexDirection::RIGHT => Seq::new((stop - 1 - a) as nat, |k: int| stop - 1 - k),
        }
    }

    /// The chain after the nodes at `order` are removed one after another,
    /// the first of them first.
    pub open spec fn remove_all(self, order: Seq<int>) -> Chain
        decreases order.len(),
    {
        if order.len() == 0 {
            self
        } else {
            self.remove_all(order.drop_last()).remove_node(order.last())
        }
    }

    /// Every position of `order` holds color `c` at the moment of its own
    /// removal, that is in the chain from which the positions before it have
    /// been removed.
    pub open spec fn removes_only(self, order: Seq<int>, c: Color) -> bool {
        forall|k: int|
            0 <= k < order.len() ==> (#[trigger] self.remove_all(order.take(k))).node_has_color(
                order[k],
                c,
            )
    }

    /// What one step of the search removes with the cursor on a node `p` of
    /// the target color: the sweep beyond `p`, then `p` itself.
    pub open spec fn batch(self, p: int, c: Color) -> Seq<int> {
        self.sweep(p, VertexDirection::RIGHT, c).push(p)
    }

    /// The positions that the search removes from the cursor position `p`
    /// on, in the order of their removal.
    ///
    /// A cursor outside the chain ends the search. On a node of another
    /// color, or on an empty slot, the cursor moves on. On a node of the
    /// target color the search removes the batch of `p`; the cursor then
    /// steps back where `p` sat at a boundary on its left before the
    /// removal, and moves on where it did not.
    pub open spec fn scan(self, p: int, c: Color) -> Seq<int>
        decreases self.live_nodes(), self.nodes.len() - p,
        via Self::scan_decreases
    {
        if p < 0 || p >= self.nodes.len() {
            Seq::<int>::empty()
        } else if self.node_has_color(p, c) {
            let next = if self.removable(p, VertexDirection::LEFT, c) {
                p - 1
            } else {
                p + 1
            };
            self.batch(p, c) + self.remove_all(self.batch(p, c)).scan(next, c)
        } else {
            self.scan(p + 1, c)
        }
    }

    #[via_fn]
    proof fn scan_decreases(self, p: int, c: Color) {
        if 0 <= p < self.nodes.len() && self.node_has_color(p, c) {
            lemma_batch(self, p, c);
        }
    }

    /// The maximal removable sequence of color `c`: what the search removes
    /// when it starts at the left end of the chain.
    pub open spec fn max_sequence(self, c: Color) -> Seq<int> {
        self.scan(0, c)
    }
}

/// What holds along the walk of a sweep: it stops at or beyond its start, it
/// may pass over every position before the stop, and not over the stop.
pub proof fn lemma_sweep_stop(chain: Chain, t: int, d: VertexDirection, c: Color)
    ensures
        !chain.continues_run(chain.sweep_stop(t, d, c), d, c),
        d == VertexDirection::RIGHT ==> t <= chain.sweep_stop(t, d, c) && forall|x: int|
            t <= x < chain.sweep_stop(t, d, c) ==> chain.continues_run(x, d, c),
        d == VertexDirection::LEFT ==> chain.sweep_stop(t, d, c) <= t && forall|x: int|
            chain.sweep_stop(t, d, c) < x <= t ==> chain.continues_run(x, d, c),
    decreases
        (match d {
            VertexDirection::LEFT => t + 1,
            VertexDirection::RIGHT => chain.nodes.len() - t,
        }),
{
    if chain.continues_run(t, d, c) {
        lemma_sweep_stop(chain, neighbor(t, d), d, c);
    }
}

/// Removing one more node after `order` is removing `order` and then the
/// node.
pub proof fn lemma_remove_all_push(chain: Chain, order: Seq<int>, p: int)
    ensures
        chain.remove_all(order.push(p)) == chain.remove_all(order).remove_node(p),
{
    assert(order.push(p).drop_last() =~= order);
}

/// Removing `first` and then `second` is removing the two in a row.
pub proof fn lemma_remove_all_concat(chain: Chain, first: Seq<int>, second: Seq<int>)
    ensures
        chain.remove_all(first + second) == chain.remove_all(first).remove_all(second),
    decreases second.len(),
{
    if second.len() == 0 {
        assert(first + second =~= first);
    } else {
        lemma_remove_all_concat(chain, first, second.drop_last());
        assert((first + second).drop_last() =~= first + second.drop_last());
    }
}

/// What begins an order that removes only color `c` removes only `c` too.
pub proof fn lemma_removes_only_prefix(chain: Chain, order: Seq<int>, k: int, c: Color)
    requires
        chain.removes_only(order, c),
        0 <= k <= order.len(),
    ensures
        chain.removes_only(order.take(k), c),
{
    let prefix = order.take(k);
    assert forall|i: int| 0 <= i < prefix.len() implies (#[trigger] chain.remove_all(
        prefix.take(i),
    )).node_has_color(prefix[i], c) by {
        assert(prefix.take(i) =~= order.take(i));
        assert(chain.remove_all(order.take(i)).node_has_color(order[i], c));
    }
}

/// An order that removes only color `c` still does so with one more node at
/// its end, where that node holds `c` once the order has been removed.
pub proof fn lemma_removes_only_push(chain: Chain, order: Seq<int>, p: int, c: Color)
    requires
        chain.removes_only(order, c),
        chain.remove_all(order).node_has_color(p, c),
    ensures
        chain.removes_only(order.push(p), c),
{
    let longer = order.push(p);
    assert forall|k: int| 0 <= k < longer.len() implies (#[trigger] chain.remove_all(
        longer.take(k),
    )).node_has_color(longer[k], c) by {
        if k < order.len() {
            assert(longer.take(k) =~= order.take(k));
            assert(chain.remove_all(order.take(k)).node_has_color(order[k], c));
        } else {
            assert(longer.take(k) =~= order);
        }
    }
}

/// Two orders in a row remove only color `c` where the first does so from
/// the chain and the second from what the first leaves.
pub proof fn lemma_removes_only_concat(chain: Chain, first: Seq<int>, second: Seq<int>, c: Color)
    requires
        chain.removes_only(first, c),
        chain.remove_all(first).removes_only(second, c),
    ensures
        chain.removes_only(first + second, c),
    decreases second.len(),
{
    if second.len() == 0 {
        assert(first + second =~= first);
    } else {
        let shorter = second.drop_last();
        let left = chain.remove_all(first);
        assert(second.take(second.len() - 1) =~= shorter);
        lemma_removes_only_prefix(left, second, second.len() - 1, c);
        lemma_removes_only_concat(chain, first, shorter, c);
        assert(left.remove_all(second.take(second.len() - 1)).node_has_color(second.last(), c));
        lemma_remove_all_concat(chain, first, shorter);
        lemma_removes_only_push(chain, first + shorter, second.last(), c);
        assert((first + shorter).push(second.last()) =~= first + second);
    }
}

/// The state of a sweep after `k` of its removals: each of them took a node
/// of color `c`, and the part of the chain that lies on the anchor's side of
/// the next removal is as it was before the sweep.
pub proof fn lemma_sweep_prefix(chain: Chain, a: int, d: VertexDirection, c: Color, k: int)
    requires
        0 <= k <= chain.sweep(a, d, c).len(),
    ensures
        chain.removes_only(chain.sweep(a, d, c).take(k), c),
        chain.remove_all(chain.sweep(a, d, c).take(k)).nodes.len() == chain.nodes.len(),
        chain.remove_all(chain.sweep(a, d, c).take(k)).links.len() == chain.links.len(),
        chain.remove_all(chain.sweep(a, d, c).take(k)).live_nodes() + k == chain.live_nodes(),
        d == VertexDirection::RIGHT ==> {
            let stop = chain.sweep_stop(a + 1, d, c);
            let reached = chain.remove_all(chain.sweep(a, d, c).take(k));
            &&& forall|i: int|
                0 <= i < stop - k && i < chain.nodes.len() ==> reached.nodes[i] == chain.nodes[i]
            &&& forall|j: int|
                0 <= j < stop - k - 1 && j < chain.links.len() ==> reached.links[j]
                    == chain.links[j]
        },
        d == VertexDirection::LEFT ==> {
            let stop = chain.sweep_stop(a - 1, d, c);
            let reached = chain.remove_all(chain.sweep(a, d, c).take(k));
            &&& forall|i: int|
                0 <= i < chain.nodes.len() && stop + k < i ==> reached.nodes[i] == chain.nodes[i]
            &&& forall|j: int|
                0 <= j < chain.links.len() && stop + k < j ==> reached.links[j] == chain.links[j]
        },
    decreases k,
{
    let sweep = chain.sweep(a, d, c);
    if k == 0 {
        assert(sweep.take(0) =~= Seq::<int>::empty());
    } else {
        lemma_sweep_prefix(chain, a, d, c, k - 1);
        lemma_sweep_stop(chain, neighbor(a, d), d, c);
        let before = chain.remove_all(sweep.take(k - 1));
        let t = sweep[k - 1];
        assert(sweep.take(k) =~= sweep.take(k - 1).push(t));
        assert(chain.continues_run(t, d, c));
        assert(before.node_has_color(t, c));
        lemma_remove_all_push(chain, sweep.take(k - 1), t);
        lemma_removes_only_push(chain, sweep.take(k - 1), t, c);
        lemma_remove_node_frame(before, t);
    }
}

/// What one step of the search does on a node of the target color: every
/// node of its batch holds the color when it is removed, and the chain
/// keeps its shape and loses as many live nodes as the batch is long.
pub proof fn lemma_batch(chain: Chain, p: int, c: Color)
    requires
        chain.node_has_color(p, c),
    ensures
        chain.removes_only(chain.batch(p, c), c),
        chain.remove_all(chain.batch(p, c)).nodes.len() == chain.nodes.len(),
        chain.remove_all(chain.batch(p, c)).links.len() == chain.links.len(),
        chain.remove_all(chain.batch(p, c)).live_nodes() + chain.batch(p, c).len()
            == chain.live_nodes(),
{
    let sweep = chain.sweep(p, VertexDirection::RIGHT, c);
    lemma_sweep_prefix(chain, p, VertexDirection::RIGHT, c, sweep.len() as int);
    lemma_sweep_stop(chain, p + 1, VertexDirection::RIGHT, c);
    assert(sweep.take(sweep.len() as int) =~= sweep);
    let swept = chain.remove_all(sweep);
    assert(swept.node_has_color(p, c));
    lemma_removes_only_push(chain, sweep, p, c);
    lemma_remove_all_push(chain, sweep, p);
    lemma_remove_node_frame(swept, p);
}

/// The anchor of a sweep to the right keeps its color through the sweep.
pub proof fn lemma_sweep_spares_anchor(chain: Chain, p: int, c: Color)
    requires
        chain.node_has_color(p, c),
    ensures
        chain.remove_all(chain.sweep(p, VertexDirection::RIGHT, c)).node_has_color(p, c),
{
    let sweep = chain.sweep(p, VertexDirection::RIGHT, c);
    lemma_sweep_prefix(chain, p, VertexDirection::RIGHT, c, sweep.len() as int);
    lemma_sweep_stop(chain, p + 1, VertexDirection::RIGHT, c);
    assert(sweep.take(sweep.len() as int) =~= sweep);
}

/// A node at a boundary has its neighbor on that side inside the chain, so
/// the first node has no boundary on its left and a cursor that steps back
/// from a boundary stays in the chain.
pub proof fn lemma_boundary_lies_inside(chain: Chain, p: int, d: VertexDirection, c: Color)
    requires
        chain.removable(p, d, c),
    ensures
        0 <= p < chain.nodes.len(),
        0 <= neighbor(p, d) < chain.nodes.len(),
{
}

/// A node at a boundary on its right has no run beyond it: its batch is the
/// node alone.
pub proof fn lemma_boundary_has_no_run(chain: Chain, p: int, c: Color)
    requires
        chain.removable(p, VertexDirection::RIGHT, c),
    ensures
        chain.sweep(p, VertexDirection::RIGHT, c) == Seq::<int>::empty(),
        chain.batch(p, c) == seq![p],
{
    assert(!chain.continues_run(p + 1, VertexDirection::RIGHT, c));
    assert(chain.sweep(p, VertexDirection::RIGHT, c) =~= Seq::<int>::empty());
    assert(chain.batch(p, c) =~= seq![p]);
}

/// An order that removes only populated nodes of color `c` leaves the chain
/// its shape and takes one live node with each removal.
pub proof fn lemma_removes_only_shape(chain: Chain, order: Seq<int>, c: Color)
    requires
        chain.removes_only(order, c),
    ensures
        chain.remove_all(order).nodes.len() == chain.nodes.len(),
        chain.remove_all(order).links.len() == chain.links.len(),
        chain.remove_all(order).live_nodes() + order.len() == chain.live_nodes(),
        chain.wf() ==> chain.remove_all(order).wf(),
    decreases order.len(),
{
    if order.len() > 0 {
        let shorter = order.drop_last();
        assert(order.take(order.len() - 1) =~= shorter);
        lemma_removes_only_prefix(chain, order, order.len() - 1, c);
        lemma_removes_only_shape(chain, shorter, c);
        assert(chain.remove_all(order.take(order.len() - 1)).node_has_color(order.last(), c));
        lemma_remove_node_frame(chain.remove_all(shorter), order.last());
    }
}

/// Every position of an order that removes only color `c` lies in the
/// chain, and the order is no longer than the chain has live nodes.
pub proof fn lemma_removes_only_in_range(chain: Chain, order: Seq<int>, c: Color)
    requires
        chain.removes_only(order, c),
    ensures
        order.len() <= chain.live_nodes(),
        forall|k: int| 0 <= k < order.len() ==> 0 <= #[trigger] order[k] < chain.nodes.len(),
{
    lemma_removes_only_shape(chain, order, c);
    assert forall|k: int| 0 <= k < order.len() implies 0 <= #[trigger] order[k]
        < chain.nodes.len() by {
        lemma_removes_only_prefix(chain, order, k, c);
        lemma_removes_only_shape(chain, order.take(k), c);
        assert(chain.remove_all(order.take(k)).node_has_color(order[k], c));
    }
}

/// A node that an order has removed is still gone after any later removal
/// of the order.
proof fn lemma_removed_stays_removed(chain: Chain, order: Seq<int>, i: int, m: int)
    requires
        0 <= i < m <= order.len(),
        chain.remove_all(order.take(i)).node_exists(order[i]),
    ensures
        !chain.remove_all(order.take(m)).node_exists(order[i]),
    decreases m - i,
{
    assert(order.take(m).drop_last() =~= order.take(m - 1));
    if m == i + 1 {
        lemma_remove_node_frame(chain.remove_all(order.take(i)), order[i]);
    } else {
        lemma_removed_stays_removed(chain, order, i, m - 1);
        lemma_remove_node_keeps_empty(chain.remove_all(order.take(m - 1)), order[m - 1], order[i]);
    }
}

/// An order in which every position holds color `c` at the moment of its
/// removal names no position twice: a removed node never comes back.
pub proof fn lemma_removes_only_no_duplicates(chain: Chain, order: Seq<int>, c: Color)
    requires
        chain.removes_only(order, c),
    ensures
        order.no_duplicates(),
{
    assert forall|i: int, j: int|
        0 <= i < order.len() && 0 <= j < order.len() && i != j implies order[i] != order[j] by {
        let (lo, hi) = if i < j { (i, j) } else { (j, i) };
        assert(chain.remove_all(order.take(lo)).node_has_color(order[lo], c));
        assert(chain.remove_all(order.take(hi)).node_has_color(order[hi], c));
        lemma_removed_stays_removed(chain, order, lo, hi);
    }
}

/// Every position that the search emits holds the target color at the
/// moment of its removal, whether it held it from the start or was
/// repainted by an earlier removal.
pub proof fn lemma_scan_removes_only(chain: Chain, p: int, c: Color)
    ensures
        chain.removes_only(chain.scan(p, c), c),
    decreases chain.live_nodes(), chain.nodes.len() - p,
{
    if p < 0 || p >= chain.nodes.len() {
        assert(chain.scan(p, c).len() == 0);
    } else if chain.node_has_color(p, c) {
        let next = if chain.removable(p, VertexDirection::LEFT, c) {
            p - 1
        } else {
            p + 1
        };
        lemma_batch(chain, p, c);
        lemma_scan_removes_only(chain.remove_all(chain.batch(p, c)), next, c);
        lemma_removes_only_concat(
            chain,
            chain.batch(p, c),
            chain.remove_all(chain.batch(p, c)).scan(next, c),
            c,
        );
    } else {
        lemma_scan_removes_only(chain, p + 1, c);
    }
}

/// Where no node holds the target color, the search from any cursor
/// position emits nothing.
pub proof fn lemma_scan_without_target(chain: Chain, p: int, c: Color)
    requires
        forall|q: int| !chain.node_has_color(q, c),
    ensures
        chain.scan(p, c) == Seq::<int>::empty(),
    decreases chain.nodes.len() - p,
{
    if 0 <= p < chain.nodes.len() {
        assert(!chain.node_has_color(p, c));
        lemma_scan_without_target(chain, p + 1, c);
    }
}

/// The search clears the chain of the target color: where no node behind
/// the cursor holds it, none at all holds it once the search from the cursor
/// has removed what it emits.
///
/// A removal can repaint the node behind the cursor with the target color
/// only through a left link of that color, and that is when the cursor steps
/// back.
pub proof fn lemma_scan_clears(chain: Chain, p: int, c: Color)
    requires
        0 <= p,
        forall|i: int| i < p ==> !chain.node_has_color(i, c),
    ensures
        forall|i: int| !chain.remove_all(chain.scan(p, c)).node_has_color(i, c),
    decreases chain.live_nodes(), chain.nodes.len() - p,
{
    if p >= chain.nodes.len() {
        assert(chain.remove_all(chain.scan(p, c)) == chain);
    } else if chain.node_has_color(p, c) {
        let next = if chain.removable(p, VertexDirection::LEFT, c) {
            p - 1
        } else {
            p + 1
        };
        let sweep = chain.sweep(p, VertexDirection::RIGHT, c);
        let batch = chain.batch(p, c);
        let swept = chain.remove_all(sweep);
        let after = chain.remove_all(batch);
        lemma_batch(chain, p, c);
        lemma_sweep_stop(chain, p + 1, VertexDirection::RIGHT, c);
        lemma_sweep_prefix(chain, p, VertexDirection::RIGHT, c, sweep.len() as int);
        assert(sweep.take(sweep.len() as int) =~= sweep);
        lemma_remove_all_push(chain, sweep, p);
        lemma_remove_node_frame(swept, p);
        // The sweep and the removal of `p` leave the nodes before `p - 1`
        // alone, and repaint node `p - 1` at most through its link to `p`.
        assert forall|i: int| i < next implies !after.node_has_color(i, c) by {
            if 0 <= i < p {
                assert(!chain.node_has_color(i, c));
                assert(swept.nodes[i] == chain.nodes[i]);
                if i == p - 1 {
                    assert(after.nodes[i] == swept.node_after_removal(p, i));
                    if swept.left_link_fires(p) {
                        assert(swept.links[i] == chain.links[i]);
                    }
                }
            }
        }
        lemma_scan_clears(after, next, c);
        lemma_remove_all_concat(chain, batch, after.scan(next, c));
        assert(chain.remove_all(chain.scan(p, c)) == after.remove_all(after.scan(next, c)));
    } else {
        lemma_scan_clears(chain, p + 1, c);
        assert(chain.scan(p, c) == chain.scan(p + 1, c));
    }
}

/// The maximal removable sequence names no position twice, every position
/// it names lies in the chain, and each holds the target color at the
/// moment of its removal.
pub proof fn lemma_max_sequence_is_valid(chain: Chain, c: Color)
    ensures
        chain.removes_only(chain.max_sequence(c), c),
        chain.max_sequence(c).no_duplicates(),
        chain.max_sequence(c).len() <= chain.live_nodes(),
        forall|k: int|
            0 <= k < chain.max_sequence(c).len() ==> 0 <= #[trigger] chain.max_sequence(c)[k]
                < chain.capacity(),
{
    lemma_scan_removes_only(chain, 0, c);
    lemma_removes_only_no_duplicates(chain, chain.max_sequence(c), c);
    lemma_removes_only_in_range(chain, chain.max_sequence(c), c);
}

/// The maximal removable sequence cannot be made longer: once it has been
/// removed, no node of the target color is left in the chain.
pub proof fn lemma_max_sequence_leaves_no_target(chain: Chain, c: Color)
    ensures
        forall|i: int| !chain.remove_all(chain.max_sequence(c)).node_has_color(i, c),
{
    lemma_scan_clears(chain, 0, c);
}

/// A chain without a node of the target color has the empty sequence as
/// its maximal removable sequence.
pub proof fn lemma_max_sequence_without_target(chain: Chain, c: Color)
    requires
        forall|q: int| !chain.node_has_color(q, c),
    ensures
        chain.max_sequence(c) == Seq::<int>::empty(),
{
    lemma_scan_without_target(chain, 0, c);
}

/// The search is a function of the chain and the target color: two runs on
/// chains with the same slots, for the same color, emit the same positions
/// in the same order.
pub proof fn lemma_max_sequence_is_deterministic(
    first: Chain,
    second: Chain,
    c: Color,
    first_run: Seq<usize>,
    second_run: Seq<usize>,
)
    requires
        first.nodes == second.nodes,
        first.links == second.links,
        positions(first_run) == first.max_sequence(c),
        positions(second_run) == second.max_sequence(c),
    ensures
        first_run == second_run,
{
    assert(first == second);
    assert(first_run.len() == positions(first_run).len());
    assert(second_run.len() == positions(second_run).len());
    assert forall|k: int| 0 <= k < first_run.len() implies first_run[k] == second_run[k] by {
        assert(positions(first_run)[k] == first_run[k] as int);
        assert(positions(second_run)[k] == second_run[k] as int);
    }
    assert(first_run =~= second_run);
}

} // verus!

//! The search for a maximal removable sequence on a working copy of a chain.

use crate::chain::Chain;
use crate::flat_graph::{Color, FlatGraph, VertexDirection};
use crate::sequence::{
    lemma_batch, lemma_boundary_has_no_run, lemma_boundary_lies_inside, lemma_max_sequence_is_valid,
    lemma_max_sequence_leaves_no_target, lemma_max_sequence_without_target,
    lemma_positions_no_duplicates, lemma_positions_push, lemma_remove_all_concat,
    lemma_remove_all_push, lemma_sweep_prefix, lemma_sweep_spares_anchor, lemma_sweep_stop,
    neighbor, positions,
};
use std::collections::VecDeque;
use vstd::prelude::*;

verus! {

/// A search for the nodes of one color that can be removed from a chain one
/// after another. The finder works on a copy of the chain that it owns; the
/// chain it was made from is never touched.
pub struct FlatSequenceFinder {
    flat_graph_copy: FlatGraph,
    color_to_remove: Color,
}

impl FlatSequenceFinder {
    /// The working copy is a well-formed chain.
    pub closed spec fn wf(&self) -> bool {
        self.flat_graph_copy.wf()
    }

    /// What the working copy holds.
    pub closed spec fn graph(&self) -> Chain {
        self.flat_graph_copy@
    }

    /// The target color.
    pub closed spec fn color(&self) -> Color {
        self.color_to_remove
    }

    /// What a well-formed finder tells of its working copy.
    pub proof fn lemma_wf_graph(&self)
        requires
            self.wf(),
        ensures
            self.graph().wf(),
            self.graph().capacity() <= usize::MAX,
    {
        self.flat_graph_copy.lemma_wf_view();
    }

    /// A finder for `color_to_remove` on a copy of `flat_graph`.
    pub fn new(flat_graph: &FlatGraph, color_to_remove: Color) -> (finder: Self)
        requires
            flat_graph.wf(),
        ensures
            finder.wf(),
            finder.graph() == flat_graph@,
            finder.color() == color_to_remove,
    {
        FlatSequenceFinder { flat_graph_copy: flat_graph.clone(), color_to_remove }
    }

    /// Records `current_node` at the end of `sequence_max` and removes it
    /// from the working copy.
    fn sequence_max_push_and_remove_util(
        &mut self,
        current_node: usize,
        sequence_max: &mut VecDeque<usize>,
    )
        requires
            old(self).wf(),
            old(self).graph().node_exists(current_node as int),
        ensures
            final(self).wf(),
            final(self).color() == old(self).color(),
            final(self).graph() == old(self).graph().remove_node(current_node as int),
            final(sequence_max)@ == old(sequence_max)@.push(current_node),
            positions(final(sequence_max)@) == positions(old(sequence_max)@).push(
                current_node as int,
            ),
    {
        proof {
            lemma_positions_push(sequence_max@, current_node);
        }
        sequence_max.push_back(current_node);
        self.flat_graph_copy.remove_node(current_node).unwrap()
    }

    /// Whether the populated link `edge_id` points in `vertex_direction`.
    fn is_vertex_left_or_right(&self, vertex_direction: VertexDirection, edge_id: usize) -> (same:
        bool)
        requires
            self.wf(),
            self.graph().link_exists(edge_id as int),
        ensures
            same == (self.graph().links[edge_id as int]->0.direction == vertex_direction),
    {
        self.flat_graph_copy.get_vertex(edge_id).unwrap().unwrap().direction == vertex_direction
    }

    /// Whether a walk in `finding_direction` may pass over `tmp_node`: the
    /// node holds the target color, and the link that the walk crosses to
    /// reach it is populated and points the way of the walk.
    fn walk_continues(&self, tmp_node: usize, finding_direction: VertexDirection) -> (passes: bool)
        requires
            self.wf(),
        ensures
            passes == self.graph().continues_run(tmp_node as int, finding_direction, self.color()),
    {
        let tmp_edge = match finding_direction {
            VertexDirection::LEFT => tmp_node,
            VertexDirection::RIGHT => {
                if tmp_node == 0 {
                    return false;
                }
                tmp_node - 1
            },
        };
        self.flat_graph_copy.node_exists(tmp_node) && self.flat_graph_copy.get_node(
            tmp_node,
        ).unwrap().unwrap() == self.color_to_remove && self.flat_graph_copy.vertex_exists(tmp_edge)
            && self.is_vertex_left_or_right(finding_direction, tmp_edge)
    }

    /// The sweep anchored at `current_node`: walks from the anchor's
    /// neighbor in `finding_direction` over the run of target-colored nodes
    /// whose links point that way, then comes back and removes every node
    /// of the run, the farthest first, recording each at the end of
    /// `sequence_max`. The anchor itself stays. A walk that reaches an end
    /// of the chain stops there.
    pub fn find_nodes_to_remove_before_current(
        &mut self,
        current_node: usize,
        finding_direction: VertexDirection,
        sequence_max: &mut VecDeque<usize>,
    )
        requires
            old(self).wf(),
        ensures
            final(self).wf(),
            final(self).color() == old(self).color(),
            final(self).graph() == old(self).graph().remove_all(
                old(self).graph().sweep(current_node as int, finding_direction, old(self).color()),
            ),
            positions(final(sequence_max)@) == positions(old(sequence_max)@) + old(
                self,
            ).graph().sweep(current_node as int, finding_direction, old(self).color()),
    {
        let ghost start = self.graph();
        let ghost c = self.color();
        let ghost before = positions(sequence_max@);
        let ghost sweep = start.sweep(current_node as int, finding_direction, c);
        let ghost stop = start.sweep_stop(
            neighbor(current_node as int, finding_direction),
            finding_direction,
            c,
        );
        proof {
            self.lemma_wf_graph();
            lemma_sweep_stop(
                start,
                neighbor(current_node as int, finding_direction),
                finding_direction,
                c,
            );
            assert(sweep.take(0) =~= Seq::<int>::empty());
            assert(before + sweep.take(0) =~= before);
        }
        let mut tmp_node = current_node;
        match finding_direction {
            VertexDirection::RIGHT => {
                if current_node >= self.flat_graph_copy.max_capacity() {
                    assert(sweep =~= Seq::<int>::empty());
                    return ;
                }
                while self.walk_continues(tmp_node + 1, finding_direction)
                    invariant
                        self.wf(),
                        self.graph() == start,
                        self.color() == c,
                        finding_direction == VertexDirection::RIGHT,
                        current_node <= tmp_node < start.nodes.len() <= usize::MAX,
                        stop == start.sweep_stop(tmp_node + 1, finding_direction, c),
                    decreases start.nodes.len() - tmp_node,
                {
                    tmp_node += 1;
                }
                while current_node < tmp_node
                    invariant
                        self.wf(),
                        self.color() == c,
                        finding_direction == VertexDirection::RIGHT,
                        sweep == start.sweep(current_node as int, finding_direction, c),
                        stop == start.sweep_stop(current_node + 1, finding_direction, c),
                        current_node <= tmp_node < stop,
                        self.graph() == start.remove_all(sweep.take(stop - 1 - tmp_node)),
                        positions(sequence_max@) == before + sweep.take(stop - 1 - tmp_node),
                    decreases tmp_node,
                {
                    proof {
                        let k = stop - 1 - tmp_node;
                        lemma_sweep_prefix(start, current_node as int, finding_direction, c, k);
                        lemma_sweep_stop(start, current_node + 1, finding_direction, c);
                        assert(start.continues_run(tmp_node as int, finding_direction, c));
                        lemma_remove_all_push(start, sweep.take(k), tmp_node as int);
                        assert(sweep.take(k + 1) =~= sweep.take(k).push(tmp_node as int));
                        assert(before + sweep.take(k + 1) =~= (before + sweep.take(k)).push(
                            tmp_node as int,
                        ));
                    }
                    self.sequence_max_push_and_remove_util(tmp_node, sequence_max);
                    tmp_node -= 1;
                }
                assert(sweep.take(stop - 1 - tmp_node) =~= sweep);
            },
            VertexDirection::LEFT => {
                while tmp_node > 0 && self.walk_continues(tmp_node - 1, finding_direction)
                    invariant
                        self.wf(),
                        self.graph() == start,
                        self.color() == c,
                        finding_direction == VertexDirection::LEFT,
                        tmp_node <= current_node,
                        stop == start.sweep_stop(tmp_node - 1, finding_direction, c),
                    decreases tmp_node,
                {
                    tmp_node -= 1;
                }
                while tmp_node < current_node
                    invariant
                        self.wf(),
                        self.color() == c,
                        finding_direction == VertexDirection::LEFT,
                        sweep == start.sweep(current_node as int, finding_direction, c),
                        stop == start.sweep_stop(current_node - 1, finding_direction, c),
                        stop < tmp_node <= current_node,
                        self.graph() == start.remove_all(sweep.take(tmp_node - 1 - stop)),
                        positions(sequence_max@) == before + sweep.take(tmp_node - 1 - stop),
                    decreases current_node - tmp_node,
                {
                    proof {
                        let k = tmp_node - 1 - stop;
                        lemma_sweep_prefix(start, current_node as int, finding_direction, c, k);
                        lemma_sweep_stop(start, current_node - 1, finding_direction, c);
                        assert(start.continues_run(tmp_node as int, finding_direction, c));
                        lemma_remove_all_push(start, sweep.take(k), tmp_node as int);
                        assert(sweep.take(k + 1) =~= sweep.take(k).push(tmp_node as int));
                        assert(before + sweep.take(k + 1) =~= (before + sweep.take(k)).push(
                            tmp_node as int,
                        ));
                    }
                    self.sequence_max_push_and_remove_util(tmp_node, sequence_max);
                    tmp_node += 1;
                }
                assert(sweep.take(tmp_node - 1 - stop) =~= sweep);
            },
        }
    }

    /// Whether node `node` holds the target color and the link `vertex` is
    /// populated and holds it too.
    pub fn node_and_vertex_have_color(&self, node: usize, vertex: usize) -> (both: bool)
        requires
            self.wf(),
        ensures
            both == (self.graph().node_has_color(node as int, self.color())
                && self.graph().link_exists(vertex as int)
                && self.graph().links[vertex as int]->0.color == self.color()),
    {
        self.flat_graph_copy.node_exists(node) && self.flat_graph_copy.get_node(
            node,
        ).unwrap().unwrap() == self.color_to_remove && self.flat_graph_copy.vertex_exists(vertex)
            && self.flat_graph_copy.get_vertex(vertex).unwrap().unwrap().color
            == self.color_to_remove
    }

    /// Whether `node` sits at a boundary on the side `finding_direction`:
    /// the node and the link on that side hold the target color, the link
    /// points to that side, and the neighbor there is populated with the
    /// other color. The first node has no boundary on its left and the last
    /// none on its right.
    pub fn node_may_be_interesting_to_remove(
        &self,
        node: usize,
        finding_direction: VertexDirection,
    ) -> (removable: bool)
        requires
            self.wf(),
        ensures
            removable == self.graph().removable(node as int, finding_direction, self.color()),
    {
        proof {
            self.lemma_wf_graph();
        }
        if node == 0 && finding_direction == VertexDirection::LEFT {
            return false;
        }
        let edge_tmp = match finding_direction {
            VertexDirection::LEFT => node - 1,
            VertexDirection::RIGHT => node,
        };
        if !self.flat_graph_copy.vertex_exists(edge_tmp) {
            return false;
        }
        if !self.is_vertex_left_or_right(finding_direction, edge_tmp) {
            return false;
        }
        let node_dst: usize = match finding_direction {
            VertexDirection::LEFT => node - 1,
            VertexDirection::RIGHT => node + 1,
        };
        self.node_and_vertex_have_color(node, edge_tmp) && self.flat_graph_copy.node_exists(
            node_dst,
        ) && self.flat_graph_copy.get_node(node_dst).unwrap().unwrap() != self.color_to_remove
    }

    /// The maximal removable sequence of the target color: the positions
    /// that the search removes from the working copy, in the order of their
    /// removal.
    ///
    /// The cursor starts on node 0 and the search ends when it has passed
    /// the last node. On a node at a boundary on its right the search
    /// removes the node. On another node of the target color it first sweeps
    /// the run beyond the node, then removes the node. After a removal the
    /// cursor steps back if the node sat at a boundary on its left, which
    /// the first node never does, and forward if not. On any other slot the
    /// cursor steps forward.
    ///
    /// The working copy is left without the removed nodes, and with no node
    /// of the target color.
    pub fn calculate_sequence_max(&mut self) -> (sequence_max: VecDeque<usize>)
        requires
            old(self).wf(),
        ensures
            final(self).wf(),
            final(self).color() == old(self).color(),
            positions(sequence_max@) == old(self).graph().max_sequence(old(self).color()),
            final(self).graph() == old(self).graph().remove_all(positions(sequence_max@)),
            old(self).graph().removes_only(positions(sequence_max@), old(self).color()),
            sequence_max@.no_duplicates(),
            sequence_max@.len() <= old(self).graph().live_nodes(),
            forall|k: int|
                0 <= k < sequence_max@.len() ==> #[trigger] sequence_max@[k] < old(
                    self,
                ).graph().capacity(),
            forall|q: int| !final(self).graph().node_has_color(q, old(self).color()),
            (forall|q: int| !old(self).graph().node_has_color(q, old(self).color()))
                ==> sequence_max@.len() == 0,
    {
        let ghost start = self.graph();
        let ghost c = self.color();
        let mut sequence_max: VecDeque<usize> = VecDeque::new();
        let mut current_node: usize = 0;
        proof {
            self.lemma_wf_graph();
            assert(positions(sequence_max@) =~= Seq::<int>::empty());
            assert(positions(sequence_max@) + start.scan(0, c) =~= start.scan(0, c));
        }
        while current_node < self.flat_graph_copy.max_capacity()
            invariant
                self.wf(),
                self.color() == c,
                self.graph().nodes.len() == start.nodes.len(),
                start.nodes.len() <= usize::MAX,
                start.scan(0, c) == positions(sequence_max@) + self.graph().scan(
                    current_node as int,
                    c,
                ),
                self.graph() == start.remove_all(positions(sequence_max@)),
            decreases self.graph().live_nodes(), start.nodes.len() - current_node,
        {
            let ghost here = self.graph();
            let ghost emitted = positions(sequence_max@);
            let ghost p = current_node as int;
            let ghost batch = here.batch(p, c);
            let ghost sweep = here.sweep(p, VertexDirection::RIGHT, c);
            proof {
                if here.node_has_color(p, c) {
                    lemma_batch(here, p, c);
                    lemma_sweep_spares_anchor(here, p, c);
                    lemma_remove_all_push(here, sweep, p);
                    lemma_remove_all_concat(start, emitted, batch);
                    assert((emitted + sweep).push(p) =~= emitted + batch);
                }
            }
            if self.node_may_be_interesting_to_remove(current_node, VertexDirection::RIGHT) {
                proof {
                    lemma_boundary_has_no_run(here, p, c);
                    assert(here.remove_all(sweep) == here);
                    assert(emitted + sweep =~= emitted);
                }
                if self.node_may_be_interesting_to_remove(current_node, VertexDirection::LEFT) {
                    proof {
                        lemma_boundary_lies_inside(here, p, VertexDirection::LEFT, c);
                    }
                    self.sequence_max_push_and_remove_util(current_node, &mut sequence_max);
                    current_node -= 1;
                } else {
                    self.sequence_max_push_and_remove_util(current_node, &mut sequence_max);
                    current_node += 1;
                }
            } else {
                if self.node_may_be_interesting_to_remove(current_node, VertexDirection::LEFT) {
                    proof {
                        lemma_boundary_lies_inside(here, p, VertexDirection::LEFT, c);
                    }
                    self.find_nodes_to_remove_before_current(
                        current_node,
                        VertexDirection::RIGHT,
                        &mut sequence_max,
                    );
                    self.sequence_max_push_and_remove_util(current_node, &mut sequence_max);
                    current_node -= 1;
                } else {
                    if self.flat_graph_copy.node_exists(current_node)
                        && self.flat_graph_copy.get_node(current_node).unwrap().unwrap()
                        == self.color_to_remove {
                        self.find_nodes_to_remove_before_current(
                            current_node,
                            VertexDirection::RIGHT,
                            &mut sequence_max,
                        );
                        self.sequence_max_push_and_remove_util(current_node, &mut sequence_max);
                    }
                    current_node += 1;
                }
            }
            proof {
                if here.node_has_color(p, c) {
                    let rest = self.graph().scan(current_node as int, c);
                    assert(self.graph() == here.remove_all(batch));
                    assert(positions(sequence_max@) == emitted + batch);
                    assert(emitted + (batch + rest) =~= (emitted + batch) + rest);
                }
            }
        }
        proof {
            assert(self.graph().scan(current_node as int, c) =~= Seq::<int>::empty());
            assert(positions(sequence_max@) + Seq::<int>::empty() =~= positions(sequence_max@));
            lemma_max_sequence_is_valid(start, c);
            lemma_max_sequence_leaves_no_target(start, c);
            lemma_positions_no_duplicates(sequence_max@);
            assert forall|k: int| 0 <= k < sequence_max@.len() implies #[trigger] sequence_max@[k]
                < start.capacity() by {
                assert(positions(sequence_max@)[k] == sequence_max@[k] as int);
            }
            if forall|q: int| !start.node_has_color(q, c) {
                lemma_max_sequence_without_target(start, c);
            }
        }
        sequence_max
    }
}

} // verus!

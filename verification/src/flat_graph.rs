//! The executable chain.

use crate::chain::{
    lemma_populated_all_empty, lemma_populated_all_some, lemma_populated_bound,
    lemma_populated_update, lemma_remove_node_frame, link_text, node_text, populated, Chain,
};
use std::collections::VecDeque;
use vstd::prelude::*;

verus! {

/// The color of a node or of a link.
#[allow(non_camel_case_types)]
#[derive(Clone, Copy, Debug, PartialEq, Eq, Structural)]
pub enum Color {
    RED,
    BLUE,
}

/// The neighbor that a link discharges into: `LEFT` is the node with the
/// lower position, `RIGHT` the node with the higher one.
#[allow(non_camel_case_types)]
#[derive(Clone, Copy, Debug, PartialEq, Eq, Structural)]
pub enum VertexDirection {
    LEFT,
    RIGHT,
}

/// A link between two neighboring nodes.
#[derive(Clone, Copy, Debug, PartialEq, Eq, Structural)]
pub struct Vertex {
    pub color: Color,
    pub direction: VertexDirection,
}

impl Color {
    /// The color that a draw decides: red where it succeeded, blue where it
    /// failed.
    pub open spec fn of_draw(red: bool) -> Color {
        if red {
            Color::RED
        } else {
            Color::BLUE
        }
    }

    /// The letter that stands for the color where a chain is written out.
    pub open spec fn letter(self) -> char {
        match self {
            Color::RED => 'R',
            Color::BLUE => 'B',
        }
    }

    /// The color written out: its letter.
    pub fn render(&self) -> (text: String)
        ensures
            text@ == seq![self.letter()],
    {
        proof {
            reveal_strlit("R");
            reveal_strlit("B");
        }
        let text = match self {
            Color::RED => String::from_str("R"),
            Color::BLUE => String::from_str("B"),
        };
        assert(text@ =~= seq![self.letter()]);
        text
    }
}

impl VertexDirection {
    /// The direction that a draw decides: left where it succeeded, right
    /// where it failed.
    pub open spec fn of_draw(left: bool) -> VertexDirection {
        if left {
            VertexDirection::LEFT
        } else {
            VertexDirection::RIGHT
        }
    }
}

impl Vertex {
    /// The link written out: an arrow of four characters that points in the
    /// link's direction and carries the letter of its color.
    pub open spec fn text(self) -> Seq<char> {
        match self.direction {
            VertexDirection::LEFT => seq!['<', '-', self.color.letter(), '-'],
            VertexDirection::RIGHT => seq!['-', self.color.letter(), '-', '>'],
        }
    }

    /// The link written out as an arrow.
    pub fn render(&self) -> (text: String)
        ensures
            text@ == self.text(),
    {
        proof {
            reveal_strlit("<-");
            reveal_strlit("-");
            reveal_strlit("->");
        }
        let letter = self.color.render();
        let mut text = String::new();
        match self.direction {
            VertexDirection::LEFT => {
                text.append("<-");
                text.append(letter.as_str());
                text.append("-");
            },
            VertexDirection::RIGHT => {
                text.append("-");
                text.append(letter.as_str());
                text.append("->");
            },
        }
        assert(text@ =~= self.text());
        text
    }
}

/// Why an operation on a chain was refused.
#[derive(Clone, Copy, Debug, PartialEq, Eq, Structural)]
pub enum GraphError {
    /// A read, an insertion or a removal named a position past the end of
    /// the chain.
    IndexOutOfBounds,
    /// An insertion named a slot that is populated.
    AlreadyOccupied,
    /// An insertion came when the count of live nodes had reached its limit.
    CapacityExceeded,
    /// A removal named a node slot that is empty.
    EmptySlot,
}

/// A chain of fixed capacity.
pub struct FlatGraph {
    max_capacity: usize,
    current_size: usize,
    nodes: Vec<Option<Color>>,
    vertices: Vec<Option<Vertex>>,
}

impl View for FlatGraph {
    type V = Chain;

    closed spec fn view(&self) -> Chain {
        Chain { nodes: self.nodes@, links: self.vertices@ }
    }
}

impl FlatGraph {
    /// The representation invariant: the two slot arrays have the lengths
    /// that the capacity fixes, and the counter of live nodes is the number
    /// of populated node slots.
    pub closed spec fn wf(&self) -> bool {
        &&& self.nodes.len() == self.max_capacity
        &&& self.vertices.len() + 1 == self.max_capacity
        &&& self.current_size == populated(self.nodes@)
    }

    /// A chain of `max_nodes` empty node slots and `max_nodes - 1` empty link
    /// slots.
    pub fn new(max_nodes: usize) -> (graph: FlatGraph)
        requires
            max_nodes >= 1,
        ensures
            graph.wf(),
            graph@ == Chain::empty(max_nodes as nat),
            graph@.live_nodes() == 0,
    {
        let nodes: Vec<Option<Color>> = vec![None; max_nodes];
        let vertices: Vec<Option<Vertex>> = vec![None; max_nodes - 1];
        proof {
            lemma_populated_all_empty(nodes@);
            assert(nodes@ =~= Chain::empty(max_nodes as nat).nodes);
            assert(vertices@ =~= Chain::empty(max_nodes as nat).links);
        }
        FlatGraph { max_capacity: max_nodes, current_size: 0, nodes, vertices }
    }

    /// What a well-formed chain tells of its model.
    pub proof fn lemma_wf_view(&self)
        requires
            self.wf(),
        ensures
            self@.wf(),
            self@.capacity() <= usize::MAX,
            self@.live_nodes() <= self@.capacity(),
    {
        lemma_populated_bound(self.nodes@);
    }

    /// The number of node slots.
    pub fn max_capacity(&self) -> (capacity: usize)
        requires
            self.wf(),
        ensures
            capacity == self@.capacity(),
    {
        self.max_capacity
    }

    /// Populates every slot from the outcomes of random draws, one draw of
    /// `red_node_draws` for each node and one draw of either other row for
    /// each link. A node is red where its draw succeeded and blue where it
    /// failed; a link is red where its draw of `red_edge_draws` succeeded,
    /// and points left where its draw of `left_directed_edge_draws` did.
    ///
    /// The chain makes no draw itself: whoever calls holds the random source
    /// and the probabilities.
    pub fn generate_random(
        &mut self,
        red_node_draws: &Vec<bool>,
        red_edge_draws: &Vec<bool>,
        left_directed_edge_draws: &Vec<bool>,
    )
        requires
            old(self).wf(),
            red_node_draws.len() == old(self)@.capacity(),
            red_edge_draws.len() == old(self)@.links.len(),
            left_directed_edge_draws.len() == old(self)@.links.len(),
        ensures
            final(self).wf(),
            final(self)@ == Chain::drawn(
                red_node_draws@,
                red_edge_draws@,
                left_directed_edge_draws@,
            ),
            final(self)@.capacity() == old(self)@.capacity(),
            final(self)@.fully_populated(),
            final(self)@.live_nodes() == final(self)@.capacity(),
    {
        let ghost drawn = Chain::drawn(
            red_node_draws@,
            red_edge_draws@,
            left_directed_edge_draws@,
        );
        let mut i: usize = 0;
        while i < self.nodes.len()
            invariant
                i <= self.nodes.len(),
                self.nodes.len() == red_node_draws.len(),
                self.nodes.len() == self.max_capacity,
                self.vertices.len() + 1 == self.max_capacity,
                drawn == Chain::drawn(red_node_draws@, red_edge_draws@, left_directed_edge_draws@),
                forall|k: int| 0 <= k < i ==> self.nodes[k] == drawn.nodes[k],
            decreases self.nodes.len() - i,
        {
            self.nodes[i] = if red_node_draws[i] {
                Some(Color::RED)
            } else {
                Some(Color::BLUE)
            };
            i += 1;
        }
        let mut j: usize = 0;
        while j < self.vertices.len()
            invariant
                j <= self.vertices.len(),
                self.vertices.len() == red_edge_draws.len(),
                self.vertices.len() == left_directed_edge_draws.len(),
                self.nodes.len() == red_node_draws.len(),
                self.nodes.len() == self.max_capacity,
                self.vertices.len() + 1 == self.max_capacity,
                drawn == Chain::drawn(red_node_draws@, red_edge_draws@, left_directed_edge_draws@),
                forall|k: int| 0 <= k < self.nodes.len() ==> self.nodes[k] == drawn.nodes[k],
                forall|k: int| 0 <= k < j ==> self.vertices[k] == drawn.links[k],
            decreases self.vertices.len() - j,
        {
            let vertex_color = if red_edge_draws[j] {
                Color::RED
            } else {
                Color::BLUE
            };
            let vertex_direction = if left_directed_edge_draws[j] {
                VertexDirection::LEFT
            } else {
                VertexDirection::RIGHT
            };
            self.vertices[j] = Some(Vertex { color: vertex_color, direction: vertex_direction });
            j += 1;
        }
        self.current_size = self.max_capacity;
        proof {
            assert(self.nodes@ =~= drawn.nodes);
            assert(self.vertices@ =~= drawn.links);
            lemma_populated_all_some(drawn.nodes);
        }
    }

    /// The slot of node `index`, or `IndexOutOfBounds` where `index` is past
    /// the last node.
    pub fn get_node(&self, index: usize) -> (result: Result<&Option<Color>, GraphError>)
        requires
            self.wf(),
        ensures
            result == (if index < self@.capacity() {
                Ok(&self@.nodes[index as int])
            } else {
                Err(GraphError::IndexOutOfBounds)
            }),
    {
        if index < self.nodes.len() {
            Ok(&self.nodes[index])
        } else {
            Err(GraphError::IndexOutOfBounds)
        }
    }

    /// The slot of link `index`, or `IndexOutOfBounds` where `index` is past
    /// the last link.
    pub fn get_vertex(&self, index: usize) -> (result: Result<&Option<Vertex>, GraphError>)
        requires
            self.wf(),
        ensures
            result == (if index < self@.links.len() {
                Ok(&self@.links[index as int])
            } else {
                Err(GraphError::IndexOutOfBounds)
            }),
    {
        if index < self.vertices.len() {
            Ok(&self.vertices[index])
        } else {
            Err(GraphError::IndexOutOfBounds)
        }
    }

    /// Whether node `index` is in range and populated.
    pub fn node_exists(&self, index: usize) -> (exists: bool)
        requires
            self.wf(),
        ensures
            exists == self@.node_exists(index as int),
    {
        index < self.nodes.len() && self.nodes[index].is_some()
    }

    /// Whether link `index` is in range and populated.
    pub fn vertex_exists(&self, index: usize) -> (exists: bool)
        requires
            self.wf(),
        ensures
            exists == self@.link_exists(index as int),
    {
        index < self.vertices.len() && self.vertices[index].is_some()
    }

    /// Populates the empty node slot `index` with `color`.
    ///
    /// Refused with `CapacityExceeded` when every node slot is populated,
    /// whatever the position; otherwise with `IndexOutOfBounds` when `index`
    /// is past the last node; otherwise with `AlreadyOccupied` when slot
    /// `index` is populated. A refusal changes nothing.
    pub fn add_node(&mut self, index: usize, color: Color) -> (result: Result<(), GraphError>)
        requires
            old(self).wf(),
        ensures
            final(self).wf(),
            result == (if old(self)@.live_nodes() >= old(self)@.capacity() {
                Err(GraphError::CapacityExceeded)
            } else if index >= old(self)@.capacity() {
                Err(GraphError::IndexOutOfBounds)
            } else if old(self)@.node_exists(index as int) {
                Err(GraphError::AlreadyOccupied)
            } else {
                Ok(())
            }),
            result is Ok ==> final(self)@ == old(self)@.insert_node(index as int, color),
            result is Ok ==> final(self)@.live_nodes() == old(self)@.live_nodes() + 1,
            result is Err ==> *final(self) == *old(self),
    {
        if self.current_size >= self.max_capacity {
            return Err(GraphError::CapacityExceeded);
        }
        if index >= self.nodes.len() {
            return Err(GraphError::IndexOutOfBounds);
        }
        if self.node_exists(index) {
            return Err(GraphError::AlreadyOccupied);
        }
        proof {
            lemma_populated_update(self.nodes@, index as int, Some(color));
        }
        self.nodes[index] = Some(color);
        self.current_size += 1;
        Ok(())
    }

    /// Populates the empty link slot `index` with a link of `color` that
    /// points in `direction`.
    ///
    /// A known limitation: the limit is counted in live nodes, not in
    /// links. The insertion is refused with `CapacityExceeded` once the chain
    /// holds as many live nodes as it has link slots, however many links it
    /// holds and whatever the position, so links go in before the nodes do.
    /// Otherwise it is refused with `IndexOutOfBounds` when `index` is past
    /// the last link slot, and otherwise with `AlreadyOccupied` when slot
    /// `index` is populated. A refusal changes nothing.
    pub fn add_vertex(&mut self, index: usize, color: Color, direction: VertexDirection) -> (result:
        Result<(), GraphError>)
        requires
            old(self).wf(),
        ensures
            final(self).wf(),
            result == (if old(self)@.live_nodes() >= old(self)@.links.len() {
                Err(GraphError::CapacityExceeded)
            } else if index >= old(self)@.links.len() {
                Err(GraphError::IndexOutOfBounds)
            } else if old(self)@.link_exists(index as int) {
                Err(GraphError::AlreadyOccupied)
            } else {
                Ok(())
            }),
            result is Ok ==> final(self)@ == old(self)@.insert_link(index as int, color, direction),
            result is Err ==> *final(self) == *old(self),
    {
        if self.current_size >= self.max_capacity - 1 {
            return Err(GraphError::CapacityExceeded);
        }
        if index >= self.vertices.len() {
            return Err(GraphError::IndexOutOfBounds);
        }
        if self.vertex_exists(index) {
            return Err(GraphError::AlreadyOccupied);
        }
        self.vertices[index] = Some(Vertex { color, direction });
        Ok(())
    }

    /// Removes node `index` and discharges the links next to it: each of
    /// the two whose far node is populated is consumed, and repaints that
    /// node with its own color if it points at it. No node farther away is
    /// touched.
    ///
    /// Refused with `IndexOutOfBounds` when `index` is past the last node and
    /// with `EmptySlot` when the slot is empty. A refusal changes nothing.
    pub fn remove_node(&mut self, index: usize) -> (result: Result<(), GraphError>)
        requires
            old(self).wf(),
        ensures
            final(self).wf(),
            result == (if index >= old(self)@.capacity() {
                Err(GraphError::IndexOutOfBounds)
            } else if !old(self)@.node_exists(index as int) {
                Err(GraphError::EmptySlot)
            } else {
                Ok(())
            }),
            final(self)@ == old(self)@.remove_node(index as int),
            result is Ok ==> final(self)@.live_nodes() + 1 == old(self)@.live_nodes(),
            result is Err ==> *final(self) == *old(self),
    {
        if index >= self.max_capacity {
            return Err(GraphError::IndexOutOfBounds);
        }
        if !self.node_exists(index) {
            return Err(GraphError::EmptySlot);
        }
        proof {
            lemma_remove_node_frame(self@, index as int);
        }
        self.nodes[index] = None;
        self.current_size -= 1;
        if index != 0 && self.nodes[index - 1].is_some() && self.vertices[index - 1].is_some() {
            if self.vertices[index - 1].unwrap().direction == VertexDirection::LEFT {
                self.nodes[index - 1] = Some(self.vertices[index - 1].unwrap().color);
            }
            self.vertices[index - 1] = None;
        }
        if index != self.max_capacity - 1 && self.nodes[index + 1].is_some()
            && self.vertices[index].is_some() {
            if self.vertices[index].unwrap().direction == VertexDirection::RIGHT {
                self.nodes[index + 1] = Some(self.vertices[index].unwrap().color);
            }
            self.vertices[index] = None;
        }
        proof {
            assert(self.nodes@ =~= old(self)@.remove_node(index as int).nodes);
            assert(self.vertices@ =~= old(self)@.remove_node(index as int).links);
        }
        Ok(())
    }

    /// The chain written out from left to right with nothing between the
    /// parts: `(R)` or `(B)` for a node and one space for an empty node slot;
    /// between two nodes `<-R-` or `-R->` for a link, with the letter of its
    /// color, and five spaces for an empty link slot.
    pub fn render(&self) -> (text: String)
        requires
            self.wf(),
        ensures
            text@ == self@.text(),
    {
        let mut result = String::new();
        let mut i: usize = 0;
        while i < self.max_capacity
            invariant
                self.wf(),
                i <= self.max_capacity,
                result@ == self@.text_upto(i as nat),
            decreases self.max_capacity - i,
        {
            proof {
                reveal_strlit("(R)");
                reveal_strlit("(B)");
                reveal_strlit(" ");
                reveal_strlit("     ");
            }
            let ghost before = result@;
            match self.nodes[i] {
                Some(Color::RED) => {
                    result.append("(R)");
                },
                Some(Color::BLUE) => {
                    result.append("(B)");
                },
                None => {
                    result.append(" ");
                },
            }
            assert(result@ =~= before + node_text(self@.nodes[i as int]));
            if i != self.max_capacity - 1 {
                match self.vertices[i] {
                    Some(vertex) => {
                        let arrow = vertex.render();
                        result.append(arrow.as_str());
                    },
                    None => {
                        result.append("     ");
                    },
                }
                assert(result@ =~= before + node_text(self@.nodes[i as int])
                    + link_text(self@.links[i as int]));
            }
            assert(result@ =~= before + self@.segment_text(i as int));
            i += 1;
        }
        result
    }

    /// The empty sequence: a chain alone names no removal.
    pub fn get_sequence_max(&self) -> (sequence: VecDeque<usize>)
        ensures
            sequence@ == Seq::<usize>::empty(),
    {
        VecDeque::<usize>::new()
    }
}

impl Clone for FlatGraph {
    /// A chain of its own with the same slots.
    fn clone(&self) -> (copy: Self)
        ensures
            copy@ == self@,
            self.wf() ==> copy.wf(),
    {
        let nodes = self.nodes.clone();
        let vertices = self.vertices.clone();
        proof {
            assert(nodes@ =~= self.nodes@);
            assert(vertices@ =~= self.vertices@);
        }
        FlatGraph {
            max_capacity: self.max_capacity,
            current_size: self.current_size,
            nodes,
            vertices,
        }
    }
}

} // verus!

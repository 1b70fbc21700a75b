use red_blue_graph::flat_graph::{Color, FlatGraph, GraphError, Vertex, VertexDirection};
use std::collections::VecDeque;

fn link(color: Color, direction: VertexDirection) -> Vertex {
    Vertex { color, direction }
}

/// A chain with the given slots. Links go in first: the limit on link
/// insertions is counted in live nodes.
fn chain_of(nodes: &[Option<Color>], links: &[Option<Vertex>]) -> FlatGraph {
    assert_eq!(nodes.len(), links.len() + 1);
    let mut graph = FlatGraph::new(nodes.len());
    for (i, slot) in links.iter().enumerate() {
        if let Some(vertex) = slot {
            assert_eq!(graph.add_vertex(i, vertex.color, vertex.direction), Ok(()));
        }
    }
    for (i, slot) in nodes.iter().enumerate() {
        if let Some(color) = slot {
            assert_eq!(graph.add_node(i, *color), Ok(()));
        }
    }
    graph
}

/// A chain in which every slot is populated as given, by way of the draws
/// that decide it.
fn drawn_chain(nodes: &[Color], links: &[Vertex]) -> FlatGraph {
    let mut graph = FlatGraph::new(nodes.len());
    fill(&mut graph, nodes, links);
    graph
}

fn fill(graph: &mut FlatGraph, nodes: &[Color], links: &[Vertex]) {
    let red_nodes: Vec<bool> = nodes.iter().map(|color| *color == Color::RED).collect();
    let red_links: Vec<bool> = links.iter().map(|vertex| vertex.color == Color::RED).collect();
    let left_links: Vec<bool> =
        links.iter().map(|vertex| vertex.direction == VertexDirection::LEFT).collect();
    graph.generate_random(&red_nodes, &red_links, &left_links);
}

fn nodes_of(graph: &FlatGraph) -> Vec<Option<Color>> {
    (0..graph.max_capacity()).map(|i| *graph.get_node(i).unwrap()).collect()
}

fn links_of(graph: &FlatGraph) -> Vec<Option<Vertex>> {
    (0..graph.max_capacity() - 1).map(|i| *graph.get_vertex(i).unwrap()).collect()
}

#[test]
fn fresh_chain_has_only_empty_slots() {
    for capacity in 1..=12usize {
        let graph = FlatGraph::new(capacity);
        assert_eq!(graph.max_capacity(), capacity);
        for i in 0..capacity {
            assert_eq!(graph.get_node(i), Ok(&None));
            assert!(!graph.node_exists(i));
        }
        for i in 0..capacity - 1 {
            assert_eq!(graph.get_vertex(i), Ok(&None));
            assert!(!graph.vertex_exists(i));
        }
        assert_eq!(graph.get_node(capacity), Err(GraphError::IndexOutOfBounds));
        assert_eq!(graph.get_vertex(capacity - 1), Err(GraphError::IndexOutOfBounds));
    }
}

#[test]
fn chain_of_one_node_has_no_link_slot() {
    let mut graph = FlatGraph::new(1);
    assert_eq!(graph.get_vertex(0), Err(GraphError::IndexOutOfBounds));
    assert!(!graph.vertex_exists(0));
    assert_eq!(graph.add_node(0, Color::BLUE), Ok(()));
    assert_eq!(graph.render(), "(B)");
    assert_eq!(graph.remove_node(0), Ok(()));
    assert_eq!(graph.render(), " ");
}

#[test]
fn reads_past_the_end_are_refused() {
    let graph = chain_of(
        &[Some(Color::RED), Some(Color::BLUE)],
        &[Some(link(Color::RED, VertexDirection::LEFT))],
    );
    assert_eq!(graph.get_node(1), Ok(&Some(Color::BLUE)));
    assert_eq!(graph.get_node(2), Err(GraphError::IndexOutOfBounds));
    assert_eq!(graph.get_node(usize::MAX), Err(GraphError::IndexOutOfBounds));
    assert_eq!(graph.get_vertex(0), Ok(&Some(link(Color::RED, VertexDirection::LEFT))));
    assert_eq!(graph.get_vertex(1), Err(GraphError::IndexOutOfBounds));
    assert!(graph.node_exists(1));
    assert!(!graph.node_exists(2));
    assert!(!graph.node_exists(usize::MAX));
    assert!(graph.vertex_exists(0));
    assert!(!graph.vertex_exists(1));
}

#[test]
fn generate_random_populates_every_slot() {
    let mut graph = FlatGraph::new(4);
    graph.generate_random(
        &vec![true, false, false, true],
        &vec![false, true, true],
        &vec![true, false, true],
    );
    let nodes = [Color::RED, Color::BLUE, Color::BLUE, Color::RED];
    let links = [
        link(Color::BLUE, VertexDirection::LEFT),
        link(Color::RED, VertexDirection::RIGHT),
        link(Color::RED, VertexDirection::LEFT),
    ];
    for i in 0..4 {
        assert!(graph.node_exists(i));
        assert_eq!(graph.get_node(i), Ok(&Some(nodes[i])));
    }
    for i in 0..3 {
        assert!(graph.vertex_exists(i));
        assert_eq!(graph.get_vertex(i), Ok(&Some(links[i])));
    }
    assert_eq!(graph.render(), "(R)<-B-(B)-R->(B)<-R-(R)");
}

#[test]
fn generate_random_populates_every_slot_whatever_the_draws() {
    for capacity in 1..=6usize {
        for bits in 0..(1u32 << (3 * capacity - 2)) {
            let draw = |k: usize| (bits >> k) & 1 == 1;
            let red_nodes: Vec<bool> = (0..capacity).map(|i| draw(i)).collect();
            let red_links: Vec<bool> = (0..capacity - 1).map(|i| draw(capacity + i)).collect();
            let left_links: Vec<bool> =
                (0..capacity - 1).map(|i| draw(2 * capacity - 1 + i)).collect();
            let mut graph = FlatGraph::new(capacity);
            graph.generate_random(&red_nodes, &red_links, &left_links);
            for i in 0..capacity {
                let color = if red_nodes[i] { Color::RED } else { Color::BLUE };
                assert_eq!(graph.get_node(i), Ok(&Some(color)));
            }
            for i in 0..capacity - 1 {
                let color = if red_links[i] { Color::RED } else { Color::BLUE };
                let direction =
                    if left_links[i] { VertexDirection::LEFT } else { VertexDirection::RIGHT };
                assert_eq!(graph.get_vertex(i), Ok(&Some(link(color, direction))));
            }
        }
    }
}

#[test]
fn generate_random_overwrites_and_fills_the_counter() {
    let mut graph = chain_of(&[Some(Color::RED), None, None], &[None, None]);
    fill(
        &mut graph,
        &[Color::BLUE, Color::BLUE, Color::RED],
        &[link(Color::RED, VertexDirection::RIGHT), link(Color::BLUE, VertexDirection::LEFT)],
    );
    assert_eq!(nodes_of(&graph), vec![Some(Color::BLUE), Some(Color::BLUE), Some(Color::RED)]);
    // The chain counts as full: no node can be added, and after one removal
    // exactly one.
    assert_eq!(graph.add_node(0, Color::RED), Err(GraphError::CapacityExceeded));
    assert_eq!(graph.remove_node(2), Ok(()));
    assert_eq!(graph.add_node(2, Color::RED), Ok(()));
    assert_eq!(graph.add_node(2, Color::RED), Err(GraphError::CapacityExceeded));
}

#[test]
fn add_node_populates_an_empty_slot() {
    let mut graph = FlatGraph::new(3);
    assert_eq!(graph.add_node(1, Color::RED), Ok(()));
    assert_eq!(nodes_of(&graph), vec![None, Some(Color::RED), None]);
    assert_eq!(links_of(&graph), vec![None, None]);
}

#[test]
fn add_node_refuses_an_occupied_slot() {
    let mut graph = FlatGraph::new(3);
    assert_eq!(graph.add_node(1, Color::RED), Ok(()));
    assert_eq!(graph.add_node(1, Color::BLUE), Err(GraphError::AlreadyOccupied));
    assert_eq!(nodes_of(&graph), vec![None, Some(Color::RED), None]);
}

#[test]
fn add_node_refuses_a_full_chain() {
    let mut graph = FlatGraph::new(2);
    assert_eq!(graph.add_node(0, Color::RED), Ok(()));
    assert_eq!(graph.add_node(1, Color::BLUE), Ok(()));
    assert_eq!(graph.add_node(0, Color::BLUE), Err(GraphError::CapacityExceeded));
    // A full chain refuses before it looks at the position.
    assert_eq!(graph.add_node(7, Color::BLUE), Err(GraphError::CapacityExceeded));
    assert_eq!(nodes_of(&graph), vec![Some(Color::RED), Some(Color::BLUE)]);
}

#[test]
fn add_node_past_the_end_is_refused_and_changes_nothing() {
    let mut graph = FlatGraph::new(3);
    assert_eq!(graph.add_node(0, Color::RED), Ok(()));
    assert_eq!(graph.add_vertex(0, Color::BLUE, VertexDirection::LEFT), Ok(()));
    let nodes = nodes_of(&graph);
    let links = links_of(&graph);
    for index in [3usize, 4, 1000, usize::MAX] {
        assert_eq!(graph.add_node(index, Color::BLUE), Err(GraphError::IndexOutOfBounds));
        assert_eq!(nodes_of(&graph), nodes);
        assert_eq!(links_of(&graph), links);
    }
    // The counter did not move: two more nodes fit, and no third.
    assert_eq!(graph.add_node(1, Color::BLUE), Ok(()));
    assert_eq!(graph.add_node(2, Color::BLUE), Ok(()));
    assert_eq!(graph.add_node(3, Color::BLUE), Err(GraphError::CapacityExceeded));
}

#[test]
fn add_node_is_refused_for_capacity_exactly_when_the_chain_is_full() {
    let mut graph = FlatGraph::new(2);
    for index in [0usize, 1, 2, usize::MAX] {
        assert_ne!(graph.clone().add_node(index, Color::RED), Err(GraphError::CapacityExceeded));
    }
    assert_eq!(graph.add_node(1, Color::RED), Ok(()));
    for index in [0usize, 1, 2, usize::MAX] {
        assert_ne!(graph.clone().add_node(index, Color::RED), Err(GraphError::CapacityExceeded));
    }
    assert_eq!(graph.add_node(0, Color::RED), Ok(()));
    let nodes = nodes_of(&graph);
    for index in [0usize, 1, 2, usize::MAX] {
        assert_eq!(graph.add_node(index, Color::BLUE), Err(GraphError::CapacityExceeded));
        assert_eq!(nodes_of(&graph), nodes);
    }
}

#[test]
fn add_vertex_past_the_end_is_refused_and_changes_nothing() {
    let mut graph = FlatGraph::new(4);
    assert_eq!(graph.add_node(0, Color::RED), Ok(()));
    assert_eq!(graph.add_vertex(1, Color::BLUE, VertexDirection::LEFT), Ok(()));
    let nodes = nodes_of(&graph);
    let links = links_of(&graph);
    for index in [3usize, 4, 1000, usize::MAX] {
        assert_eq!(
            graph.add_vertex(index, Color::RED, VertexDirection::RIGHT),
            Err(GraphError::IndexOutOfBounds)
        );
        assert_eq!(nodes_of(&graph), nodes);
        assert_eq!(links_of(&graph), links);
    }
    assert_eq!(graph.add_vertex(2, Color::RED, VertexDirection::RIGHT), Ok(()));
}

#[test]
fn add_vertex_is_refused_for_capacity_at_any_position_once_the_limit_is_reached() {
    let mut graph = FlatGraph::new(3);
    assert_eq!(graph.add_node(0, Color::RED), Ok(()));
    for index in [0usize, 1, 2, usize::MAX] {
        assert_ne!(
            graph.clone().add_vertex(index, Color::RED, VertexDirection::LEFT),
            Err(GraphError::CapacityExceeded)
        );
    }
    assert_eq!(graph.add_node(2, Color::BLUE), Ok(()));
    let links = links_of(&graph);
    for index in [0usize, 1, 2, usize::MAX] {
        assert_eq!(
            graph.add_vertex(index, Color::RED, VertexDirection::LEFT),
            Err(GraphError::CapacityExceeded)
        );
        assert_eq!(links_of(&graph), links);
    }
}

#[test]
fn add_vertex_populates_an_empty_slot() {
    let mut graph = FlatGraph::new(3);
    assert_eq!(graph.add_vertex(1, Color::BLUE, VertexDirection::LEFT), Ok(()));
    assert_eq!(links_of(&graph), vec![None, Some(link(Color::BLUE, VertexDirection::LEFT))]);
    assert_eq!(nodes_of(&graph), vec![None, None, None]);
}

#[test]
fn add_vertex_refuses_an_occupied_slot() {
    let mut graph = FlatGraph::new(3);
    assert_eq!(graph.add_vertex(0, Color::BLUE, VertexDirection::LEFT), Ok(()));
    assert_eq!(
        graph.add_vertex(0, Color::RED, VertexDirection::RIGHT),
        Err(GraphError::AlreadyOccupied)
    );
    assert_eq!(links_of(&graph), vec![Some(link(Color::BLUE, VertexDirection::LEFT)), None]);
}

#[test]
fn add_vertex_is_limited_by_the_count_of_live_nodes() {
    let mut graph = FlatGraph::new(3);
    assert_eq!(graph.add_node(0, Color::RED), Ok(()));
    // One live node, two link slots: still open.
    assert_eq!(graph.add_vertex(0, Color::RED, VertexDirection::RIGHT), Ok(()));
    assert_eq!(graph.add_node(1, Color::BLUE), Ok(()));
    // Two live nodes: closed, though link slot 1 is empty.
    assert_eq!(
        graph.add_vertex(1, Color::RED, VertexDirection::RIGHT),
        Err(GraphError::CapacityExceeded)
    );
    assert!(!graph.vertex_exists(1));
    // Adding links does not move the counter: both fit while no node lives.
    let mut other = FlatGraph::new(3);
    assert_eq!(other.add_vertex(0, Color::RED, VertexDirection::RIGHT), Ok(()));
    assert_eq!(other.add_vertex(1, Color::RED, VertexDirection::RIGHT), Ok(()));
}

#[test]
fn add_vertex_is_always_refused_on_a_chain_of_one_node() {
    let mut graph = FlatGraph::new(1);
    assert_eq!(
        graph.add_vertex(0, Color::RED, VertexDirection::RIGHT),
        Err(GraphError::CapacityExceeded)
    );
}

#[test]
fn remove_node_on_an_empty_slot_changes_nothing() {
    let mut graph = chain_of(
        &[Some(Color::RED), None, Some(Color::BLUE)],
        &[
            Some(link(Color::BLUE, VertexDirection::RIGHT)),
            Some(link(Color::RED, VertexDirection::LEFT)),
        ],
    );
    let nodes = nodes_of(&graph);
    let links = links_of(&graph);
    assert_eq!(graph.remove_node(1), Err(GraphError::EmptySlot));
    assert_eq!(nodes_of(&graph), nodes);
    assert_eq!(links_of(&graph), links);
    // The counter did not move either: one slot is still free.
    assert_eq!(graph.add_node(1, Color::RED), Ok(()));
    assert_eq!(graph.add_node(1, Color::RED), Err(GraphError::CapacityExceeded));
}

#[test]
fn remove_node_twice_is_refused_the_second_time() {
    let mut graph = chain_of(&[Some(Color::RED), Some(Color::BLUE)], &[None]);
    assert_eq!(graph.remove_node(0), Ok(()));
    assert_eq!(graph.remove_node(0), Err(GraphError::EmptySlot));
    assert_eq!(nodes_of(&graph), vec![None, Some(Color::BLUE)]);
}

#[test]
fn remove_node_past_the_end_is_refused() {
    let mut graph = chain_of(&[Some(Color::RED), Some(Color::BLUE)], &[None]);
    assert_eq!(graph.remove_node(2), Err(GraphError::IndexOutOfBounds));
    assert_eq!(graph.remove_node(usize::MAX), Err(GraphError::IndexOutOfBounds));
    assert_eq!(nodes_of(&graph), vec![Some(Color::RED), Some(Color::BLUE)]);
}

#[test]
fn removal_propagates_through_a_right_link() {
    let mut graph = chain_of(
        &[Some(Color::RED), Some(Color::BLUE)],
        &[Some(link(Color::BLUE, VertexDirection::RIGHT))],
    );
    assert_eq!(graph.remove_node(0), Ok(()));
    assert_eq!(nodes_of(&graph), vec![None, Some(Color::BLUE)]);
    assert_eq!(links_of(&graph), vec![None]);
}

#[test]
fn removal_repaints_through_a_right_link() {
    let mut graph = chain_of(
        &[Some(Color::RED), Some(Color::BLUE)],
        &[Some(link(Color::RED, VertexDirection::RIGHT))],
    );
    assert_eq!(graph.remove_node(0), Ok(()));
    assert_eq!(nodes_of(&graph), vec![None, Some(Color::RED)]);
    assert_eq!(links_of(&graph), vec![None]);
}

#[test]
fn removal_consumes_a_link_that_points_back() {
    let mut graph = chain_of(
        &[Some(Color::RED), Some(Color::BLUE)],
        &[Some(link(Color::BLUE, VertexDirection::LEFT))],
    );
    assert_eq!(graph.remove_node(0), Ok(()));
    assert_eq!(nodes_of(&graph), vec![None, Some(Color::BLUE)]);
    assert_eq!(links_of(&graph), vec![None]);
    let mut other = chain_of(
        &[Some(Color::RED), Some(Color::BLUE)],
        &[Some(link(Color::RED, VertexDirection::LEFT))],
    );
    assert_eq!(other.remove_node(0), Ok(()));
    assert_eq!(nodes_of(&other), vec![None, Some(Color::BLUE)]);
    assert_eq!(links_of(&other), vec![None]);
}

#[test]
fn removal_repaints_the_left_neighbor_through_a_left_link() {
    let mut graph = chain_of(
        &[Some(Color::BLUE), Some(Color::RED)],
        &[Some(link(Color::RED, VertexDirection::LEFT))],
    );
    assert_eq!(graph.remove_node(1), Ok(()));
    assert_eq!(nodes_of(&graph), vec![Some(Color::RED), None]);
    assert_eq!(links_of(&graph), vec![None]);
    let mut other = chain_of(
        &[Some(Color::BLUE), Some(Color::RED)],
        &[Some(link(Color::RED, VertexDirection::RIGHT))],
    );
    assert_eq!(other.remove_node(1), Ok(()));
    assert_eq!(nodes_of(&other), vec![Some(Color::BLUE), None]);
    assert_eq!(links_of(&other), vec![None]);
}

#[test]
fn removal_discharges_both_sides() {
    let mut graph = chain_of(
        &[Some(Color::BLUE), Some(Color::RED), Some(Color::BLUE)],
        &[
            Some(link(Color::RED, VertexDirection::LEFT)),
            Some(link(Color::RED, VertexDirection::RIGHT)),
        ],
    );
    assert_eq!(graph.remove_node(1), Ok(()));
    assert_eq!(nodes_of(&graph), vec![Some(Color::RED), None, Some(Color::RED)]);
    assert_eq!(links_of(&graph), vec![None, None]);
}

#[test]
fn removal_does_not_cascade() {
    let mut graph = drawn_chain(
        &[Color::BLUE, Color::BLUE, Color::RED, Color::BLUE, Color::BLUE],
        &[
            link(Color::RED, VertexDirection::LEFT),
            link(Color::RED, VertexDirection::LEFT),
            link(Color::RED, VertexDirection::RIGHT),
            link(Color::RED, VertexDirection::RIGHT),
        ],
    );
    assert_eq!(graph.remove_node(2), Ok(()));
    assert_eq!(
        nodes_of(&graph),
        vec![Some(Color::BLUE), Some(Color::RED), None, Some(Color::RED), Some(Color::BLUE)]
    );
    assert_eq!(
        links_of(&graph),
        vec![
            Some(link(Color::RED, VertexDirection::LEFT)),
            None,
            None,
            Some(link(Color::RED, VertexDirection::RIGHT)),
        ]
    );
}

#[test]
fn removal_keeps_a_link_whose_far_node_is_missing() {
    let mut graph = chain_of(
        &[None, Some(Color::RED), None],
        &[
            Some(link(Color::BLUE, VertexDirection::LEFT)),
            Some(link(Color::BLUE, VertexDirection::RIGHT)),
        ],
    );
    let links = links_of(&graph);
    assert_eq!(graph.remove_node(1), Ok(()));
    assert_eq!(nodes_of(&graph), vec![None, None, None]);
    assert_eq!(links_of(&graph), links);
}

#[test]
fn removal_without_links_touches_no_neighbor() {
    let mut graph =
        chain_of(&[Some(Color::BLUE), Some(Color::RED), Some(Color::BLUE)], &[None, None]);
    assert_eq!(graph.remove_node(1), Ok(()));
    assert_eq!(nodes_of(&graph), vec![Some(Color::BLUE), None, Some(Color::BLUE)]);
}

#[test]
fn removal_at_the_right_end_discharges_only_leftward() {
    let mut graph = chain_of(
        &[Some(Color::BLUE), Some(Color::RED)],
        &[Some(link(Color::RED, VertexDirection::LEFT))],
    );
    assert_eq!(graph.remove_node(1), Ok(()));
    assert_eq!(graph.render(), "(R)      ");
}

#[test]
fn render_writes_nodes_and_links_without_separators() {
    let graph = drawn_chain(
        &[Color::RED, Color::BLUE, Color::RED],
        &[link(Color::BLUE, VertexDirection::RIGHT), link(Color::RED, VertexDirection::LEFT)],
    );
    assert_eq!(graph.render(), "(R)-B->(B)<-R-(R)");
}

#[test]
fn render_writes_empty_slots_as_spaces() {
    let graph = FlatGraph::new(3);
    assert_eq!(graph.render(), format!("{}{}{}{}{}", " ", "     ", " ", "     ", " "));
    assert_eq!(graph.render().len(), 13);
    let partly = chain_of(
        &[None, Some(Color::BLUE), None],
        &[None, Some(link(Color::BLUE, VertexDirection::RIGHT))],
    );
    assert_eq!(partly.render(), "      (B)-B-> ");
}

#[test]
fn render_of_a_color_is_its_letter() {
    assert_eq!(Color::RED.render(), "R");
    assert_eq!(Color::BLUE.render(), "B");
}

#[test]
fn render_of_a_link_is_an_arrow() {
    assert_eq!(link(Color::RED, VertexDirection::LEFT).render(), "<-R-");
    assert_eq!(link(Color::BLUE, VertexDirection::LEFT).render(), "<-B-");
    assert_eq!(link(Color::RED, VertexDirection::RIGHT).render(), "-R->");
    assert_eq!(link(Color::BLUE, VertexDirection::RIGHT).render(), "-B->");
}

#[test]
fn get_sequence_max_of_a_chain_is_empty() {
    let graph = drawn_chain(
        &[Color::RED, Color::BLUE, Color::RED],
        &[link(Color::BLUE, VertexDirection::RIGHT), link(Color::RED, VertexDirection::LEFT)],
    );
    assert_eq!(graph.get_sequence_max(), VecDeque::<usize>::new());
}

#[test]
fn clone_is_independent_of_its_source() {
    let graph = chain_of(
        &[Some(Color::RED), Some(Color::BLUE)],
        &[Some(link(Color::RED, VertexDirection::RIGHT))],
    );
    let mut copy = graph.clone();
    assert_eq!(copy.render(), graph.render());
    assert_eq!(copy.remove_node(0), Ok(()));
    assert_eq!(graph.render(), "(R)-R->(B)");
    assert_eq!(copy.render(), "      (R)");
    // The copy carries the counter too.
    assert_eq!(copy.add_node(0, Color::BLUE), Ok(()));
    assert_eq!(copy.add_node(0, Color::BLUE), Err(GraphError::CapacityExceeded));
}

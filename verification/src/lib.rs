//! A bounded chain of red and blue nodes joined by directed, colored links,
//! and the search for a maximal sequence of same-colored nodes that can be
//! removed from it one after another.
//!
//! Removing a node discharges the links next to it: a link that points at a
//! surviving neighbor repaints that neighbor with the link's color, and the
//! link is consumed either way.
//!
//! * [`flat_graph`] holds the executable chain, [`flat_graph::FlatGraph`].
//! * [`chain`] holds its mathematical model, [`chain::Chain`], over which all
//!   contracts are stated.
//! * [`flat_sequence_finder`] holds the search,
//!   [`flat_sequence_finder::FlatSequenceFinder`].
//! * [`sequence`] holds the model of the search and the laws proved of it.

pub mod chain;
pub mod flat_graph;
pub mod flat_sequence_finder;
pub mod sequence;

//! Kinship terms between persons of a family graph.
//!
//! A [`KinGraph`] accumulates parent, child, sibling and partner facts about
//! persons. Every fact is stored as a pair of mutually inverse links. From
//! the links the library enumerates the routes between two persons and reads
//! each route as a kinship term ("half-sister", "grand-mother", ...).
use vstd::prelude::*;

pub mod blood;
pub mod dsl;
pub mod graph;
pub mod kinship;
pub mod links;
pub mod location;
pub mod names;
pub mod paths;
pub mod person;
pub mod relate;
pub mod script;
pub mod states;
pub mod store;

pub use dsl::{parse_relations_from_dsl, query_kin, DslError};
pub use graph::KinGraph;
pub use location::Location;
pub use person::{gen_64, Kind, KinError, Link, Person, Sex, CPRIME, PPRIME, RPRIME};

pub use states::{
    ETransitionStates, NAUState, NAUinLState, NCinLState, NChildState, NCsnKState, NNNinLState, NNeniState,
    NParentState, NPinLState, RPState, SiblingState, SinLState, State, StateMachine, StopState,
};

verus! {

} // verus!

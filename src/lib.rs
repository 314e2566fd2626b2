//! Serialized-access serving of one extractive question-answering engine.
//!
//! The library decides everything a request goes through: which inputs are
//! accepted ([`query`]), in which order waiting requests reach the engine
//! ([`guard`]), how an answer is rendered ([`answer`]) and what a request does
//! next at each step of its life ([`flow`]). Running the engine, the network
//! and the waiting itself is left to the caller.
use vstd::prelude::*;

pub mod answer;
pub mod flow;
pub mod guard;
pub mod query;

verus! {

} // verus!

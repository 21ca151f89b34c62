//! A two-phase-commit transaction protocol modelled as an explicit finite-state
//! system, for a state-space explorer to search.
//!
//! - [`transaction`] holds the transaction of one node: its state, and the
//!   registry in which a coordinator keeps its participants and their votes.
//!   [`history`] says what holds of every sequence of operations on it.
//! - [`transaction_model`] composes the nodes into a configuration, and holds
//!   what an explorer calls: the initial configuration, the enabled actions,
//!   the transition function, and the invariant to be evaluated.
//!   [`enabling`] says which actions a configuration offers, [`traces`] what
//!   holds of every step and of every sequence of steps.
//! - [`safety`] holds the invariant, and the proof that the system keeps it as
//!   long as no action disrupts the protocol. [`disruption`] proves that each
//!   disruptive action can break it.
//!
//! The contracts speak of mathematical values: a transaction is seen as its
//! state and a map from participants to flags, a configuration as a sequence
//! of nodes.

mod registry;
pub mod disruption;
pub mod enabling;
pub mod history;
pub mod safety;
pub mod traces;
pub mod transaction;
pub mod transaction_model;

//! Proof trees and obligations recorded from a type solver, with canonical
//! predicate hashing and a necessity heuristic that decides what to show.
pub mod ty;
pub mod hash;
pub mod necessity;
pub mod ext;
pub mod proof_tree;
pub mod analysis;
pub mod block;
pub mod clauses;

//! A Merkle tree over byte-string values, with inclusion proofs that are
//! generated and checked by verified code.
//!
//! A tree is built once from an ordered sequence of values; its root digest
//! commits to the whole sequence. A [`Proof`] carries the chain of digests from
//! one leaf up to the root, and [`Proof::validate`] recomputes that chain.

pub mod hashutils;
pub mod tree;
pub mod inclusion;
pub mod merkletree;
pub mod laws;

pub use hashutils::{bytes_eq, hash_empty, hash_leaf, hash_nodes, HashAlgorithm};
pub use inclusion::{Lemma, Positioned, Proof, ProofData};
pub use merkletree::MerkleTree;
pub use tree::Tree;

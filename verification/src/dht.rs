//! A Kademlia experiment: buckets, XOR distance, iterative lookup, and a
//! simulated network whose records all pass the resolver's verification.

pub mod kademlia;
pub mod sim;

pub use crate::dht::kademlia::{
    bucket_index, lookup, xordist, KademliaNet, Lookup, RoutingTable, ALPHA, BITS, K, MAX_ROUNDS,
};
pub use crate::dht::sim::{value_key, Network, ResolveOutcome, Rng, VerifyBoundary};

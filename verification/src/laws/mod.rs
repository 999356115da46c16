//! What the tracker promises, in terms of what goes in and what comes out.
//!
//! The modules here hold proofs only. Each states of one part of the tracker what its results must
//! satisfy, over raw bytes, flag bits and the members of a swarm.

pub mod addr;
pub mod bencode;
pub mod calls;
pub mod chars;
pub mod config;
pub mod connid;
pub mod detector;
pub mod http;
pub mod metrics;
pub mod nft;
pub mod service;
pub mod store;
pub mod swarm;
pub mod text;
pub mod udp;
pub mod wire;

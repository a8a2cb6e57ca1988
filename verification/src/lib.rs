//! Driver matching and trip escrow for a ride-hailing marketplace.
//!
//! The crate keeps a grid of driver positions keyed by geohash cell, answers
//! "nearest driver" queries over a cell and its eight neighbours, and settles
//! escrowed trips. Every function carries a contract that Verus proves.

pub mod address;
pub mod amount;
pub mod assoc;
pub mod codec;
pub mod directory;
pub mod engine;
pub mod error;
pub mod geo_index;
pub mod geohash;
pub mod ledger;
pub mod location;
pub mod matching;
pub mod model;

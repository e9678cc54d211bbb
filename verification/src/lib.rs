//! Storage of trie branches by block, for serving state proofs at past blocks.
//!
//! A branch of a trie is stored under the trie it belongs to, its path and the
//! block at which it took its value. Reading at a block sees, for each path, the
//! value of the latest block up to that one.
pub mod backfill;
pub mod branch;
pub mod chunks;
pub mod config;
pub mod cursor;
pub mod dynamodb;
pub mod helper;
pub mod key;
pub mod live;
pub mod order;
pub mod primitives;
pub mod proofs;
pub mod provider;
pub mod prune;
pub mod rlp;
pub mod rpc;
pub mod sqlite;
pub mod steps;
pub mod storage;
pub mod table;
pub mod text;
pub mod write;

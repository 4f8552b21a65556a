//! MyCitadel wallet library: contracts and their storage, the cache of
//! outputs and addresses, coin selection, key derivation, the node's
//! request handling, and the text forms of wallet data.

pub mod addrmap;
pub mod bip21;
pub mod capi;
pub mod cli;
pub mod confirm;
pub mod data;
pub mod cache;
pub mod encoding;
pub mod finalize;
pub mod ids;
pub mod laws;
pub mod listing;
pub mod map;
pub mod model;
pub mod parse;
pub mod roundtrip;
pub mod rpc;
pub mod signer;
pub mod storage;
pub mod sync;
pub mod text;
pub mod transfer;
pub mod unspent;
pub mod utxo;

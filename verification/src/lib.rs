//! Verified core of a set of execution extensions for an Ethereum node: a price
//! oracle with its peer-to-peer protocol, bridge, deposit and name indexers, a
//! rollup's block rules, an OP Stack derivation driver with its block gossip,
//! backfill jobs and WASM-powered extensions.

// Shared building blocks.
pub mod bytes;
pub mod seq_facts;
pub mod text;
pub mod decimal;
pub mod name_set;
pub mod rlp;
pub mod crypto;
pub mod notification;

// The price oracle.
pub mod oracle_cli;
pub mod ticker;
pub mod oracle_proto;
pub mod oracle_conn;
pub mod oracle_signer;
pub mod binance_feed;

// Indexers of chain events.
pub mod bridge;
pub mod daimo;
pub mod devcon;

// The rollup.
pub mod rollup;

// OP Stack derivation and block gossip.
pub mod kona_cli;
pub mod kona_cursor;
pub mod kona_validation;
pub mod blob_store;
pub mod topics;
pub mod gossip;

// Backfill jobs.
pub mod backfill;

// WASM-powered extensions.
pub mod wasm_registry;
pub mod wasm_guest;

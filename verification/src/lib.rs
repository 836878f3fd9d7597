//! The decision logic of a Cawala node.
//!
//! A node keeps its links in an octal tree, an append-only ledger and a set of
//! control-plane rules. Every rule here is a function from plain values to
//! plain values with a contract; reading files, signing and talking to peers
//! happens in the program around the library.
pub mod addr;
pub mod admin_cli;
pub mod admin_store;
pub mod claim_bundle;
pub mod cli;
pub mod control;
pub mod control_msg;
pub mod control_store;
pub mod endpoint;
pub mod frames;
pub mod keys;
pub mod ledger_commitments;
pub mod ledger_service;
pub mod ledger_store;
pub mod lines;
pub mod msg;
pub mod netting_harness;
pub mod orders;
pub mod origin;
pub mod partition;
pub mod ping;
pub mod record;
pub mod render;
pub mod routed;
pub mod routing;
pub mod settle;
pub mod text;
pub mod textmap;
pub mod union_find;
pub mod wire;

//! The configuration the host loads at start and hands in: the
//! liquidity provider to connect to, the node's own settings, and the
//! defaults of a newly created stable channel. Reading the file and
//! decoding it belong to the host; the values live here as plain data.

use vstd::prelude::*;
use crate::money::USD;

verus! {

/// The liquidity provider to connect to.
#[derive(Clone, Debug)]
pub struct LspConfig {
    pub pubkey: String,
    pub address: String,
    pub auth: String,
}

/// The node's own settings.
#[derive(Clone, Debug)]
pub struct NodeConfig {
    pub network: String,
    pub chain_source_url: String,
    pub data_dir: String,
    pub alias: String,
    pub port: u16,
}

/// Defaults of a newly created stable channel: the peg target and the
/// channel's state directory.
#[derive(Clone, Debug)]
pub struct StableChannelConfig {
    pub expected_usd: USD,
    pub sc_dir: String,
}

/// Everything loaded at start.
#[derive(Clone, Debug)]
pub struct Config {
    pub lsp: LspConfig,
    pub node: NodeConfig,
    pub stable_channel_defaults: StableChannelConfig,
}

} // verus!

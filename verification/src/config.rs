//! Node configuration: chain parameters, the wallet's keys and cached
//! slips, and the peer list. Reading and writing configuration files is
//! left to the surrounding program.

use vstd::prelude::*;

use crate::crypto::{ReadablePrivateKey, ReadablePublicKey};
use crate::slip::Slip;

verus! {

/// Chain parameters.
#[derive(Clone, Debug)]
pub struct ChainConfig {}

/// Network parameters.
#[derive(Clone, Debug)]
pub struct NetworkConfig {}

/// The wallet section: keys in readable form and cached slips.
#[derive(Debug)]
pub struct WalletConfig {
    pub publickey: ReadablePublicKey,
    pub privatekey: ReadablePrivateKey,
    pub amount: u64,
    pub inputs: Vec<Slip>,
    pub outputs: Vec<Slip>,
}

/// A whole configuration document.
#[derive(Debug)]
pub struct Config {
    pub config_filename: String,
    pub chain_config: ChainConfig,
    pub wallet_config: WalletConfig,
    pub network_config: NetworkConfig,
}

} // verus!

//! Static node configuration: loaded once at startup, immutable
//! thereafter. Reading it from the environment or a file is the caller's
//! concern; the core only holds the values.

use vstd::prelude::*;

verus! {

/// The configuration of one subnet node.
#[derive(Clone, Debug)]
pub struct SubnetConfig {
    pub epoch_length: u64,
    pub chain_endpoint: String,
    pub netuid: u16,
    pub wallet_name: String,
    pub hotkey_name: String,
}

/// The mathematical value of a configuration.
pub ghost struct SubnetConfigV {
    pub epoch_length: u64,
    pub chain_endpoint: Seq<char>,
    pub netuid: u16,
    pub wallet_name: Seq<char>,
    pub hotkey_name: Seq<char>,
}

impl View for SubnetConfig {
    type V = SubnetConfigV;

    open spec fn view(&self) -> SubnetConfigV {
        SubnetConfigV {
            epoch_length: self.epoch_length,
            chain_endpoint: self.chain_endpoint@,
            netuid: self.netuid,
            wallet_name: self.wallet_name@,
            hotkey_name: self.hotkey_name@,
        }
    }
}

impl SubnetConfig {
    /// Builds a configuration from its five fields.
    pub fn new(
        epoch_length: u64,
        chain_endpoint: String,
        netuid: u16,
        wallet_name: String,
        hotkey_name: String,
    ) -> (c: SubnetConfig)
        ensures
            c.epoch_length == epoch_length,
            c.chain_endpoint@ == chain_endpoint@,
            c.netuid == netuid,
            c.wallet_name@ == wallet_name@,
            c.hotkey_name@ == hotkey_name@,
    {
        SubnetConfig { epoch_length, chain_endpoint, netuid, wallet_name, hotkey_name }
    }
}

} // verus!

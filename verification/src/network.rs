//! Symbolic network identifiers, usable as query qualifiers. A reserved
//! extension point: the fetch pipeline does not branch on them today. Each
//! network has a stable snake_case name; parsing is by those names, exactly.

use vstd::prelude::*;
use vstd::string::StringSliceAdditionalSpecFns;

verus! {

/// The networks the gateway knows by name.
#[derive(Clone, Copy, Debug, PartialEq, Eq, Structural)]
pub enum Network {
    EthereumMainnet,
    EthereumGoerli,
    EthereumSepolia,
    ArbitrumOne,
    ArbitrumGoerli,
    OptimismMainnet,
}

/// The snake_case name of a network, as UTF-8 bytes.
pub open spec fn spec_network_name(n: Network) -> Seq<u8> {
    match n {
        Network::EthereumMainnet => "ethereum_mainnet".spec_bytes(),
        Network::EthereumGoerli => "ethereum_goerli".spec_bytes(),
        Network::EthereumSepolia => "ethereum_sepolia".spec_bytes(),
        Network::ArbitrumOne => "arbitrum_one".spec_bytes(),
        Network::ArbitrumGoerli => "arbitrum_goerli".spec_bytes(),
        Network::OptimismMainnet => "optimism_mainnet".spec_bytes(),
    }
}

impl Network {
    /// Every network, in declaration order.
    pub fn all() -> (r: Vec<Network>)
        ensures
            r@ == seq![
                Network::EthereumMainnet,
                Network::EthereumGoerli,
                Network::EthereumSepolia,
                Network::ArbitrumOne,
                Network::ArbitrumGoerli,
                Network::OptimismMainnet,
            ],
    {
        let mut r: Vec<Network> = Vec::new();
        r.push(Network::EthereumMainnet);
        r.push(Network::EthereumGoerli);
        r.push(Network::EthereumSepolia);
        r.push(Network::ArbitrumOne);
        r.push(Network::ArbitrumGoerli);
        r.push(Network::OptimismMainnet);
        proof {
            assert(r@ =~= seq![
                Network::EthereumMainnet,
                Network::EthereumGoerli,
                Network::EthereumSepolia,
                Network::ArbitrumOne,
                Network::ArbitrumGoerli,
                Network::OptimismMainnet,
            ]);
        }
        r
    }

    /// The network's snake_case name, as bytes.
    pub fn name_bytes(&self) -> (r: Vec<u8>)
        ensures
            r@ == spec_network_name(*self),
    {
        match self {
            Network::EthereumMainnet => vstd::slice::slice_to_vec("ethereum_mainnet".as_bytes()),
            Network::EthereumGoerli => vstd::slice::slice_to_vec("ethereum_goerli".as_bytes()),
            Network::EthereumSepolia => vstd::slice::slice_to_vec("ethereum_sepolia".as_bytes()),
            Network::ArbitrumOne => vstd::slice::slice_to_vec("arbitrum_one".as_bytes()),
            Network::ArbitrumGoerli => vstd::slice::slice_to_vec("arbitrum_goerli".as_bytes()),
            Network::OptimismMainnet => vstd::slice::slice_to_vec("optimism_mainnet".as_bytes()),
        }
    }

    /// Parse a network from its snake_case name: exactly the six names are
    /// accepted, anything else is refused.
    pub fn from_name_bytes(name: &[u8]) -> (r: Option<Network>)
        ensures
            match r {
                Some(n) => spec_network_name(n) == name@,
                None => forall|n: Network| spec_network_name(n) != name@,
            },
    {
        if crate::types::bytes_eq(name, "ethereum_mainnet".as_bytes()) {
            Some(Network::EthereumMainnet)
        } else if crate::types::bytes_eq(name, "ethereum_goerli".as_bytes()) {
            Some(Network::EthereumGoerli)
        } else if crate::types::bytes_eq(name, "ethereum_sepolia".as_bytes()) {
            Some(Network::EthereumSepolia)
        } else if crate::types::bytes_eq(name, "arbitrum_one".as_bytes()) {
            Some(Network::ArbitrumOne)
        } else if crate::types::bytes_eq(name, "arbitrum_goerli".as_bytes()) {
            Some(Network::ArbitrumGoerli)
        } else if crate::types::bytes_eq(name, "optimism_mainnet".as_bytes()) {
            Some(Network::OptimismMainnet)
        } else {
            None
        }
    }
}

} // verus!

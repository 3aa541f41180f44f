use engine_core::network::Network;

#[test]
fn all_networks_listed_once() {
    let all = Network::all();
    assert_eq!(all.len(), 6);
    assert_eq!(all[0], Network::EthereumMainnet);
    assert_eq!(all[5], Network::OptimismMainnet);
}

#[test]
fn names_round_trip() {
    for n in Network::all() {
        let name = n.name_bytes();
        assert_eq!(Network::from_name_bytes(&name), Some(n));
    }
}

#[test]
fn names_are_snake_case() {
    assert_eq!(Network::EthereumMainnet.name_bytes(), b"ethereum_mainnet");
    assert_eq!(Network::ArbitrumOne.name_bytes(), b"arbitrum_one");
}

#[test]
fn unknown_name_is_refused() {
    assert_eq!(Network::from_name_bytes(b"ethereum"), None);
    assert_eq!(Network::from_name_bytes(b""), None);
    assert_eq!(Network::from_name_bytes(b"Ethereum_Mainnet"), None);
}

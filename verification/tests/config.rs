use aave_liquidator::address::Address;
use aave_liquidator::config::{get_deployment_config, Deployment};

fn hex(text: &str) -> Address {
    let mut bytes = [0u8; 20];
    for (i, byte) in bytes.iter_mut().enumerate() {
        *byte = u8::from_str_radix(&text[2 + 2 * i..4 + 2 * i], 16).unwrap();
    }
    Address { bytes }
}

#[test]
fn mocknet_configuration() {
    let config = get_deployment_config(Deployment::MOCKNET);
    assert_eq!(config.state_cache_file, "borrowers-mocknet.json");
    assert_eq!(config.pool_address, hex("0x32467b43BFa67273FC7dDda0999Ee9A12F2AaA08"));
    assert_eq!(config.pool_data_provider, hex("0x0B306BF915C4d645ff596e518fAf3F9669b97016"));
    assert_eq!(config.oracle_address, hex("0x0E801D84Fa97b50751Dbf25036d067dCf18858bF"));
    assert_eq!(config.weth_address, hex("0x9fE46736679d2D9a65F0992F2272dE9f3c7fa6e0"));
    assert_eq!(config.multicall3_address, hex("0x720472c8ce72c2A2D711333e064ABD3E6BbEAdd3"));
    assert_eq!(config.swap_venue, "hyperswap");
    assert_eq!(config.creation_block, 0);
}

#[test]
fn hyfi_configuration() {
    let config = get_deployment_config(Deployment::HYFI);
    assert_eq!(config.state_cache_file, "borrowers-hyperevm-mainnet.json");
    assert_eq!(config.pool_address, hex("0xceCcE0EB9DD2Ef7996e01e25DD70e461F918A14b"));
    assert_eq!(config.pool_data_provider, hex("0x895C799a5bbdCb63B80bEE5BD94E7b9138D977d6"));
    assert_eq!(config.oracle_address, hex("0x9BE2ac1ff80950DCeb816842834930887249d9A8"));
    assert_eq!(config.weth_address, Address { bytes: [0x55; 20] });
    assert_eq!(config.multicall3_address, hex("0xa66aeb1c0a579ad95ba3940d18faad02c368a383"));
    assert_eq!(config.swap_venue, "kittenswap");
    assert_eq!(config.creation_block, 82245);
}

#[test]
fn address_with_and_without_prefix() {
    let expected = hex("0x0B306BF915C4d645ff596e518fAf3F9669b97016");
    assert_eq!(Address::parse("0x0B306BF915C4d645ff596e518fAf3F9669b97016"), Some(expected));
    assert_eq!(Address::parse("0b306bf915c4d645ff596e518faf3f9669b97016"), Some(expected));
    assert_eq!(Address::parse("0B306BF915C4D645FF596E518FAF3F9669B97016"), Some(expected));
}

#[test]
fn address_passes_over_blanks() {
    let expected = hex("0x0B306BF915C4d645ff596e518fAf3F9669b97016");
    assert_eq!(Address::parse("0x0B30 6BF915C4d645ff596e518fAf3F9669b9701\t6\r\n"), Some(expected));
    assert_eq!(Address::parse(" 0x0B306BF915C4d645ff596e518fAf3F9669b97016"), None);
}

#[test]
fn address_of_wrong_shape_is_refused() {
    assert_eq!(Address::parse(""), None);
    assert_eq!(Address::parse("0x"), None);
    assert_eq!(Address::parse("0x0B306BF915C4d645ff596e518fAf3F9669b9701"), None);
    assert_eq!(Address::parse("0x0B306BF915C4d645ff596e518fAf3F9669b970160"), None);
    assert_eq!(Address::parse("0x0B306BF915C4d645ff596e518fAf3F9669b9701600"), None);
    assert_eq!(Address::parse("0X0B306BF915C4d645ff596e518fAf3F9669b97016"), None);
    assert_eq!(Address::parse("0xgB306BF915C4d645ff596e518fAf3F9669b97016"), None);
    assert_eq!(Address::parse("0x\u{e9}B306BF915C4d645ff596e518fAf3F9669b97016"), None);
}

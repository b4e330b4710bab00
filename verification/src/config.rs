//! Deployments of the pool.
use vstd::prelude::*;

use crate::address::{address_bytes, hex_before, is_address_text, lemma_plain_address_text, Address};

verus! {

/// Where the pool is deployed.
#[derive(Clone, Copy, Debug)]
pub enum Deployment {
    MOCKNET,
    HYFI,
}

/// Contracts and settings of one deployment.
#[derive(Debug)]
pub struct DeploymentConfig {
    pub state_cache_file: String,
    pub pool_address: Address,
    pub pool_data_provider: Address,
    pub oracle_address: Address,
    pub weth_address: Address,
    pub multicall3_address: Address,
    pub swap_venue: String,
    pub creation_block: u64,
}

/// Whether a configuration holds the given settings, the addresses given as texts.
pub open spec fn has_settings(
    config: DeploymentConfig,
    state_cache_file: Seq<char>,
    pool_address: Seq<char>,
    pool_data_provider: Seq<char>,
    oracle_address: Seq<char>,
    weth_address: Seq<char>,
    multicall3_address: Seq<char>,
    swap_venue: Seq<char>,
    creation_block: u64,
) -> bool {
    &&& config.state_cache_file@ == state_cache_file
    &&& config.pool_address.bytes@ == address_bytes(pool_address)
    &&& config.pool_data_provider.bytes@ == address_bytes(pool_data_provider)
    &&& config.oracle_address.bytes@ == address_bytes(oracle_address)
    &&& config.weth_address.bytes@ == address_bytes(weth_address)
    &&& config.multicall3_address.bytes@ == address_bytes(multicall3_address)
    &&& config.swap_venue@ == swap_venue
    &&& config.creation_block == creation_block
}

/// The configuration of a deployment.
pub open spec fn is_config_of(config: DeploymentConfig, deployment: Deployment) -> bool {
    match deployment {
        Deployment::MOCKNET => has_settings(
            config,
            "borrowers-mocknet.json"@,
            "0x32467b43BFa67273FC7dDda0999Ee9A12F2AaA08"@,
            "0x0B306BF915C4d645ff596e518fAf3F9669b97016"@,
            "0x0E801D84Fa97b50751Dbf25036d067dCf18858bF"@,
            "0x9fE46736679d2D9a65F0992F2272dE9f3c7fa6e0"@,
            "0x720472c8ce72c2A2D711333e064ABD3E6BbEAdd3"@,
            "hyperswap"@,
            0,
        ),
        Deployment::HYFI => has_settings(
            config,
            "borrowers-hyperevm-mainnet.json"@,
            "0xceCcE0EB9DD2Ef7996e01e25DD70e461F918A14b"@,
            "0x895C799a5bbdCb63B80bEE5BD94E7b9138D977d6"@,
            "0x9BE2ac1ff80950DCeb816842834930887249d9A8"@,
            "0x5555555555555555555555555555555555555555"@,
            "0xa66aeb1c0a579ad95ba3940d18faad02c368a383"@,
            "kittenswap"@,
            82245,
        ),
    }
}

fn known_address(text: &str) -> (r: Address)
    requires
        is_address_text(text@),
    ensures
        r.bytes@ == address_bytes(text@),
{
    Address::parse(text).unwrap()
}

/// The contracts and settings of a deployment.
pub fn get_deployment_config(deployment: Deployment) -> (r: DeploymentConfig)
    ensures
        is_config_of(r, deployment),
{
    match deployment {
        Deployment::MOCKNET => {
            proof {
                reveal_with_fuel(hex_before, 41);
                reveal_strlit("0x32467b43BFa67273FC7dDda0999Ee9A12F2AaA08");
                lemma_plain_address_text("0x32467b43BFa67273FC7dDda0999Ee9A12F2AaA08"@);
                reveal_strlit("0x0B306BF915C4d645ff596e518fAf3F9669b97016");
                lemma_plain_address_text("0x0B306BF915C4d645ff596e518fAf3F9669b97016"@);
                reveal_strlit("0x0E801D84Fa97b50751Dbf25036d067dCf18858bF");
                lemma_plain_address_text("0x0E801D84Fa97b50751Dbf25036d067dCf18858bF"@);
                reveal_strlit("0x9fE46736679d2D9a65F0992F2272dE9f3c7fa6e0");
                lemma_plain_address_text("0x9fE46736679d2D9a65F0992F2272dE9f3c7fa6e0"@);
                reveal_strlit("0x720472c8ce72c2A2D711333e064ABD3E6BbEAdd3");
                lemma_plain_address_text("0x720472c8ce72c2A2D711333e064ABD3E6BbEAdd3"@);
            }
            DeploymentConfig {
                state_cache_file: "borrowers-mocknet.json".to_string(),
                pool_address: known_address(
                    "0x32467b43BFa67273FC7dDda0999Ee9A12F2AaA08",
                ),
                pool_data_provider: known_address(
                    "0x0B306BF915C4d645ff596e518fAf3F9669b97016",
                ),
                oracle_address: known_address(
                    "0x0E801D84Fa97b50751Dbf25036d067dCf18858bF",
                ),
                weth_address: known_address(
                    "0x9fE46736679d2D9a65F0992F2272dE9f3c7fa6e0",
                ),
                multicall3_address: known_address(
                    "0x720472c8ce72c2A2D711333e064ABD3E6BbEAdd3",
                ),
                swap_venue: "hyperswap".to_string(),
                creation_block: 0,
            }
        },
        Deployment::HYFI => {
            proof {
                reveal_with_fuel(hex_before, 41);
                reveal_strlit("0xceCcE0EB9DD2Ef7996e01e25DD70e461F918A14b");
                lemma_plain_address_text("0xceCcE0EB9DD2Ef7996e01e25DD70e461F918A14b"@);
                reveal_strlit("0x895C799a5bbdCb63B80bEE5BD94E7b9138D977d6");
                lemma_plain_address_text("0x895C799a5bbdCb63B80bEE5BD94E7b9138D977d6"@);
                reveal_strlit("0x9BE2ac1ff80950DCeb816842834930887249d9A8");
                lemma_plain_address_text("0x9BE2ac1ff80950DCeb816842834930887249d9A8"@);
                reveal_strlit("0x5555555555555555555555555555555555555555");
                lemma_plain_address_text("0x5555555555555555555555555555555555555555"@);
                reveal_strlit("0xa66aeb1c0a579ad95ba3940d18faad02c368a383");
                lemma_plain_address_text("0xa66aeb1c0a579ad95ba3940d18faad02c368a383"@);
            }
            DeploymentConfig {
                state_cache_file: "borrowers-hyperevm-mainnet.json".to_string(),
                pool_address: known_address(
                    "0xceCcE0EB9DD2Ef7996e01e25DD70e461F918A14b",
                ),
                pool_data_provider: known_address(
                    "0x895C799a5bbdCb63B80bEE5BD94E7b9138D977d6",
                ),
                oracle_address: known_address(
                    "0x9BE2ac1ff80950DCeb816842834930887249d9A8",
                ),
                weth_address: known_address(
                    "0x5555555555555555555555555555555555555555",
                ),
                multicall3_address: known_address(
                    "0xa66aeb1c0a579ad95ba3940d18faad02c368a383",
                ),
                swap_venue: "kittenswap".to_string(),
                creation_block: 82245,
            }
        },
    }
}

} // verus!

//! The call that carries out a liquidation.
use vstd::prelude::*;

use crate::address::Address;
use crate::liquidation::{LiquidationOpportunity, StrategyError};
use crate::numbers::U256;
use crate::strategy::AaveStrategy;

verus! {

/// Fee of the pools that are swapped through, in hundredths of a basis point.
pub const POOL_FEE: u32 = 500;

/// A part of a swap path.
#[derive(Debug)]
pub enum PathToken {
    Address(Address),
    FixedBytes(Vec<u8>),
}

/// The bytes of a part of a swap path.
pub open spec fn token_bytes(token: PathToken) -> Seq<u8> {
    match token {
        PathToken::Address(address) => address.bytes@,
        PathToken::FixedBytes(bytes) => bytes@,
    }
}

/// The bytes of the parts of a swap path, one behind the other.
pub open spec fn packed(tokens: Seq<PathToken>) -> Seq<u8>
    decreases tokens.len(),
{
    if tokens.len() == 0 {
        Seq::empty()
    } else {
        packed(tokens.drop_last()) + token_bytes(tokens.last())
    }
}

/// The error of `ethers` for tokens that cannot be packed.
#[verifier::external_type_specification]
#[verifier::external_body]
pub struct ExEncodePackedError(ethers::abi::EncodePackedError);

/// Packs tokens with `ethers::abi::encode_packed`, which is claimed to put the bytes of addresses
/// and fixed bytes one behind the other, and to refuse fixed bytes longer than 32.
#[verifier::external_body]
fn encode_packed(tokens: &Vec<PathToken>) -> (r: Result<Vec<u8>, ethers::abi::EncodePackedError>)
    ensures
        r is Ok <==> (forall|i: int|
            0 <= i < tokens@.len() && tokens@[i] is FixedBytes ==> token_bytes(
                #[trigger] tokens@[i],
            ).len() <= 32),
        r matches Ok(bytes) ==> bytes@ == packed(tokens@),
{
    let tokens: Vec<ethers::abi::Token> = tokens.iter().map(|token| match token {
        PathToken::Address(a) => ethers::abi::Token::Address(ethers::types::H160(a.bytes)),
        PathToken::FixedBytes(bytes) => ethers::abi::Token::FixedBytes(bytes.clone()),
    }).collect();
    ethers::abi::encode_packed(&tokens)
}

/// A fee in three bytes, the most significant one first.
pub open spec fn fee_bytes(fee: u32) -> Seq<u8> {
    seq![(fee / 65536 % 256) as u8, (fee / 256 % 256) as u8, (fee % 256) as u8]
}

/// The path of the swap that repays a liquidation: from the debt to the collateral, through
/// wrapped ether unless one of them is wrapped ether itself.
pub open spec fn swap_path_of(collateral: Address, debt: Address, weth: Address) -> Seq<u8> {
    let fee = fee_bytes(POOL_FEE);
    if collateral != weth && debt != weth {
        debt.bytes@ + fee + weth.bytes@ + fee + collateral.bytes@
    } else {
        debt.bytes@ + fee + collateral.bytes@
    }
}

/// The call of the liquidator contract that carries out a liquidation.
#[derive(Debug)]
pub struct LiquidationCall {
    pub liquidator: Address,
    pub collateral: Address,
    pub debt: Address,
    pub borrower: Address,
    pub debt_to_cover: U256,
    pub swap_path: Vec<u8>,
    pub swap_venue: String,
}

/// A call, bound to a chain.
#[derive(Debug)]
pub struct LiquidationTransaction {
    pub call: LiquidationCall,
    pub chain_id: u64,
}

/// Whether a call carries out a liquidation on behalf of a strategy.
pub open spec fn carries_out(
    call: LiquidationCall,
    strategy: AaveStrategy,
    op: LiquidationOpportunity,
) -> bool {
    &&& call.liquidator == strategy.liquidator
    &&& call.collateral == op.collateral
    &&& call.debt == op.debt
    &&& call.borrower == op.borrower
    &&& call.debt_to_cover == op.debt_to_cover
    &&& call.swap_path@ == swap_path_of(op.collateral, op.debt, strategy.config.weth_address)
    &&& call.swap_venue@ == strategy.config.swap_venue@
}

fn encode_fee(fee: u32) -> (r: Vec<u8>)
    ensures
        r@ == fee_bytes(fee),
{
    let mut bytes: Vec<u8> = Vec::new();
    bytes.push((fee / 65536 % 256) as u8);
    bytes.push((fee / 256 % 256) as u8);
    bytes.push((fee % 256) as u8);
    bytes
}

impl AaveStrategy {
    /// The path of the swap that repays a liquidation.
    pub fn get_swap_path(&self, collateral: &Address, debt: &Address) -> (r: Result<
        Vec<u8>,
        StrategyError,
    >)
        ensures
            r matches Ok(path) && path@ == swap_path_of(
                *collateral,
                *debt,
                self.config.weth_address,
            ),
    {
        let weth_address = self.config.weth_address;
        let mut path: Vec<PathToken> = Vec::new();
        path.push(PathToken::Address(*debt));
        path.push(PathToken::FixedBytes(encode_fee(POOL_FEE)));
        if *collateral != weth_address && *debt != weth_address {
            path.push(PathToken::Address(weth_address));
            path.push(PathToken::FixedBytes(encode_fee(POOL_FEE)));
        }
        path.push(PathToken::Address(*collateral));
        proof {
            lemma_packed_path(path@);
        }
        match encode_packed(&path) {
            Ok(bytes) => Ok(bytes),
            Err(_) => Err(StrategyError::InvalidSwapPath),
        }
    }

    /// The call that carries out a liquidation.
    pub fn build_liquidation_call(&self, op: &LiquidationOpportunity) -> (r: Result<
        LiquidationCall,
        StrategyError,
    >)
        ensures
            r matches Ok(call) && carries_out(call, *self, *op),
    {
        match self.get_swap_path(&op.collateral, &op.debt) {
            Ok(swap_path) => Ok(
                LiquidationCall {
                    liquidator: self.liquidator,
                    collateral: op.collateral,
                    debt: op.debt,
                    borrower: op.borrower,
                    debt_to_cover: op.debt_to_cover,
                    swap_path,
                    swap_venue: self.config.swap_venue.clone(),
                },
            ),
            Err(error) => Err(error),
        }
    }

    /// The call that carries out a liquidation, bound to the strategy's chain.
    pub fn build_liquidation(&self, op: &LiquidationOpportunity) -> (r: Result<
        LiquidationTransaction,
        StrategyError,
    >)
        ensures
            r matches Ok(tx) && carries_out(tx.call, *self, *op) && tx.chain_id == self.chain_id,
    {
        match self.build_liquidation_call(op) {
            Ok(call) => Ok(LiquidationTransaction { call, chain_id: self.chain_id }),
            Err(error) => Err(error),
        }
    }
}

proof fn lemma_packed_path(tokens: Seq<PathToken>)
    requires
        tokens.len() == 3 || tokens.len() == 5,
    ensures
        tokens.len() == 3 ==> packed(tokens) == token_bytes(tokens[0]) + token_bytes(tokens[1])
            + token_bytes(tokens[2]),
        tokens.len() == 5 ==> packed(tokens) == token_bytes(tokens[0]) + token_bytes(tokens[1])
            + token_bytes(tokens[2]) + token_bytes(tokens[3]) + token_bytes(tokens[4]),
{
    reveal_with_fuel(packed, 6);
    assert(Seq::<u8>::empty() + token_bytes(tokens[0]) =~= token_bytes(tokens[0]));
}

/// A swap path starts at the debt and ends at the collateral. It takes two pools, of which wrapped
/// ether is part, or one pool where wrapped ether is the debt or the collateral. The fee of each
/// pool is 500.
pub proof fn law_swap_path(collateral: Address, debt: Address, weth: Address)
    ensures
        ({
            let path = swap_path_of(collateral, debt, weth);
            &&& path.len() == if collateral != weth && debt != weth {
                66nat
            } else {
                43nat
            }
            &&& path.take(20) == debt.bytes@
            &&& path.subrange(20, 23) == seq![0x00u8, 0x01u8, 0xf4u8]
            &&& path.skip(path.len() - 20) == collateral.bytes@
            &&& collateral != weth && debt != weth ==> path.subrange(23, 43) == weth.bytes@
                && path.subrange(43, 46) == seq![0x00u8, 0x01u8, 0xf4u8]
        }),
{
    let path = swap_path_of(collateral, debt, weth);
    assert(path.take(20) =~= debt.bytes@);
    assert(path.subrange(20, 23) =~= seq![0x00u8, 0x01u8, 0xf4u8]);
    assert(path.skip(path.len() - 20) =~= collateral.bytes@);
    if collateral != weth && debt != weth {
        assert(path.subrange(23, 43) =~= weth.bytes@);
        assert(path.subrange(43, 46) =~= seq![0x00u8, 0x01u8, 0xf4u8]);
    }
}

/// The three bytes of a fee are the fee as a number of 24 bits, the most significant byte first.
pub proof fn law_fee_bytes(fee: u32)
    requires
        fee < 0x100_0000,
    ensures
        fee_bytes(fee).len() == 3,
        fee_bytes(fee)[0] * 0x1_0000 + fee_bytes(fee)[1] * 0x100 + fee_bytes(fee)[2] == fee,
{
}

/// A call carries out its liquidation and no other: whatever the collateral, it goes to the
/// strategy's liquidator, takes that collateral from that borrower for that debt, repays the amount
/// that the liquidation was sized to cover, and swaps at the deployment's venue along a path from
/// the debt to the collateral.
pub proof fn law_call_carries_out(
    call: LiquidationCall,
    strategy: AaveStrategy,
    op: LiquidationOpportunity,
)
    requires
        carries_out(call, strategy, op),
    ensures
        call.liquidator == strategy.liquidator,
        call.borrower == op.borrower,
        call.collateral == op.collateral,
        call.debt == op.debt,
        call.debt_to_cover@ == op.debt_to_cover@,
        call.swap_venue@ == strategy.config.swap_venue@,
        call.swap_path@.take(20) == op.debt.bytes@,
        call.swap_path@.skip(call.swap_path@.len() - 20) == op.collateral.bytes@,
        op.collateral != strategy.config.weth_address && op.debt != strategy.config.weth_address
            ==> call.swap_path@.len() == 66 && call.swap_path@.subrange(23, 43)
            == strategy.config.weth_address.bytes@,
        op.collateral == strategy.config.weth_address || op.debt == strategy.config.weth_address
            ==> call.swap_path@.len() == 43,
{
    law_swap_path(op.collateral, op.debt, strategy.config.weth_address);
}

} // verus!

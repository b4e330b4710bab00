//! Sizing and pricing a liquidation.
use vstd::arithmetic::div_mod::lemma_fundamental_div_mod_converse;
use vstd::arithmetic::power::{lemma_pow_positive, pow};
use vstd::prelude::*;

use crate::address::Address;
use crate::collections::AddressMap;
use crate::digits::{all_hex_digits, hex_prefix_value, hex_value, is_hex_digit, without_0x};
use crate::numbers::{truncated_quotient, two_255, two_256, I256, U256};
use crate::strategy::AaveStrategy;
use crate::underwater::HEALTH_FACTOR_ONE;

verus! {

/// Health factor above which only part of a debt is repaid, in hexadecimal digits.
pub const LIQUIDATION_CLOSE_FACTOR_THRESHOLD: &'static str = "950000000000000000";

/// All of a debt, in basis points.
pub const MAX_LIQUIDATION_CLOSE_FACTOR: u64 = 10000;

/// The part of a debt that is repaid above the threshold, in basis points.
pub const DEFAULT_LIQUIDATION_CLOSE_FACTOR: u64 = 5000;

/// A price of one, which has 8 decimals.
pub const PRICE_ONE: u64 = 100000000;

/// A share of a number in basis points, rounded to the nearest integer.
pub open spec fn percent_mul_of(a: nat, bps: u64) -> nat {
    (5000 + a * bps) as nat / 10000
}

/// The number of which another one is a share in basis points, rounded to the nearest integer.
pub open spec fn percent_div_of(a: nat, bps: u64) -> nat {
    (bps / 2 + a * 10000) as nat / bps as nat
}

fn checked_percent_mul(a: U256, bps: u64) -> (r: Option<U256>)
    ensures
        r is Some <==> 5000 + a@ * bps < two_256(),
        r matches Some(v) ==> v@ == percent_mul_of(a@, bps),
{
    let product = a.checked_mul(U256::from_u64(bps))?;
    let sum = U256::from_u64(5000).checked_add(product)?;
    sum.checked_div(U256::from_u64(10000))
}

fn checked_percent_div(a: U256, bps: u64) -> (r: Option<U256>)
    ensures
        r is Some <==> bps != 0 && bps / 2 + a@ * 10000 < two_256(),
        r matches Some(v) ==> v@ == percent_div_of(a@, bps),
{
    let product = a.checked_mul(U256::from_u64(10000))?;
    let sum = U256::from_u64(bps / 2).checked_add(product)?;
    sum.checked_div(U256::from_u64(bps))
}

/// Takes a share in basis points.
pub fn percent_mul(a: U256, bps: u64) -> (r: U256)
    requires
        5000 + a@ * bps < two_256(),
    ensures
        r@ == percent_mul_of(a@, bps),
{
    checked_percent_mul(a, bps).unwrap()
}

/// Takes the whole of which a number is a share in basis points.
pub fn percent_div(a: U256, bps: u64) -> (r: U256)
    requires
        bps != 0,
        bps / 2 + a@ * 10000 < two_256(),
    ensures
        r@ == percent_div_of(a@, bps),
{
    checked_percent_div(a, bps).unwrap()
}

/// The health factor above which only part of a debt is repaid.
pub open spec fn close_factor_threshold() -> nat {
    hex_value(without_0x(LIQUIDATION_CLOSE_FACTOR_THRESHOLD@))
}

/// The part of a debt that is repaid, in basis points.
pub open spec fn close_factor_of(health_factor: nat) -> u64 {
    if health_factor > close_factor_threshold() {
        DEFAULT_LIQUIDATION_CLOSE_FACTOR
    } else {
        MAX_LIQUIDATION_CLOSE_FACTOR
    }
}

/// The threshold as a number: hexadecimal 95, followed by sixteen zeros.
pub proof fn lemma_close_factor_threshold()
    ensures
        close_factor_threshold() == 0x95_0000_0000_0000_0000nat,
        all_hex_digits(without_0x(LIQUIDATION_CLOSE_FACTOR_THRESHOLD@)),
        without_0x(LIQUIDATION_CLOSE_FACTOR_THRESHOLD@).len() == 18,
{
    reveal_strlit("950000000000000000");
    reveal_with_fuel(hex_prefix_value, 19);
    let text = LIQUIDATION_CLOSE_FACTOR_THRESHOLD@;
    assert(text.len() == 18);
    assert forall|i: int| 0 <= i < 18 implies is_hex_digit(#[trigger] text[i]) by {
        assert(i == 0 || i == 1 || i == 2 || i == 3 || i == 4 || i == 5 || i == 6 || i == 7 || i
            == 8 || i == 9 || i == 10 || i == 11 || i == 12 || i == 13 || i == 14 || i == 15 || i
            == 16 || i == 17);
    }
}

/// The part of a debt that is repaid, in basis points.
fn close_factor(health_factor: &U256) -> (r: u64)
    ensures
        r == close_factor_of(health_factor@),
{
    proof {
        lemma_close_factor_threshold();
    }
    let threshold = U256::from_hex_text(LIQUIDATION_CLOSE_FACTOR_THRESHOLD);
    if threshold.less_than(health_factor) {
        DEFAULT_LIQUIDATION_CLOSE_FACTOR
    } else {
        MAX_LIQUIDATION_CLOSE_FACTOR
    }
}

/// Why the strategy could not go on.
#[derive(Clone, Copy, Debug)]
pub enum StrategyError {
    NoUnderwaterBorrowers,
    BorrowerNotFound,
    NoCollateralPrice,
    NoDebtPrice,
    NoCollateralConfig,
    NoDebtConfig,
    /// There is no price for an asset.
    NoAssetPrice(Address),
    /// A price does not fit a signed number.
    PriceTooLarge,
    /// A swap path cannot be encoded.
    InvalidSwapPath,
}

/// Prices of the pool's tokens.
#[derive(Debug)]
pub struct PoolState {
    pub prices: AddressMap<U256>,
}

/// A liquidation of a borrower, and what it is expected to bring.
#[derive(Clone, Copy, Debug)]
pub struct LiquidationOpportunity {
    pub borrower: Address,
    pub collateral: Address,
    pub collateral_to_liquidate: U256,
    pub debt: Address,
    pub debt_to_cover: U256,
    pub profit_eth: I256,
}

/// A token of a borrower's collateral and another one of its debt.
#[derive(Clone, Copy, Debug)]
pub struct Candidate {
    pub borrower: Address,
    pub health_factor: U256,
    pub collateral: Address,
    pub debt: Address,
}

/// What is known of a liquidation before the pool is asked for the borrower's balances.
#[derive(Clone, Copy, Debug)]
pub struct LiquidationTerms {
    pub borrower: Address,
    pub health_factor: U256,
    pub collateral: Address,
    pub collateral_price: U256,
    pub collateral_decimals: u64,
    pub liquidation_bonus: u64,
    /// The interest-bearing token that stands for the collateral.
    pub a_token: Address,
    pub debt: Address,
    pub debt_price: U256,
    pub debt_decimals: u64,
}

/// What the pool reports of a borrower's balances.
#[derive(Clone, Copy, Debug)]
pub struct BorrowerBalances {
    pub stable_debt: U256,
    pub variable_debt: U256,
    pub collateral: U256,
}

/// One unit of a token, in its smallest parts.
pub open spec fn unit(decimals: u64) -> nat {
    pow(10, decimals as nat) as nat
}

impl LiquidationTerms {
    /// The debt to repay as far as the close factor goes.
    pub open spec fn full_debt(self, balances: BorrowerBalances) -> nat {
        (balances.stable_debt@ + balances.variable_debt@) * close_factor_of(self.health_factor@)
            as nat / MAX_LIQUIDATION_CLOSE_FACTOR as nat
    }

    /// The collateral that is worth that debt.
    pub open spec fn base_collateral(self, balances: BorrowerBalances) -> nat {
        (self.debt_price@ * self.full_debt(balances) * unit(self.debt_decimals)) / (
        self.collateral_price@ * unit(self.collateral_decimals))
    }

    /// The collateral that is worth that debt, with the bonus for the liquidator.
    pub open spec fn full_collateral(self, balances: BorrowerBalances) -> nat {
        percent_mul_of(self.base_collateral(balances), self.liquidation_bonus)
    }

    /// Whether the borrower has less collateral than that.
    pub open spec fn is_short(self, balances: BorrowerBalances) -> bool {
        self.full_collateral(balances) > balances.collateral@
    }

    /// The worth of all of the borrower's collateral.
    pub open spec fn balance_worth(self, balances: BorrowerBalances) -> nat {
        self.collateral_price@ * balances.collateral@ * unit(self.debt_decimals)
    }

    /// The price of a unit of debt, without the bonus for the liquidator.
    pub open spec fn debt_unit_price(self) -> nat {
        percent_div_of(self.debt_price@ * unit(self.collateral_decimals), self.liquidation_bonus)
    }

    /// The collateral to take: no more than the borrower has.
    pub open spec fn collateral_to_liquidate(self, balances: BorrowerBalances) -> nat {
        if self.is_short(balances) {
            balances.collateral@
        } else {
            self.full_collateral(balances)
        }
    }

    /// The debt to repay: as much as the collateral is good for.
    pub open spec fn debt_to_cover(self, balances: BorrowerBalances) -> nat {
        if self.is_short(balances) {
            self.balance_worth(balances) / self.debt_unit_price()
        } else {
            self.full_debt(balances)
        }
    }

    /// Whether the sizes can be computed: no number on the way exceeds 256 bits, and nothing is
    /// divided by zero.
    pub open spec fn sizes_fit(self, balances: BorrowerBalances) -> bool {
        let debt_unit = unit(self.debt_decimals);
        let collateral_unit = unit(self.collateral_decimals);
        let total_debt = balances.stable_debt@ + balances.variable_debt@;
        let debt_worth = self.debt_price@ * self.full_debt(balances);
        &&& debt_unit < two_256()
        &&& collateral_unit < two_256()
        &&& total_debt < two_256()
        &&& total_debt * close_factor_of(self.health_factor@) < two_256()
        &&& debt_worth < two_256()
        &&& debt_worth * debt_unit < two_256()
        &&& self.collateral_price@ * collateral_unit < two_256()
        &&& self.collateral_price@ * collateral_unit != 0
        &&& 5000 + self.base_collateral(balances) * self.liquidation_bonus < two_256()
        &&& self.is_short(balances) ==> {
            &&& self.collateral_price@ * balances.collateral@ < two_256()
            &&& self.balance_worth(balances) < two_256()
            &&& self.debt_price@ * collateral_unit < two_256()
            &&& self.liquidation_bonus != 0
            &&& self.liquidation_bonus / 2 + self.debt_price@ * collateral_unit * 10000
                < two_256()
            &&& self.debt_unit_price() != 0
        }
    }

    /// The collateral to take and the debt to repay, or nothing where they cannot be computed.
    fn checked_sizes(&self, balances: &BorrowerBalances) -> (r: Option<(U256, U256)>)
        ensures
            r is Some <==> self.sizes_fit(*balances),
            r matches Some(sizes) ==> sizes.0@ == self.collateral_to_liquidate(*balances)
                && sizes.1@ == self.debt_to_cover(*balances),
    {
        proof {
            lemma_pow_positive(10, self.debt_decimals as nat);
            lemma_pow_positive(10, self.collateral_decimals as nat);
        }
        let ten = U256::from_u64(10);
        let collateral_unit = ten.checked_pow(U256::from_u64(self.collateral_decimals))?;
        let debt_unit = ten.checked_pow(U256::from_u64(self.debt_decimals))?;
        let factor = U256::from_u64(close_factor(&self.health_factor));
        let total_debt = balances.stable_debt.checked_add(balances.variable_debt)?;
        let part = total_debt.checked_mul(factor)?;
        let full_debt = part.div(U256::from_u64(MAX_LIQUIDATION_CLOSE_FACTOR));
        let debt_worth = self.debt_price.checked_mul(full_debt)?.checked_mul(debt_unit)?;
        let collateral_worth = self.collateral_price.checked_mul(collateral_unit)?;
        let base_collateral = debt_worth.checked_div(collateral_worth)?;
        let full_collateral = checked_percent_mul(base_collateral, self.liquidation_bonus)?;
        if balances.collateral.less_than(&full_collateral) {
            let balance_worth = self.collateral_price.checked_mul(
                balances.collateral,
            )?.checked_mul(debt_unit)?;
            let debt_unit_price = checked_percent_div(
                self.debt_price.checked_mul(collateral_unit)?,
                self.liquidation_bonus,
            )?;
            let debt = balance_worth.checked_div(debt_unit_price)?;
            Some((balances.collateral, debt))
        } else {
            Some((full_collateral, full_debt))
        }
    }

    /// Whether the liquidation can be sized.
    pub fn can_size(&self, balances: &BorrowerBalances) -> (r: bool)
        ensures
            r == self.sizes_fit(*balances),
    {
        match self.checked_sizes(balances) {
            Some(_) => true,
            None => false,
        }
    }

    /// Sizes the liquidation; what it brings is still open.
    pub fn size(&self, balances: &BorrowerBalances) -> (r: LiquidationOpportunity)
        requires
            self.sizes_fit(*balances),
        ensures
            r.borrower == self.borrower,
            r.collateral == self.collateral,
            r.collateral_to_liquidate@ == self.collateral_to_liquidate(*balances),
            r.debt == self.debt,
            r.debt_to_cover@ == self.debt_to_cover(*balances),
            r.profit_eth@ == 0,
    {
        let (collateral_to_liquidate, debt_to_cover) = self.checked_sizes(balances).unwrap();
        LiquidationOpportunity {
            borrower: self.borrower,
            collateral: self.collateral,
            collateral_to_liquidate,
            debt: self.debt,
            debt_to_cover,
            profit_eth: I256::from_u64(0),
        }
    }
}

/// The terms of a liquidation, or the first thing that is missing for them.
pub open spec fn terms_of(
    strategy: AaveStrategy,
    pool_state: PoolState,
    terms: Result<LiquidationTerms, StrategyError>,
    candidate: Candidate,
) -> bool {
    let prices = pool_state.prices@;
    let tokens = strategy.tokens@;
    if !prices.contains_key(candidate.collateral) {
        terms == Err::<LiquidationTerms, StrategyError>(StrategyError::NoCollateralPrice)
    } else if !prices.contains_key(candidate.debt) {
        terms == Err::<LiquidationTerms, StrategyError>(StrategyError::NoDebtPrice)
    } else if !tokens.contains_key(candidate.collateral) {
        terms == Err::<LiquidationTerms, StrategyError>(StrategyError::NoCollateralConfig)
    } else if !tokens.contains_key(candidate.debt) {
        terms == Err::<LiquidationTerms, StrategyError>(StrategyError::NoDebtConfig)
    } else {
        let collateral = tokens[candidate.collateral];
        let debt = tokens[candidate.debt];
        terms matches Ok(t) && {
            &&& t.borrower == candidate.borrower
            &&& t.health_factor == candidate.health_factor
            &&& t.collateral == candidate.collateral
            &&& t.collateral_price@ == prices[candidate.collateral]
            &&& t.collateral_decimals == collateral.decimals
            &&& t.liquidation_bonus == collateral.liquidation_bonus
            &&& t.a_token == collateral.a_address
            &&& t.debt == candidate.debt
            &&& t.debt_price@ == prices[candidate.debt]
            &&& t.debt_decimals == debt.decimals
        }
    }
}

/// The price of an asset in ether, or the asset whose price is missing for it. Ether that is
/// wrapped costs one.
pub open spec fn asset_price_of(
    asset: Address,
    weth: Address,
    prices: Map<Address, nat>,
) -> Result<nat, StrategyError> {
    if asset == weth {
        Ok(PRICE_ONE as nat)
    } else if !prices.contains_key(asset) {
        Err(StrategyError::NoAssetPrice(asset))
    } else if !prices.contains_key(weth) {
        Err(StrategyError::NoAssetPrice(weth))
    } else {
        Ok(prices[asset] * PRICE_ONE as nat / prices[weth])
    }
}

/// Whether the price of an asset in ether can be computed, if the prices for it are there.
pub open spec fn asset_price_fits(
    asset: Address,
    weth: Address,
    prices: Map<Address, nat>,
) -> bool {
    asset != weth && prices.contains_key(asset) && prices.contains_key(weth) ==> prices[asset]
        * PRICE_ONE < two_256() && prices[weth] != 0
}

/// The worth in ether of an amount at a price.
pub open spec fn worth(gain: int, price: nat) -> int {
    truncated_quotient(gain * price, PRICE_ONE as int)
}

/// The profit of a liquidation that gains an amount of its collateral, or why it has none.
pub open spec fn profit_of(
    gain: int,
    collateral: Address,
    weth: Address,
    prices: Map<Address, nat>,
) -> Result<int, StrategyError> {
    match asset_price_of(collateral, weth, prices) {
        Ok(price) => if price < two_255() {
            Ok(worth(gain, price))
        } else {
            Err(StrategyError::PriceTooLarge)
        },
        Err(error) => Err(error),
    }
}

/// Whether the profit of a liquidation can be computed, if the prices for it are there.
pub open spec fn profit_fits(
    gain: int,
    collateral: Address,
    weth: Address,
    prices: Map<Address, nat>,
) -> bool {
    &&& asset_price_fits(collateral, weth, prices)
    &&& match asset_price_of(collateral, weth, prices) {
        Ok(price) => price < two_255() ==> -two_255() <= gain * price && gain * price < two_255(),
        Err(_) => true,
    }
}

impl AaveStrategy {
    /// Finds the prices and the token settings for a liquidation.
    pub fn liquidation_terms(&self, candidate: &Candidate, pool_state: &PoolState) -> (r: Result<
        LiquidationTerms,
        StrategyError,
    >)
        ensures
            terms_of(*self, *pool_state, r, *candidate),
    {
        let collateral_price = match pool_state.prices.get(&candidate.collateral) {
            Some(price) => *price,
            None => return Err(StrategyError::NoCollateralPrice),
        };
        let debt_price = match pool_state.prices.get(&candidate.debt) {
            Some(price) => *price,
            None => return Err(StrategyError::NoDebtPrice),
        };
        let collateral_config = match self.tokens.get(&candidate.collateral) {
            Some(config) => *config,
            None => return Err(StrategyError::NoCollateralConfig),
        };
        let debt_config = match self.tokens.get(&candidate.debt) {
            Some(config) => *config,
            None => return Err(StrategyError::NoDebtConfig),
        };
        Ok(
            LiquidationTerms {
                borrower: candidate.borrower,
                health_factor: candidate.health_factor,
                collateral: candidate.collateral,
                collateral_price,
                collateral_decimals: collateral_config.decimals,
                liquidation_bonus: collateral_config.liquidation_bonus,
                a_token: collateral_config.a_address,
                debt: candidate.debt,
                debt_price,
                debt_decimals: debt_config.decimals,
            },
        )
    }

    /// The price of an asset, or nothing where it cannot be computed.
    fn checked_asset_price_eth(&self, asset: &Address, pool_state: &PoolState) -> (r: Option<
        Result<U256, StrategyError>,
    >)
        ensures
            r is Some <==> asset_price_fits(*asset, self.config.weth_address, pool_state.prices@),
            r matches Some(price) ==> match asset_price_of(
                *asset,
                self.config.weth_address,
                pool_state.prices@,
            ) {
                Ok(p) => price matches Ok(v) && v@ == p,
                Err(error) => price == Err::<U256, StrategyError>(error),
            },
    {
        let weth_address = self.config.weth_address;
        if *asset == weth_address {
            return Some(Ok(U256::from_u64(PRICE_ONE)));
        }
        let usd_price = match pool_state.prices.get(asset) {
            Some(price) => *price,
            None => return Some(Err(StrategyError::NoAssetPrice(*asset))),
        };
        let usd_price_eth = match pool_state.prices.get(&weth_address) {
            Some(price) => *price,
            None => return Some(Err(StrategyError::NoAssetPrice(weth_address))),
        };
        let scaled = usd_price.checked_mul(U256::from_u64(PRICE_ONE))?;
        let price = scaled.checked_div(usd_price_eth)?;
        Some(Ok(price))
    }

    /// The price of an asset in ether, with 8 decimals.
    pub fn get_asset_price_eth(&self, asset: &Address, pool_state: &PoolState) -> (r: Result<
        U256,
        StrategyError,
    >)
        requires
            asset_price_fits(*asset, self.config.weth_address, pool_state.prices@),
        ensures
            match asset_price_of(*asset, self.config.weth_address, pool_state.prices@) {
                Ok(price) => r matches Ok(v) && v@ == price,
                Err(error) => r == Err::<U256, StrategyError>(error),
            },
    {
        self.checked_asset_price_eth(asset, pool_state).unwrap()
    }

    /// The profit of a liquidation, or nothing where it cannot be computed.
    fn checked_profit(&self, op: &LiquidationOpportunity, gain: &I256, pool_state: &PoolState) -> (r:
        Option<Result<I256, StrategyError>>)
        ensures
            r is Some <==> profit_fits(
                gain@,
                op.collateral,
                self.config.weth_address,
                pool_state.prices@,
            ),
            r matches Some(profit) ==> match profit_of(
                gain@,
                op.collateral,
                self.config.weth_address,
                pool_state.prices@,
            ) {
                Ok(p) => profit matches Ok(v) && v@ == p,
                Err(error) => profit == Err::<I256, StrategyError>(error),
            },
    {
        let price = match self.checked_asset_price_eth(&op.collateral, pool_state)? {
            Ok(price) => price,
            Err(error) => return Some(Err(error)),
        };
        let signed_price = match I256::from_u256(price) {
            Some(signed) => signed,
            None => return Some(Err(StrategyError::PriceTooLarge)),
        };
        let product = gain.checked_mul(signed_price)?;
        let profit = product.checked_div(I256::from_u64(PRICE_ONE))?;
        Some(Ok(profit))
    }

    /// Whether the profit of a liquidation can be computed.
    pub fn can_price(
        &self,
        op: &LiquidationOpportunity,
        gain: &I256,
        pool_state: &PoolState,
    ) -> (r: bool)
        ensures
            r == profit_fits(gain@, op.collateral, self.config.weth_address, pool_state.prices@),
    {
        match self.checked_profit(op, gain, pool_state) {
            Some(_) => true,
            None => false,
        }
    }

    /// Completes a liquidation with its profit, once it is known how much collateral it gains.
    pub fn price(&self, op: &LiquidationOpportunity, gain: &I256, pool_state: &PoolState) -> (r:
        Result<LiquidationOpportunity, StrategyError>)
        requires
            profit_fits(gain@, op.collateral, self.config.weth_address, pool_state.prices@),
        ensures
            match profit_of(gain@, op.collateral, self.config.weth_address, pool_state.prices@) {
                Ok(profit) => r matches Ok(priced) && {
                    &&& priced.profit_eth@ == profit
                    &&& priced == LiquidationOpportunity { profit_eth: priced.profit_eth, ..*op }
                },
                Err(error) => r == Err::<LiquidationOpportunity, StrategyError>(error),
            },
    {
        match self.checked_profit(op, gain, pool_state).unwrap() {
            Ok(profit_eth) => {
                let mut priced = *op;
                priced.profit_eth = profit_eth;
                Ok(priced)
            },
            Err(error) => Err(error),
        }
    }

    /// Takes up the prices of the pool's tokens, given in the order of the tokens.
    pub fn get_pool_state(&self, prices: &Vec<U256>) -> (r: PoolState)
        ensures
            forall|i: int|
                0 <= i < self.tokens.order().len() && i < prices@.len() ==> r.prices@.contains_key(
                    #[trigger] self.tokens.order()[i],
                ) && r.prices@[self.tokens.order()[i]] == prices@[i]@,
            forall|a: Address| #[trigger]
                r.prices@.contains_key(a) ==> exists|i: int|
                    0 <= i < self.tokens.order().len() && i < prices@.len()
                        && self.tokens.order()[i] == a,
    {
        let tokens = self.tokens.keys();
        let mut map: AddressMap<U256> = AddressMap::new();
        let mut i: usize = 0;
        while i < tokens.len() && i < prices.len()
            invariant
                i <= tokens@.len(),
                i <= prices@.len(),
                tokens@ == self.tokens.order(),
                tokens@.no_duplicates(),
                forall|j: int|
                    0 <= j < i ==> map@.contains_key(#[trigger] tokens@[j]) && map@[tokens@[j]]
                        == prices@[j]@,
                forall|a: Address| #[trigger]
                    map@.contains_key(a) ==> exists|j: int| 0 <= j < i && tokens@[j] == a,
            decreases tokens@.len() - i,
        {
            map.insert(tokens[i], prices[i]);
            i = i + 1;
        }
        PoolState { prices: map }
    }
}

/// A share in basis points is off by half a unit at most, and a half is rounded up.
pub proof fn law_percent_mul_rounds(a: nat, bps: u64)
    ensures
        -5000 < 10000 * percent_mul_of(a, bps) - a * bps <= 5000,
{
}

/// The whole of a share in basis points is off by half a unit at most, and a half is rounded up.
pub proof fn law_percent_div_rounds(a: nat, bps: u64)
    requires
        bps != 0,
    ensures
        -(bps as int) < 2 * (percent_div_of(a, bps) * bps - a * 10000) <= bps,
{
    let n = (bps / 2 + a * 10000) as nat;
    let q = n / bps as nat;
    assert(q * bps <= n < q * bps + bps) by (nonlinear_arith)
        requires
            bps != 0,
            q == n / bps as nat,
    ;
}

/// All of a number, 10000 basis points, is the number.
pub proof fn law_percent_of_all(a: nat)
    ensures
        percent_mul_of(a, 10000) == a,
        percent_div_of(a, 10000) == a,
{
}

/// Taking the whole and then the share gives the number back, for shares of up to all of it.
pub proof fn law_percent_mul_undoes_div(a: nat, bps: u64)
    requires
        0 < bps <= 10000,
    ensures
        percent_mul_of(percent_div_of(a, bps), bps) == a,
{
    law_percent_div_rounds(a, bps);
    if bps == 10000 {
        law_percent_of_all(a);
    }
}

/// Taking the share and then the whole gives the number back, for shares of at least all of it.
pub proof fn law_percent_div_undoes_mul(a: nat, bps: u64)
    requires
        bps >= 10000,
    ensures
        percent_div_of(percent_mul_of(a, bps), bps) == a,
{
    law_percent_mul_rounds(a, bps);
    let share = percent_mul_of(a, bps);
    if bps == 10000 {
        law_percent_of_all(a);
    } else {
        let n = (bps / 2 + share * 10000) as nat;
        assert(a * bps <= n < a * bps + bps);
        assert(n / bps as nat == a) by (nonlinear_arith)
            requires
                bps != 0,
                a * bps <= n < a * bps + bps,
        ;
    }
}

/// No more collateral is taken than the borrower has.
pub proof fn law_collateral_within_balance(terms: LiquidationTerms, balances: BorrowerBalances)
    ensures
        terms.collateral_to_liquidate(balances) <= balances.collateral@,
{
}

/// The debt of a borrower underwater is repaid in full, as far as the collateral is good for it.
pub proof fn law_underwater_debt_is_repaid(terms: LiquidationTerms, balances: BorrowerBalances)
    requires
        terms.health_factor@ < HEALTH_FACTOR_ONE,
    ensures
        close_factor_of(terms.health_factor@) == MAX_LIQUIDATION_CLOSE_FACTOR,
        !terms.is_short(balances) ==> terms.debt_to_cover(balances) == balances.stable_debt@
            + balances.variable_debt@,
{
    lemma_close_factor_threshold();
    let total = balances.stable_debt@ + balances.variable_debt@;
    let part = close_factor_of(terms.health_factor@) as nat;
    assert(total * part / 10000 == total) by (nonlinear_arith)
        requires
            part == 10000,
    ;
}

/// Wrapped ether costs one, as its own price divided by itself says.
pub proof fn law_weth_costs_one(weth: Address, prices: Map<Address, nat>)
    requires
        prices.contains_key(weth),
        prices[weth] != 0,
    ensures
        asset_price_of(weth, weth, prices) == Ok::<nat, StrategyError>(
            prices[weth] * PRICE_ONE as nat / prices[weth],
        ),
{
    let p = prices[weth];
    assert(p * (PRICE_ONE as nat) / p == PRICE_ONE as nat) by (nonlinear_arith)
        requires
            p != 0,
    ;
}

/// At a price of one an amount is worth itself. A gain is never worth less than nothing, and a
/// loss never more.
pub proof fn law_worth(gain: int, price: nat)
    ensures
        worth(gain, PRICE_ONE as nat) == gain,
        gain >= 0 ==> worth(gain, price) >= 0,
        gain <= 0 ==> worth(gain, price) <= 0,
{
    assert(gain >= 0 ==> gain * price >= 0) by (nonlinear_arith);
    assert(gain <= 0 ==> gain * price <= 0) by (nonlinear_arith);
}

proof fn lemma_quotient(x: int, d: int, q: int)
    requires
        0 < d,
        q * d <= x < (q + 1) * d,
    ensures
        q == x / d,
{
    assert((q + 1) * d == q * d + d) by (nonlinear_arith);
    lemma_fundamental_div_mod_converse(x, d, q, x - q * d);
}

proof fn lemma_quotient_bounds(x: int, d: int)
    requires
        0 < d,
    ensures
        (x / d) * d <= x < (x / d + 1) * d,
{
    let q = x / d;
    assert(q * d <= x < (q + 1) * d) by (nonlinear_arith)
        requires
            0 < d,
            q == x / d,
    ;
}

/// Up to a health factor of hexadecimal 95 followed by sixteen zeros all of a debt is repaid, and
/// half of it above.
pub proof fn law_close_factor(health_factor: nat)
    ensures
        health_factor <= 0x95_0000_0000_0000_0000nat ==> close_factor_of(health_factor) == 10000,
        health_factor > 0x95_0000_0000_0000_0000nat ==> close_factor_of(health_factor) == 5000,
{
    lemma_close_factor_threshold();
}

/// Whether an amount is what may be repaid of a debt at a health factor: all of it, or half of it,
/// rounded down, where the health factor is above the threshold.
pub open spec fn is_repayable(amount: nat, total: nat, health_factor: nat) -> bool {
    if health_factor > 0x95_0000_0000_0000_0000nat {
        2 * amount <= total <= 2 * amount + 1
    } else {
        amount == total
    }
}

/// What may be repaid of a debt is all of it up to the threshold, and half of it above.
pub proof fn law_full_debt(terms: LiquidationTerms, balances: BorrowerBalances)
    ensures
        is_repayable(
            terms.full_debt(balances),
            balances.stable_debt@ + balances.variable_debt@,
            terms.health_factor@,
        ),
{
    law_close_factor(terms.health_factor@);
    let total = balances.stable_debt@ + balances.variable_debt@;
    let part = close_factor_of(terms.health_factor@) as nat;
    let full = total * part / 10000;
    if part == 10000 {
        assert(full == total) by (nonlinear_arith)
            requires
                part == 10000,
                full == total * part / 10000,
        ;
    } else {
        assert(2 * full <= total <= 2 * full + 1) by (nonlinear_arith)
            requires
                part == 5000,
                full == total * part / 10000,
        ;
    }
}

/// Whether numbers are those on the way to the sizes of a liquidation, each one pinned down by how
/// it is rounded: `debt`, what may be repaid; `base`, how often the collateral's price, times one
/// unit of the collateral, goes into the price of that debt, times one unit of the debt token;
/// `full`, that with the bonus, to the nearest; and `price`, the number of which the debt's price,
/// times one unit of the collateral, is the share that the bonus names, to the nearest.
pub open spec fn is_way_to_sizes(
    terms: LiquidationTerms,
    balances: BorrowerBalances,
    debt: nat,
    base: nat,
    full: nat,
    price: nat,
) -> bool {
    let collateral_worth = terms.collateral_price@ * pow(10, terms.collateral_decimals as nat);
    let debt_worth = terms.debt_price@ * debt * pow(10, terms.debt_decimals as nat);
    let whole = terms.debt_price@ * pow(10, terms.collateral_decimals as nat);
    let bonus = terms.liquidation_bonus as int;
    &&& is_repayable(
        debt,
        balances.stable_debt@ + balances.variable_debt@,
        terms.health_factor@,
    )
    &&& collateral_worth > 0 ==> base * collateral_worth <= debt_worth < (base + 1)
        * collateral_worth
    &&& -5000 < 10000 * full - base * bonus <= 5000
    &&& bonus > 0 ==> -bonus < 2 * (price * bonus - whole * 10000) <= bonus
}

proof fn lemma_way_to_sizes(
    terms: LiquidationTerms,
    balances: BorrowerBalances,
    debt: nat,
    base: nat,
    full: nat,
    price: nat,
)
    requires
        is_way_to_sizes(terms, balances, debt, base, full, price),
    ensures
        unit(terms.debt_decimals) == pow(10, terms.debt_decimals as nat),
        unit(terms.collateral_decimals) == pow(10, terms.collateral_decimals as nat),
        unit(terms.debt_decimals) > 0,
        unit(terms.collateral_decimals) > 0,
        debt == terms.full_debt(balances),
        terms.collateral_price@ * unit(terms.collateral_decimals) > 0 ==> base
            == terms.base_collateral(balances) && full == terms.full_collateral(balances),
        terms.liquidation_bonus > 0 ==> price == terms.debt_unit_price(),
{
    lemma_pow_positive(10, terms.debt_decimals as nat);
    lemma_pow_positive(10, terms.collateral_decimals as nat);
    law_full_debt(terms, balances);
    let collateral_unit = unit(terms.collateral_decimals);
    let collateral_worth = terms.collateral_price@ * collateral_unit;
    let debt_worth = terms.debt_price@ * debt * unit(terms.debt_decimals);
    let bonus = terms.liquidation_bonus as int;
    if collateral_worth > 0 {
        lemma_quotient(debt_worth as int, collateral_worth as int, base as int);
    }
    if bonus > 0 {
        let whole = terms.debt_price@ * collateral_unit;
        let n = bonus / 2 + whole * 10000;
        assert((price + 1) * bonus == price * bonus + bonus) by (nonlinear_arith);
        lemma_quotient(n, bonus, price as int);
    }
}

/// A liquidation takes the collateral that the debt is worth, with the bonus, and repays the debt,
/// where the borrower has that much; otherwise it takes what the borrower has, and repays as many
/// parts of the debt as their price goes into the worth of that collateral.
pub proof fn law_sizes(
    terms: LiquidationTerms,
    balances: BorrowerBalances,
    debt: nat,
    base: nat,
    full: nat,
    price: nat,
)
    requires
        is_way_to_sizes(terms, balances, debt, base, full, price),
        terms.collateral_price@ > 0,
    ensures
        full <= balances.collateral@ ==> terms.collateral_to_liquidate(balances) == full
            && terms.debt_to_cover(balances) == debt,
        full > balances.collateral@ ==> terms.collateral_to_liquidate(balances)
            == balances.collateral@,
        full > balances.collateral@ && terms.liquidation_bonus > 0 && price > 0
            ==> terms.debt_to_cover(balances) * price <= terms.collateral_price@
            * balances.collateral@ * pow(10, terms.debt_decimals as nat) < (terms.debt_to_cover(
            balances,
        ) + 1) * price,
{
    lemma_way_to_sizes(terms, balances, debt, base, full, price);
    assert(terms.collateral_price@ * unit(terms.collateral_decimals) > 0) by (nonlinear_arith)
        requires
            terms.collateral_price@ > 0,
            unit(terms.collateral_decimals) > 0,
    ;
    if full > balances.collateral@ && terms.liquidation_bonus > 0 && price > 0 {
        lemma_quotient_bounds(terms.balance_worth(balances) as int, price as int);
    }
}

/// A liquidation can be sized exactly if no number on the way reaches 2 to the 256 and nothing is
/// divided by zero.
pub proof fn law_sizes_fit(
    terms: LiquidationTerms,
    balances: BorrowerBalances,
    debt: nat,
    base: nat,
    full: nat,
    price: nat,
)
    requires
        is_way_to_sizes(terms, balances, debt, base, full, price),
    ensures
        ({
            let limit = 0x1_0000_0000_0000_0000_0000_0000_0000_0000_0000_0000_0000_0000_0000_0000_0000_0000int;
            let debt_unit = pow(10, terms.debt_decimals as nat);
            let collateral_unit = pow(10, terms.collateral_decimals as nat);
            let total = balances.stable_debt@ + balances.variable_debt@;
            let parts: int = if terms.health_factor@ > 0x95_0000_0000_0000_0000nat {
                5000
            } else {
                10000
            };
            terms.sizes_fit(balances) <==> {
                &&& debt_unit < limit
                &&& collateral_unit < limit
                &&& total * parts < limit
                &&& terms.debt_price@ * debt < limit
                &&& terms.debt_price@ * debt * debt_unit < limit
                &&& 0 < terms.collateral_price@ * collateral_unit < limit
                &&& 5000 + base * terms.liquidation_bonus < limit
                &&& full > balances.collateral@ ==> {
                    &&& terms.collateral_price@ * balances.collateral@ < limit
                    &&& terms.collateral_price@ * balances.collateral@ * debt_unit < limit
                    &&& terms.debt_price@ * collateral_unit < limit
                    &&& terms.liquidation_bonus > 0
                    &&& terms.liquidation_bonus / 2 + terms.debt_price@ * collateral_unit * 10000
                        < limit
                    &&& price > 0
                }
            }
        }),
{
    lemma_way_to_sizes(terms, balances, debt, base, full, price);
    law_close_factor(terms.health_factor@);
    let total = balances.stable_debt@ + balances.variable_debt@;
    let parts = close_factor_of(terms.health_factor@) as int;
    assert(total <= total * parts) by (nonlinear_arith)
        requires
            0 <= total,
            1 <= parts,
    ;
    assert(terms.collateral_price@ * unit(terms.collateral_decimals) >= 0) by (nonlinear_arith)
        requires
            terms.collateral_price@ >= 0,
            unit(terms.collateral_decimals) > 0,
    ;
}

/// What is repaid where the borrower is short of collateral, counted in whole units at its price,
/// is worth the borrower's collateral, counted in whole units at its price, times the bonus in
/// basis points, up to the rounding of the price and of the quotient.
pub proof fn law_short_debt_is_worth_collateral(terms: LiquidationTerms, balances: BorrowerBalances)
    requires
        terms.is_short(balances),
        0 < terms.liquidation_bonus,
        terms.liquidation_bonus <= terms.liquidation_bonus / 2 + terms.debt_price@ * pow(
            10,
            terms.collateral_decimals as nat,
        ) * 10000,
    ensures
        ({
            let covered = terms.debt_to_cover(balances);
            let bonus = terms.liquidation_bonus as int;
            let price = terms.debt_price@ * pow(10, terms.collateral_decimals as nat);
            let worth = terms.collateral_price@ * balances.collateral@ * pow(
                10,
                terms.debt_decimals as nat,
            );
            &&& 2 * (covered * price * 10000 - worth * bonus) <= covered * bonus
            &&& 2 * (worth * bonus - covered * price * 10000) <= covered * bonus + bonus + 20000
                * price
        }),
{
    lemma_pow_positive(10, terms.debt_decimals as nat);
    lemma_pow_positive(10, terms.collateral_decimals as nat);
    let x = (terms.debt_price@ * unit(terms.collateral_decimals)) as nat;
    let b = terms.liquidation_bonus as int;
    let p = terms.debt_unit_price() as int;
    let w = terms.balance_worth(balances) as int;
    law_percent_div_rounds(x, terms.liquidation_bonus);
    assert(p > 0) by (nonlinear_arith)
        requires
            p == (b / 2 + x * 10000) / b,
            0 < b <= b / 2 + x * 10000,
    ;
    let d = terms.debt_to_cover(balances) as int;
    lemma_quotient_bounds(w, p);
    lemma_worth_of_quotient(d, p, w, x as int, b);
}

proof fn lemma_worth_of_quotient(d: int, p: int, w: int, x: int, b: int)
    requires
        0 <= d,
        0 < b,
        d * p <= w < (d + 1) * p,
        -b < 2 * (p * b - x * 10000) <= b,
    ensures
        2 * (d * x * 10000 - w * b) <= d * b,
        2 * (w * b - d * x * 10000) <= d * b + b + 20000 * x,
{
    assert(d * p * b <= w * b <= (d + 1) * p * b) by (nonlinear_arith)
        requires
            0 < b,
            d * p <= w < (d + 1) * p,
    ;
    assert((d + 1) * p * b == d * (p * b) + p * b && d * p * b == d * (p * b)) by (nonlinear_arith);
    let e = p * b - x * 10000;
    assert(d * (p * b) == d * x * 10000 + d * e) by (nonlinear_arith)
        requires
            e == p * b - x * 10000,
    ;
    assert(-(d * b) <= 2 * (d * e) <= d * b) by (nonlinear_arith)
        requires
            0 <= d,
            -b < 2 * e <= b,
    ;
}

/// What is taken where the borrower is not short of collateral is worth the debt that is repaid,
/// times the bonus in basis points, up to the rounding of the quotient and of the bonus. A
/// smallest part counts as many times its price as ten to the power of the token's decimals.
pub proof fn law_collateral_is_worth_debt(terms: LiquidationTerms, balances: BorrowerBalances)
    requires
        terms.collateral_price@ > 0,
        !terms.is_short(balances),
    ensures
        ({
            let taken = terms.collateral_to_liquidate(balances);
            let bonus = terms.liquidation_bonus as int;
            let price = terms.collateral_price@ * pow(10, terms.collateral_decimals as nat);
            let worth = terms.debt_price@ * terms.debt_to_cover(balances) * pow(
                10,
                terms.debt_decimals as nat,
            );
            (10000 * taken - 5000) * price <= worth * bonus <= (10000 * taken + 5000 + bonus)
                * price
        }),
{
    lemma_pow_positive(10, terms.debt_decimals as nat);
    lemma_pow_positive(10, terms.collateral_decimals as nat);
    let price = terms.collateral_price@ * unit(terms.collateral_decimals);
    assert(price > 0) by (nonlinear_arith)
        requires
            price == terms.collateral_price@ * unit(terms.collateral_decimals),
            terms.collateral_price@ > 0,
            unit(terms.collateral_decimals) > 0,
    ;
    let worth = (terms.debt_price@ * terms.full_debt(balances) * unit(terms.debt_decimals)) as int;
    let base = terms.base_collateral(balances);
    law_percent_mul_rounds(base, terms.liquidation_bonus);
    lemma_quotient_bounds(worth, price as int);
    let taken = terms.full_collateral(balances) as int;
    let bonus = terms.liquidation_bonus as int;
    assert((10000 * taken - 5000) * price <= worth * bonus <= (10000 * taken + 5000 + bonus)
        * price) by (nonlinear_arith)
        requires
            0 <= bonus,
            0 < price,
            base * price <= worth < (base + 1) * price,
            -5000 < 10000 * taken - base * bonus <= 5000,
    ;
}

/// The terms of a liquidation hold the prices and settings of the candidate's own tokens. Without
/// them, what is missing is named: a price before a setting, and the collateral before the debt.
pub proof fn law_terms(
    strategy: AaveStrategy,
    pool_state: PoolState,
    terms: Result<LiquidationTerms, StrategyError>,
    candidate: Candidate,
)
    requires
        terms_of(strategy, pool_state, terms, candidate),
    ensures
        terms is Ok <==> {
            &&& pool_state.prices@.contains_key(candidate.collateral)
            &&& pool_state.prices@.contains_key(candidate.debt)
            &&& strategy.tokens@.contains_key(candidate.collateral)
            &&& strategy.tokens@.contains_key(candidate.debt)
        },
        terms matches Ok(t) ==> {
            &&& t.borrower == candidate.borrower
            &&& t.health_factor == candidate.health_factor
            &&& t.collateral == candidate.collateral
            &&& t.debt == candidate.debt
            &&& t.collateral_price@ == pool_state.prices@[t.collateral]
            &&& t.debt_price@ == pool_state.prices@[t.debt]
            &&& t.collateral_decimals == strategy.tokens@[t.collateral].decimals
            &&& t.debt_decimals == strategy.tokens@[t.debt].decimals
            &&& t.liquidation_bonus == strategy.tokens@[t.collateral].liquidation_bonus
            &&& t.a_token == strategy.tokens@[t.collateral].a_address
        },
        terms matches Err(error) ==> match error {
            StrategyError::NoCollateralPrice => !pool_state.prices@.contains_key(
                candidate.collateral,
            ),
            StrategyError::NoDebtPrice => pool_state.prices@.contains_key(candidate.collateral)
                && !pool_state.prices@.contains_key(candidate.debt),
            StrategyError::NoCollateralConfig => pool_state.prices@.contains_key(
                candidate.collateral,
            ) && pool_state.prices@.contains_key(candidate.debt)
                && !strategy.tokens@.contains_key(candidate.collateral),
            StrategyError::NoDebtConfig => pool_state.prices@.contains_key(candidate.collateral)
                && pool_state.prices@.contains_key(candidate.debt)
                && strategy.tokens@.contains_key(candidate.collateral)
                && !strategy.tokens@.contains_key(candidate.debt),
            _ => false,
        },
{
}

/// The price of an asset in ether, with 8 decimals, goes as often into its price as the price of
/// ether does: their quotient, rounded down. Where a price is missing, its asset is named, the
/// asset itself first.
pub proof fn law_asset_price(asset: Address, weth: Address, prices: Map<Address, nat>)
    ensures
        asset == weth ==> asset_price_of(asset, weth, prices) == Ok::<nat, StrategyError>(
            100000000nat,
        ),
        asset != weth && prices.contains_key(asset) && prices.contains_key(weth)
            ==> asset_price_of(asset, weth, prices) is Ok,
        asset != weth && prices.contains_key(asset) && prices.contains_key(weth) && prices[weth] > 0
            ==> asset_price_of(asset, weth, prices)->Ok_0 * prices[weth] <= prices[asset]
            * 100000000 < (asset_price_of(asset, weth, prices)->Ok_0 + 1) * prices[weth],
        asset != weth && !prices.contains_key(asset) ==> asset_price_of(asset, weth, prices)
            == Err::<nat, StrategyError>(StrategyError::NoAssetPrice(asset)),
        asset != weth && prices.contains_key(asset) && !prices.contains_key(weth)
            ==> asset_price_of(asset, weth, prices) == Err::<nat, StrategyError>(
            StrategyError::NoAssetPrice(weth),
        ),
        asset_price_fits(asset, weth, prices) <==> {
            ||| asset == weth
            ||| !prices.contains_key(asset)
            ||| !prices.contains_key(weth)
            ||| prices[weth] > 0 && prices[asset] * 100000000 < two_256()
        },
{
    if asset != weth && prices.contains_key(asset) && prices.contains_key(weth) && prices[weth] > 0 {
        lemma_quotient_bounds((prices[asset] * 100000000) as int, prices[weth] as int);
    }
}

/// An amount is worth as many whole ether parts as its price times the amount holds, at every
/// price; and a loss is worth as little as a gain of the same size is worth much.
pub proof fn law_worth_is_exact(gain: int, price: nat)
    ensures
        gain >= 0 ==> worth(gain, price) * 100000000 <= gain * price < (worth(gain, price) + 1)
            * 100000000,
        worth(-gain, price) == -worth(gain, price),
{
    assert(gain >= 0 ==> gain * price >= 0) by (nonlinear_arith);
    assert(gain <= 0 ==> gain * price <= 0) by (nonlinear_arith);
    assert((-gain) * price == -(gain * price)) by (nonlinear_arith);
}

/// The profit of a liquidation is what its gain is worth at the price of the collateral in ether,
/// with 8 decimals, rounded toward zero. A price of 2 to the 255 or more is too large, and a
/// missing price stays missing.
pub proof fn law_profit(gain: int, collateral: Address, weth: Address, prices: Map<Address, nat>)
    ensures
        match asset_price_of(collateral, weth, prices) {
            Ok(price) if price < two_255() => {
                &&& profit_of(gain, collateral, weth, prices) matches Ok(profit)
                &&& gain >= 0 ==> profit * 100000000 <= gain * price < (profit + 1) * 100000000
                &&& gain <= 0 ==> (profit - 1) * 100000000 < gain * price <= profit * 100000000
            },
            Ok(_) => profit_of(gain, collateral, weth, prices) == Err::<int, StrategyError>(
                StrategyError::PriceTooLarge,
            ),
            Err(error) => profit_of(gain, collateral, weth, prices) == Err::<int, StrategyError>(
                error,
            ),
        },
        profit_fits(gain, collateral, weth, prices) <==> asset_price_fits(collateral, weth, prices)
            && match asset_price_of(collateral, weth, prices) {
            Ok(price) => price >= two_255() || -two_255() <= gain * price < two_255(),
            Err(_) => true,
        },
{
    match asset_price_of(collateral, weth, prices) {
        Ok(price) => {
            law_worth_is_exact(gain, price);
            law_worth_is_exact(-gain, price);
            assert((-gain) * price == -(gain * price)) by (nonlinear_arith);
        },
        Err(_) => {},
    }
}

/// The profit of collateral that is not wrapped ether in terms of the reported prices: what is
/// gained at the collateral's price is the profit at the price of ether, up to the rounding of the
/// price in ether and of the profit.
pub proof fn law_profit_at_prices(
    gain: int,
    collateral: Address,
    weth: Address,
    prices: Map<Address, nat>,
)
    requires
        gain >= 0,
        collateral != weth,
        prices.contains_key(collateral),
        prices.contains_key(weth),
        prices[weth] > 0,
        profit_of(gain, collateral, weth, prices) is Ok,
    ensures
        ({
            let profit = profit_of(gain, collateral, weth, prices)->Ok_0;
            &&& profit * prices[weth] <= gain * prices[collateral]
            &&& gain * prices[collateral] * 100000000 <= (profit + 1) * prices[weth] * 100000000
                + gain * prices[weth]
        }),
{
    law_asset_price(collateral, weth, prices);
    law_profit(gain, collateral, weth, prices);
    let price = asset_price_of(collateral, weth, prices)->Ok_0 as int;
    let profit = profit_of(gain, collateral, weth, prices)->Ok_0;
    let w = prices[weth] as int;
    let c = prices[collateral] as int;
    assert(profit * 100000000 * w <= gain * price * w < (profit + 1) * 100000000 * w)
        by (nonlinear_arith)
        requires
            0 < w,
            profit * 100000000 <= gain * price < (profit + 1) * 100000000,
    ;
    assert(gain * price * w <= gain * (c * 100000000) <= gain * price * w + gain * w)
        by (nonlinear_arith)
        requires
            0 <= gain,
            price * w <= c * 100000000 < (price + 1) * w,
    ;
    assert(gain * (c * 100000000) == gain * c * 100000000 && profit * 100000000 * w == profit * w
        * 100000000 && (profit + 1) * 100000000 * w == (profit + 1) * w * 100000000)
        by (nonlinear_arith);
}

} // verus!

//! What the strategy knows: the pool's tokens and borrowers, and how far the chain was read.
use vstd::prelude::*;

use crate::address::{address_bytes, is_address_text, Address};
use crate::collections::{AddressMap, AddressSet};
use crate::config::{get_deployment_config, is_config_of, Deployment, DeploymentConfig};
use crate::numbers::U256;

verus! {

/// Settings of an operator.
#[derive(Clone, Copy, Debug)]
pub struct Config {
    /// Share of the profit to bid in gas, in percent.
    pub bid_percentage: u64,
    pub chain_id: u64,
}

/// An account with debt in the pool, and the tokens that it has supplied and borrowed.
#[derive(Debug)]
pub struct Borrower {
    pub address: Address,
    pub collateral: AddressSet,
    pub debt: AddressSet,
}

/// A borrower, with sets for what it has supplied and borrowed.
pub struct BorrowerView {
    pub address: Address,
    pub collateral: Set<Address>,
    pub debt: Set<Address>,
}

impl View for Borrower {
    type V = BorrowerView;

    open spec fn view(&self) -> BorrowerView {
        BorrowerView {
            address: self.address,
            collateral: self.collateral@,
            debt: self.debt@,
        }
    }
}

impl Clone for Borrower {
    fn clone(&self) -> (r: Borrower)
        ensures
            r@ == self@,
    {
        Borrower {
            address: self.address,
            collateral: self.collateral.clone(),
            debt: self.debt.clone(),
        }
    }
}

/// Copies a map of borrowers.
pub(crate) fn copy_borrowers(borrowers: &AddressMap<Borrower>) -> (r: AddressMap<Borrower>)
    ensures
        r@ == borrowers@,
        r.order() == borrowers.order(),
{
    let r = borrowers.clone();
    assert forall|a: Address| borrowers@.contains_key(a) implies #[trigger] r@[a]
        == borrowers@[a] by {
        let i = borrowers.order().index_of(a);
        assert(cloned::<Borrower>(borrowers.value_at(i), r.value_at(i)));
    }
    assert(r@ =~= borrowers@);
    r
}

/// Whether every borrower is known under its own address.
pub open spec fn borrowers_keyed(borrowers: Map<Address, BorrowerView>) -> bool {
    forall|a: Address| #[trigger] borrowers.contains_key(a) ==> borrowers[a].address == a
}

/// What is kept of the borrowers between runs.
#[derive(Debug)]
pub struct StateCache {
    pub last_block_number: u64,
    pub borrowers: AddressMap<Borrower>,
}

/// Settings of a token of the pool.
#[derive(Clone, Copy, Debug)]
pub struct TokenConfig {
    pub address: Address,
    pub a_address: Address,
    pub decimals: u64,
    pub ltv: u64,
    pub liquidation_threshold: u64,
    pub liquidation_bonus: u64,
    pub reserve_factor: u64,
    pub protocol_fee: u64,
}

impl View for TokenConfig {
    type V = TokenConfig;

    open spec fn view(&self) -> TokenConfig {
        *self
    }
}

/// What the pool reports of a token.
#[derive(Clone, Copy, Debug)]
pub struct ReserveConfiguration {
    pub decimals: U256,
    pub ltv: U256,
    pub liquidation_threshold: U256,
    pub liquidation_bonus: U256,
    pub reserve_factor: U256,
}

/// Whether every token is known under its own address.
pub open spec fn tokens_keyed(tokens: Map<Address, TokenConfig>) -> bool {
    forall|a: Address| #[trigger] tokens.contains_key(a) ==> tokens[a].address == a
}

/// The least significant word of a number.
pub open spec fn low_word(n: nat) -> u64 {
    (n % 0x1_0000_0000_0000_0000) as u64
}

/// The settings of a token as the pool reports them, each number cut to its lowest word.
pub open spec fn token_config_of(
    token: Address,
    a_token: Address,
    reserve: ReserveConfiguration,
    protocol_fee: U256,
) -> TokenConfig {
    TokenConfig {
        address: token,
        a_address: a_token,
        decimals: low_word(reserve.decimals@),
        ltv: low_word(reserve.ltv@),
        liquidation_threshold: low_word(reserve.liquidation_threshold@),
        liquidation_bonus: low_word(reserve.liquidation_bonus@),
        reserve_factor: low_word(reserve.reserve_factor@),
        protocol_fee: low_word(protocol_fee@),
    }
}

/// The liquidation strategy.
#[derive(Debug)]
pub struct AaveStrategy {
    /// Amount of profits to bid in gas.
    pub bid_percentage: u64,
    pub last_block_number: u64,
    pub borrowers: AddressMap<Borrower>,
    pub tokens: AddressMap<TokenConfig>,
    pub chain_id: u64,
    pub config: DeploymentConfig,
    pub liquidator: Address,
}

/// Whether two strategies differ in nothing but what they know of the borrowers.
pub open spec fn same_setup(a: AaveStrategy, b: AaveStrategy) -> bool {
    &&& a.bid_percentage == b.bid_percentage
    &&& a.tokens == b.tokens
    &&& a.chain_id == b.chain_id
    &&& a.config == b.config
    &&& a.liquidator == b.liquidator
}

/// Whether a cache holds what a strategy knows of the borrowers up to a block.
pub open spec fn is_cache_of(cache: StateCache, strategy: AaveStrategy, block_number: u64) -> bool {
    &&& cache.last_block_number == block_number
    &&& cache.borrowers@ == strategy.borrowers@
    &&& cache.borrowers.order() == strategy.borrowers.order()
}

/// Whether a strategy has taken up what a cache holds, or has started at the block in which the
/// pool was created where there is no cache.
pub open spec fn takes_up(
    before: AaveStrategy,
    cache: Option<StateCache>,
    after: AaveStrategy,
) -> bool {
    &&& same_setup(before, after)
    &&& match cache {
        Some(c) => after.last_block_number == c.last_block_number && after.borrowers == c.borrowers,
        None => after.last_block_number == before.config.creation_block && after.borrowers
            == before.borrowers,
    }
}

/// Pairs of two lists, up to the end of the shorter one.
pub open spec fn pairs_of<A, B>(a: Seq<A>, b: Seq<B>) -> Seq<(A, B)> {
    Seq::new(
        if a.len() <= b.len() {
            a.len()
        } else {
            b.len()
        },
        |i: int| (a[i], b[i]),
    )
}

/// Pairs each token of the pool with its interest-bearing token.
pub fn reserve_pairs(tokens: &Vec<Address>, a_tokens: &Vec<Address>) -> (r: Vec<(Address, Address)>)
    ensures
        r@ == pairs_of(tokens@, a_tokens@),
{
    let mut pairs: Vec<(Address, Address)> = Vec::new();
    let mut i: usize = 0;
    while i < tokens.len() && i < a_tokens.len()
        invariant
            i <= tokens@.len(),
            i <= a_tokens@.len(),
            pairs@ == pairs_of(tokens@, a_tokens@).take(i as int),
        decreases tokens@.len() - i,
    {
        pairs.push((tokens[i], a_tokens[i]));
        i = i + 1;
        assert(pairs@ =~= pairs_of(tokens@, a_tokens@).take(i as int));
    }
    pairs
}

impl AaveStrategy {
    /// A strategy that knows no token and no borrower yet.
    pub fn new(config: Config, deployment: Deployment, liquidator_address: String) -> (r: Self)
        requires
            is_address_text(liquidator_address@),
        ensures
            r.bid_percentage == config.bid_percentage,
            r.last_block_number == 0,
            r.borrowers@ == Map::<Address, BorrowerView>::empty(),
            r.tokens@ == Map::<Address, TokenConfig>::empty(),
            r.chain_id == config.chain_id,
            is_config_of(r.config, deployment),
            r.liquidator.bytes@ == address_bytes(liquidator_address@),
    {
        AaveStrategy {
            bid_percentage: config.bid_percentage,
            last_block_number: 0,
            borrowers: AddressMap::new(),
            tokens: AddressMap::new(),
            chain_id: config.chain_id,
            config: get_deployment_config(deployment),
            liquidator: Address::parse(liquidator_address.as_str()).unwrap(),
        }
    }

    /// Takes up what a cache holds; without one, starts at the block in which the pool was
    /// created.
    pub fn load_cache(&mut self, cache: Option<StateCache>)
        ensures
            takes_up(*old(self), cache, *final(self)),
    {
        match cache {
            Some(c) => {
                self.last_block_number = c.last_block_number;
                self.borrowers = c.borrowers;
            },
            None => {
                self.last_block_number = self.config.creation_block;
            },
        }
    }

    /// What to keep of the borrowers as they are known up to a block.
    pub fn cache_at(&self, block_number: u64) -> (r: StateCache)
        ensures
            is_cache_of(r, *self, block_number),
    {
        StateCache { last_block_number: block_number, borrowers: copy_borrowers(&self.borrowers) }
    }

    /// Takes up the settings of a token, in place of those known before.
    pub fn update_token_config(
        &mut self,
        token: Address,
        a_token: Address,
        reserve: &ReserveConfiguration,
        protocol_fee: &U256,
    )
        ensures
            final(self).tokens@ == old(self).tokens@.insert(
                token,
                token_config_of(token, a_token, *reserve, *protocol_fee),
            ),
            final(self).bid_percentage == old(self).bid_percentage,
            final(self).last_block_number == old(self).last_block_number,
            final(self).borrowers == old(self).borrowers,
            final(self).chain_id == old(self).chain_id,
            final(self).config == old(self).config,
            final(self).liquidator == old(self).liquidator,
    {
        let config = TokenConfig {
            address: token,
            a_address: a_token,
            decimals: reserve.decimals.low_u64(),
            ltv: reserve.ltv.low_u64(),
            liquidation_threshold: reserve.liquidation_threshold.low_u64(),
            liquidation_bonus: reserve.liquidation_bonus.low_u64(),
            reserve_factor: reserve.reserve_factor.low_u64(),
            protocol_fee: protocol_fee.low_u64(),
        };
        self.tokens.insert(token, config);
    }
}

/// A cache gives back what was kept in it: a strategy that takes it up knows the borrowers of
/// the strategy that it was made from, and goes on from the block that it was made for.
pub proof fn law_cache_restores(
    kept: AaveStrategy,
    cache: StateCache,
    block_number: u64,
    before: AaveStrategy,
    after: AaveStrategy,
)
    requires
        is_cache_of(cache, kept, block_number),
        takes_up(before, Some(cache), after),
    ensures
        after.borrowers@ == kept.borrowers@,
        after.last_block_number == block_number,
{
}

/// Taking up the settings of a token keeps every token known under its own address.
pub proof fn law_tokens_stay_keyed(
    tokens: Map<Address, TokenConfig>,
    token: Address,
    a_token: Address,
    reserve: ReserveConfiguration,
    protocol_fee: U256,
)
    requires
        tokens_keyed(tokens),
    ensures
        tokens_keyed(tokens.insert(token, token_config_of(token, a_token, reserve, protocol_fee))),
{
}

/// The tokens after the settings of the first `n` pairs of a token and its interest-bearing token
/// were taken up, one after the other.
pub open spec fn tokens_after(
    tokens: Map<Address, TokenConfig>,
    pairs: Seq<(Address, Address)>,
    reserves: Seq<ReserveConfiguration>,
    protocol_fees: Seq<U256>,
    n: nat,
) -> Map<Address, TokenConfig>
    decreases n,
{
    if n == 0 {
        tokens
    } else {
        let i = n - 1;
        tokens_after(tokens, pairs, reserves, protocol_fees, i as nat).insert(
            pairs[i].0,
            token_config_of(pairs[i].0, pairs[i].1, reserves[i], protocol_fees[i]),
        )
    }
}

/// Taking up the settings of several tokens keeps every token known under its own address and
/// loses none. A token among them has the settings that were last taken up for it, and every other
/// token keeps those that it had.
pub proof fn law_token_settings_are_taken_up(
    tokens: Map<Address, TokenConfig>,
    pairs: Seq<(Address, Address)>,
    reserves: Seq<ReserveConfiguration>,
    protocol_fees: Seq<U256>,
    n: nat,
)
    requires
        n <= pairs.len(),
        n <= reserves.len(),
        n <= protocol_fees.len(),
    ensures
        ({
            let after = tokens_after(tokens, pairs, reserves, protocol_fees, n);
            &&& tokens_keyed(tokens) ==> tokens_keyed(after)
            &&& forall|a: Address| #[trigger]
                after.contains_key(a) <==> tokens.contains_key(a) || exists|i: int|
                    0 <= i < n && (#[trigger] pairs[i]).0 == a
            &&& forall|i: int|
                0 <= i < n && (forall|j: int| i < j < n ==> (#[trigger] pairs[j]).0 != pairs[i].0)
                    ==> after[(#[trigger] pairs[i]).0] == token_config_of(
                    pairs[i].0,
                    pairs[i].1,
                    reserves[i],
                    protocol_fees[i],
                )
            &&& forall|a: Address|
                tokens.contains_key(a) && (forall|i: int| 0 <= i < n ==> (#[trigger] pairs[i]).0 != a)
                    ==> #[trigger] after[a] == tokens[a]
        }),
    decreases n,
{
    if n > 0 {
        let m = (n - 1) as nat;
        law_token_settings_are_taken_up(tokens, pairs, reserves, protocol_fees, m);
        let before = tokens_after(tokens, pairs, reserves, protocol_fees, m);
        let after = tokens_after(tokens, pairs, reserves, protocol_fees, n);
        assert forall|a: Address| #[trigger]
            after.contains_key(a) <==> tokens.contains_key(a) || exists|i: int|
                0 <= i < n && (#[trigger] pairs[i]).0 == a by {
            assert(after.contains_key(a) <==> before.contains_key(a) || pairs[m as int].0 == a);
        }
        assert forall|i: int|
            0 <= i < n && (forall|j: int| i < j < n ==> (#[trigger] pairs[j]).0
                != pairs[i].0) implies after[(#[trigger] pairs[i]).0] == token_config_of(
            pairs[i].0,
            pairs[i].1,
            reserves[i],
            protocol_fees[i],
        ) by {
            if i < m {
                assert(pairs[m as int].0 != pairs[i].0);
                assert(after[pairs[i].0] == before[pairs[i].0]);
            }
        }
        assert forall|a: Address|
            tokens.contains_key(a) && (forall|i: int|
                0 <= i < n ==> (#[trigger] pairs[i]).0 != a) implies #[trigger] after[a]
            == tokens[a] by {
            assert(pairs[m as int].0 != a);
            assert(before[a] == tokens[a]);
        }
    }
}

/// A setting that the pool reports is stored as it was reported where a word holds it, each one in
/// its own place, and otherwise as what is left of it after whole multiples of 2 to the 64.
pub proof fn law_settings_are_stored_as_reported(
    token: Address,
    a_token: Address,
    reserve: ReserveConfiguration,
    protocol_fee: U256,
)
    ensures
        ({
            let stored = token_config_of(token, a_token, reserve, protocol_fee);
            &&& stored.address == token
            &&& stored.a_address == a_token
            &&& is_stored(stored.decimals, reserve.decimals@)
            &&& is_stored(stored.ltv, reserve.ltv@)
            &&& is_stored(stored.liquidation_threshold, reserve.liquidation_threshold@)
            &&& is_stored(stored.liquidation_bonus, reserve.liquidation_bonus@)
            &&& is_stored(stored.reserve_factor, reserve.reserve_factor@)
            &&& is_stored(stored.protocol_fee, protocol_fee@)
        }),
{
}

/// Whether a word stands for a reported number: it is the number, if that is below 2 to the 64, and
/// differs from it by a multiple of 2 to the 64 in any case.
pub open spec fn is_stored(stored: u64, reported: nat) -> bool {
    &&& reported < 0x1_0000_0000_0000_0000 ==> stored == reported
    &&& (reported - stored) % 0x1_0000_0000_0000_0000 == 0
}

/// Two lists are paired place by place: there are as many pairs as the shorter list is long.
pub proof fn law_pairs<A, B>(a: Seq<A>, b: Seq<B>, i: int)
    ensures
        pairs_of(a, b).len() <= a.len(),
        pairs_of(a, b).len() <= b.len(),
        pairs_of(a, b).len() == a.len() || pairs_of(a, b).len() == b.len(),
        0 <= i < pairs_of(a, b).len() ==> pairs_of(a, b)[i].0 == a[i] && pairs_of(a, b)[i].1
            == b[i],
{
}

/// A cache holds the block that it was made for, and every borrower of the strategy that it was
/// made from with the same debt and collateral, and no other.
pub proof fn law_cache_holds_borrowers(
    cache: StateCache,
    strategy: AaveStrategy,
    block_number: u64,
    a: Address,
)
    requires
        is_cache_of(cache, strategy, block_number),
    ensures
        cache.last_block_number == block_number,
        cache.borrowers@.contains_key(a) <==> strategy.borrowers@.contains_key(a),
        strategy.borrowers@.contains_key(a) ==> cache.borrowers@[a] == strategy.borrowers@[a],
{
}

/// Taking up a cache, or finding none, leaves the settings and the tokens alone. A strategy that
/// finds none keeps its borrowers and starts at the block in which the pool was created; one that
/// finds a cache has the cache's borrowers and goes on from the cache's block.
pub proof fn law_load_cache(
    before: AaveStrategy,
    cache: Option<StateCache>,
    after: AaveStrategy,
)
    requires
        takes_up(before, cache, after),
    ensures
        after.bid_percentage == before.bid_percentage,
        after.tokens == before.tokens,
        after.chain_id == before.chain_id,
        after.config == before.config,
        after.liquidator == before.liquidator,
        cache is None ==> after.borrowers == before.borrowers && after.last_block_number
            == before.config.creation_block,
        cache matches Some(c) ==> after.borrowers == c.borrowers && after.last_block_number
            == c.last_block_number,
{
}

/// What is known of a borrower is its address, what it has supplied and what it has borrowed.
pub proof fn law_borrower_view(borrower: Borrower, token: Address)
    ensures
        borrower@.address == borrower.address,
        borrower@.collateral.contains(token) <==> borrower.collateral.order().contains(token),
        borrower@.debt.contains(token) <==> borrower.debt.order().contains(token),
{
}

} // verus!

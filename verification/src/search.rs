//! The search for the best liquidation.
use vstd::prelude::*;

use crate::address::Address;
use crate::collections::AddressMap;
use crate::liquidation::{Candidate, LiquidationOpportunity, StrategyError};
use crate::numbers::{two_255, I256, U256};
use crate::strategy::{borrowers_keyed, pairs_of, AaveStrategy, Borrower, BorrowerView};
use crate::underwater::{
    accounts_of, found_in, is_sorted, is_stable_sort_of, law_accounts_are_exact,
    law_underwater_is_exact, AccountReply,
};

verus! {

/// One token of collateral against each token of debt, but not against itself.
pub open spec fn pairs_for_collateral(
    account: (Address, U256),
    collateral: Address,
    debts: Seq<Address>,
) -> Seq<Candidate>
    decreases debts.len(),
{
    if debts.len() == 0 {
        Seq::empty()
    } else {
        let earlier = pairs_for_collateral(account, collateral, debts.drop_last());
        if collateral != debts.last() {
            earlier.push(
                Candidate {
                    borrower: account.0,
                    health_factor: account.1,
                    collateral,
                    debt: debts.last(),
                },
            )
        } else {
            earlier
        }
    }
}

/// Each token of collateral against each token of debt, but not against itself.
pub open spec fn pairs_for_borrower(
    account: (Address, U256),
    collaterals: Seq<Address>,
    debts: Seq<Address>,
) -> Seq<Candidate>
    decreases collaterals.len(),
{
    if collaterals.len() == 0 {
        Seq::empty()
    } else {
        pairs_for_borrower(account, collaterals.drop_last(), debts) + pairs_for_collateral(
            account,
            collaterals.last(),
            debts,
        )
    }
}

/// The borrower that is known under an address.
pub open spec fn borrower_at(borrowers: AddressMap<Borrower>, address: Address) -> Borrower {
    borrowers.value_at(borrowers.order().index_of(address))
}

/// The liquidations to look into for underwater borrowers, one borrower after the other.
pub open spec fn candidates_of(
    borrowers: AddressMap<Borrower>,
    underwater: Seq<(Address, U256)>,
) -> Seq<Candidate>
    decreases underwater.len(),
{
    if underwater.len() == 0 {
        Seq::empty()
    } else {
        let borrower = borrower_at(borrowers, underwater.last().0);
        candidates_of(borrowers, underwater.drop_last()) + pairs_for_borrower(
            underwater.last(),
            borrower.collateral.order(),
            borrower.debt.order(),
        )
    }
}

/// Whether every underwater borrower is known.
pub open spec fn all_known(
    borrowers: AddressMap<Borrower>,
    underwater: Seq<(Address, U256)>,
) -> bool {
    forall|i: int| 0 <= i < underwater.len() ==> borrowers@.contains_key((#[trigger] underwater[i]).0)
}

/// Adds the pairs of one token of collateral.
fn add_pairs_for_collateral(
    candidates: &mut Vec<Candidate>,
    account: (Address, U256),
    collateral: Address,
    debts: &Vec<Address>,
)
    ensures
        final(candidates)@ == old(candidates)@ + pairs_for_collateral(account, collateral, debts@),
{
    let ghost before = candidates@;
    let mut i: usize = 0;
    assert(before + pairs_for_collateral(account, collateral, debts@.take(0)) =~= before);
    while i < debts.len()
        invariant
            i <= debts@.len(),
            candidates@ == before + pairs_for_collateral(
                account,
                collateral,
                debts@.take(i as int),
            ),
        decreases debts@.len() - i,
    {
        let debt = debts[i];
        assert(debts@.take(i + 1).drop_last() =~= debts@.take(i as int));
        if collateral != debt {
            candidates.push(
                Candidate { borrower: account.0, health_factor: account.1, collateral, debt },
            );
        }
        i = i + 1;
        assert(candidates@ =~= before + pairs_for_collateral(
            account,
            collateral,
            debts@.take(i as int),
        ));
    }
    assert(debts@.take(i as int) =~= debts@);
}

impl AaveStrategy {
    /// The liquidations to look into: for each underwater borrower, each token of its collateral
    /// against each other token of its debt.
    pub fn liquidation_candidates(&self, underwater: &Vec<(Address, U256)>) -> (r: Result<
        Vec<Candidate>,
        StrategyError,
    >)
        ensures
            underwater@.len() == 0 <==> r == Err::<Vec<Candidate>, StrategyError>(
                StrategyError::NoUnderwaterBorrowers,
            ),
            !all_known(self.borrowers, underwater@) <==> r == Err::<Vec<Candidate>, StrategyError>(
                StrategyError::BorrowerNotFound,
            ),
            r is Ok <==> underwater@.len() > 0 && all_known(self.borrowers, underwater@),
            r matches Ok(candidates) ==> candidates@ == candidates_of(self.borrowers, underwater@),
    {
        if underwater.len() == 0 {
            return Err(StrategyError::NoUnderwaterBorrowers);
        }
        let mut candidates: Vec<Candidate> = Vec::new();
        let mut n: usize = 0;
        while n < underwater.len()
            invariant
                n <= underwater@.len(),
                forall|i: int|
                    0 <= i < n ==> self.borrowers@.contains_key((#[trigger] underwater@[i]).0),
                candidates@ == candidates_of(self.borrowers, underwater@.take(n as int)),
            decreases underwater@.len() - n,
        {
            let account = underwater[n];
            let borrower = match self.borrowers.get(&account.0) {
                Some(borrower) => borrower,
                None => return Err(StrategyError::BorrowerNotFound),
            };
            let collaterals = borrower.collateral.items();
            let debts = borrower.debt.items();
            let ghost before = candidates@;
            let mut c: usize = 0;
            assert(before + pairs_for_borrower(account, collaterals@.take(0), debts@) =~= before);
            while c < collaterals.len()
                invariant
                    c <= collaterals@.len(),
                    candidates@ == before + pairs_for_borrower(
                        account,
                        collaterals@.take(c as int),
                        debts@,
                    ),
                decreases collaterals@.len() - c,
            {
                add_pairs_for_collateral(&mut candidates, account, collaterals[c], debts);
                assert(collaterals@.take(c + 1).drop_last() =~= collaterals@.take(c as int));
                c = c + 1;
                assert(candidates@ =~= before + pairs_for_borrower(
                    account,
                    collaterals@.take(c as int),
                    debts@,
                ));
            }
            assert(collaterals@.take(c as int) =~= collaterals@);
            assert(underwater@.take(n + 1).drop_last() =~= underwater@.take(n as int));
            n = n + 1;
        }
        assert(underwater@.take(n as int) =~= underwater@);
        Ok(candidates)
    }
}

/// Whether an outcome is a liquidation that brings more than the least profit there is.
pub open spec fn counts(outcome: Option<LiquidationOpportunity>) -> bool {
    outcome matches Some(op) && op.profit_eth@ > -two_255()
}

/// Whether the liquidation at a place is the best one: it brings more than those before it, and
/// no less than those behind it.
pub open spec fn is_best(outcomes: Seq<Option<LiquidationOpportunity>>, best: int) -> bool {
    &&& 0 <= best < outcomes.len()
    &&& counts(outcomes[best])
    &&& forall|i: int|
        0 <= i < best && (#[trigger] outcomes[i]) is Some ==> outcomes[i].unwrap().profit_eth@
            < outcomes[best].unwrap().profit_eth@
    &&& forall|i: int|
        best < i < outcomes.len() && (#[trigger] outcomes[i]) is Some
            ==> outcomes[i].unwrap().profit_eth@ <= outcomes[best].unwrap().profit_eth@
}

/// The liquidation with the highest profit, the first one among equals. Those that failed are
/// given as nothing.
pub fn get_best_liquidation_op(outcomes: &Vec<Option<LiquidationOpportunity>>) -> (r: Option<
    LiquidationOpportunity,
>)
    ensures
        r is None <==> forall|i: int| 0 <= i < outcomes@.len() ==> !counts(#[trigger] outcomes@[i]),
        r is Some ==> exists|best: int| #[trigger]
            is_best(outcomes@, best) && r == outcomes@[best],
{
    let mut best_bonus = I256::min_value();
    let mut best_op: Option<LiquidationOpportunity> = None;
    let ghost mut best: int = 0;
    let mut i: usize = 0;
    while i < outcomes.len()
        invariant
            i <= outcomes@.len(),
            best_op is None ==> best_bonus@ == -two_255(),
            best_op is None ==> forall|j: int| 0 <= j < i ==> !counts(#[trigger] outcomes@[j]),
            best_op is Some ==> is_best(outcomes@.take(i as int), best) && best_op
                == outcomes@[best] && best_bonus@ == best_op.unwrap().profit_eth@,
        decreases outcomes@.len() - i,
    {
        let ghost so_far = outcomes@.take(i as int);
        let ghost longer = outcomes@.take(i + 1);
        assert(forall|j: int| 0 <= j < i ==> #[trigger] longer[j] == so_far[j]);
        assert(longer[i as int] == outcomes@[i as int]);
        if let Some(op) = outcomes[i] {
            if best_bonus.less_than(&op.profit_eth) {
                proof {
                    if best_op is Some {
                        assert forall|j: int|
                            0 <= j < i && (#[trigger] longer[j]) is Some implies longer[j].unwrap().profit_eth@
                            < op.profit_eth@ by {
                            assert(so_far[j] == longer[j]);
                        }
                    } else {
                        assert forall|j: int|
                            0 <= j < i && (#[trigger] longer[j]) is Some implies longer[j].unwrap().profit_eth@
                            < op.profit_eth@ by {
                            assert(!counts(outcomes@[j]));
                        }
                    }
                    best = i as int;
                }
                best_bonus = op.profit_eth;
                best_op = Some(op);
            }
        }
        i = i + 1;
    }
    assert(outcomes@.take(i as int) =~= outcomes@);
    best_op
}

proof fn lemma_push_contains(candidates: Seq<Candidate>, pushed: Candidate, x: Candidate)
    ensures
        candidates.push(pushed).contains(x) <==> candidates.contains(x) || pushed == x,
{
    let longer = candidates.push(pushed);
    if candidates.contains(x) {
        assert(longer[candidates.index_of(x)] == x);
    }
    assert(longer[candidates.len() as int] == pushed);
}

proof fn lemma_add_contains(a: Seq<Candidate>, b: Seq<Candidate>, x: Candidate)
    ensures
        (a + b).contains(x) <==> a.contains(x) || b.contains(x),
{
    if a.contains(x) {
        assert((a + b)[a.index_of(x)] == x);
    }
    if b.contains(x) {
        assert((a + b)[a.len() + b.index_of(x)] == x);
    }
    if (a + b).contains(x) {
        let i = (a + b).index_of(x);
        if i < a.len() {
            assert(a[i] == x);
        } else {
            assert(b[i - a.len()] == x);
        }
    }
}

proof fn lemma_address_contains(s: Seq<Address>, a: Address)
    requires
        s.len() > 0,
    ensures
        s.contains(a) <==> s.drop_last().contains(a) || s.last() == a,
{
    if s.drop_last().contains(a) {
        assert(s[s.drop_last().index_of(a)] == a);
    }
    if s.contains(a) && s.last() != a {
        assert(s.drop_last()[s.index_of(a)] == a);
    }
}

proof fn lemma_pairs_for_collateral(
    account: (Address, U256),
    collateral: Address,
    debts: Seq<Address>,
    x: Candidate,
)
    ensures
        pairs_for_collateral(account, collateral, debts).contains(x) <==> {
            &&& x.borrower == account.0
            &&& x.health_factor == account.1
            &&& x.collateral == collateral
            &&& debts.contains(x.debt)
            &&& x.collateral != x.debt
        },
    decreases debts.len(),
{
    if debts.len() > 0 {
        lemma_pairs_for_collateral(account, collateral, debts.drop_last(), x);
        lemma_address_contains(debts, x.debt);
        let earlier = pairs_for_collateral(account, collateral, debts.drop_last());
        lemma_push_contains(
            earlier,
            Candidate {
                borrower: account.0,
                health_factor: account.1,
                collateral,
                debt: debts.last(),
            },
            x,
        );
    }
}

proof fn lemma_pairs_for_borrower(
    account: (Address, U256),
    collaterals: Seq<Address>,
    debts: Seq<Address>,
    x: Candidate,
)
    ensures
        pairs_for_borrower(account, collaterals, debts).contains(x) <==> {
            &&& x.borrower == account.0
            &&& x.health_factor == account.1
            &&& collaterals.contains(x.collateral)
            &&& debts.contains(x.debt)
            &&& x.collateral != x.debt
        },
    decreases collaterals.len(),
{
    if collaterals.len() > 0 {
        lemma_pairs_for_borrower(account, collaterals.drop_last(), debts, x);
        lemma_pairs_for_collateral(account, collaterals.last(), debts, x);
        lemma_address_contains(collaterals, x.collateral);
        lemma_add_contains(
            pairs_for_borrower(account, collaterals.drop_last(), debts),
            pairs_for_collateral(account, collaterals.last(), debts),
            x,
        );
    }
}

/// Whether a liquidation is one of a borrower's collateral against another token of its debt.
pub open spec fn is_candidate(
    borrowers: Map<Address, BorrowerView>,
    account: (Address, U256),
    x: Candidate,
) -> bool {
    &&& x.borrower == account.0
    &&& x.health_factor == account.1
    &&& borrowers[account.0].collateral.contains(x.collateral)
    &&& borrowers[account.0].debt.contains(x.debt)
    &&& x.collateral != x.debt
}

/// The liquidations to look into are exactly those of an underwater borrower's collateral against
/// another token of its debt.
pub proof fn law_candidates_are_exact(
    borrowers: AddressMap<Borrower>,
    underwater: Seq<(Address, U256)>,
    x: Candidate,
)
    requires
        all_known(borrowers, underwater),
    ensures
        candidates_of(borrowers, underwater).contains(x) <==> exists|i: int|
            0 <= i < underwater.len() && is_candidate(borrowers@, #[trigger] underwater[i], x),
    decreases underwater.len(),
{
    if underwater.len() > 0 {
        let earlier = underwater.drop_last();
        assert forall|i: int| 0 <= i < earlier.len() implies borrowers@.contains_key(
            (#[trigger] earlier[i]).0,
        ) by {
            assert(earlier[i] == underwater[i]);
        }
        law_candidates_are_exact(borrowers, earlier, x);
        let account = underwater.last();
        let borrower = borrower_at(borrowers, account.0);
        assert(borrowers@.contains_key(underwater[underwater.len() - 1].0));
        assert(borrower@ == borrowers@[account.0]);
        let pairs = pairs_for_borrower(
            account,
            borrower.collateral.order(),
            borrower.debt.order(),
        );
        lemma_pairs_for_borrower(account, borrower.collateral.order(), borrower.debt.order(), x);
        lemma_add_contains(candidates_of(borrowers, earlier), pairs, x);
        if exists|i: int|
            0 <= i < earlier.len() && is_candidate(borrowers@, #[trigger] earlier[i], x) {
            let i = choose|i: int|
                0 <= i < earlier.len() && is_candidate(borrowers@, #[trigger] earlier[i], x);
            assert(is_candidate(borrowers@, underwater[i], x));
        }
        if exists|i: int|
            0 <= i < underwater.len() && is_candidate(borrowers@, #[trigger] underwater[i], x) {
            let i = choose|i: int|
                0 <= i < underwater.len() && is_candidate(borrowers@, #[trigger] underwater[i], x);
            if i < earlier.len() {
                assert(is_candidate(borrowers@, earlier[i], x));
            }
        }
        if pairs.contains(x) {
            assert(is_candidate(borrowers@, underwater[underwater.len() - 1], x));
        }
    }
}

/// A strategy whose borrowers are known under their own addresses always knows the borrowers that
/// it finds underwater among those that it has asked for.
pub proof fn law_underwater_borrowers_are_known(
    borrowers: AddressMap<Borrower>,
    replies: Seq<AccountReply>,
    underwater: Seq<(Address, U256)>,
)
    requires
        borrowers_keyed(borrowers@),
        borrowers.order().no_duplicates(),
        forall|k: int, i: int|
            0 <= k < replies.len() && 0 <= i < replies[k].accounts@.len() ==> accounts_of(
                borrowers,
            ).contains(#[trigger] replies[k].accounts@[i]),
        is_stable_sort_of(underwater, found_in(replies, replies.len())),
    ensures
        all_known(borrowers, underwater),
{
    assert forall|j: int| 0 <= j < underwater.len() implies borrowers@.contains_key(
        (#[trigger] underwater[j]).0,
    ) by {
        let account = underwater[j];
        law_underwater_is_exact(replies, underwater, account);
        assert(underwater.contains(account));
        let k = choose|k: int|
            0 <= k < replies.len() && #[trigger] pairs_of(
                replies[k].accounts@,
                replies[k].health_factors@,
            ).contains(account);
        let pairs = pairs_of(replies[k].accounts@, replies[k].health_factors@);
        let i = pairs.index_of(account);
        assert(replies[k].accounts@[i] == account.0);
        law_accounts_are_exact(borrowers, account.0);
    }
}

/// Whether a liquidation is one of a candidate.
pub open spec fn is_of(op: LiquidationOpportunity, candidate: Candidate) -> bool {
    &&& op.borrower == candidate.borrower
    &&& op.collateral == candidate.collateral
    &&& op.debt == candidate.debt
}

/// The best liquidation is one of an underwater borrower: it takes a token of the borrower's
/// collateral and repays another token of its debt, and no other liquidation that was worked out
/// brings more.
pub proof fn law_best_op_is_of_underwater_borrower(
    borrowers: AddressMap<Borrower>,
    underwater: Seq<(Address, U256)>,
    outcomes: Seq<Option<LiquidationOpportunity>>,
    best: int,
)
    requires
        all_known(borrowers, underwater),
        outcomes.len() == candidates_of(borrowers, underwater).len(),
        forall|i: int|
            0 <= i < outcomes.len() && (#[trigger] outcomes[i]) is Some ==> is_of(
                outcomes[i].unwrap(),
                candidates_of(borrowers, underwater)[i],
            ),
        is_best(outcomes, best),
    ensures
        ({
            let op = outcomes[best].unwrap();
            &&& exists|k: int|
                0 <= k < underwater.len() && (#[trigger] underwater[k]).0 == op.borrower
            &&& borrowers@[op.borrower].collateral.contains(op.collateral)
            &&& borrowers@[op.borrower].debt.contains(op.debt)
            &&& op.collateral != op.debt
            &&& forall|i: int|
                0 <= i < outcomes.len() && (#[trigger] outcomes[i]) is Some
                    ==> outcomes[i].unwrap().profit_eth@ <= op.profit_eth@
        }),
{
    let candidates = candidates_of(borrowers, underwater);
    let x = candidates[best];
    assert(candidates.contains(x));
    law_candidates_are_exact(borrowers, underwater, x);
    assert(outcomes[best] is Some);
}

/// Where the underwater borrowers are sorted by health factor, so are the candidates.
proof fn lemma_candidates_sorted(borrowers: AddressMap<Borrower>, underwater: Seq<(Address, U256)>)
    requires
        is_sorted(underwater),
    ensures
        forall|i: int, j: int|
            0 <= i <= j < candidates_of(borrowers, underwater).len() ==> (
            #[trigger] candidates_of(borrowers, underwater)[i]).health_factor@ <= (
            #[trigger] candidates_of(borrowers, underwater)[j]).health_factor@,
        forall|i: int|
            0 <= i < candidates_of(borrowers, underwater).len() ==> (
            #[trigger] candidates_of(borrowers, underwater)[i]).health_factor@
                <= underwater.last().1@,
    decreases underwater.len(),
{
    if underwater.len() > 0 {
        let before = underwater.drop_last();
        let account = underwater.last();
        assert(is_sorted(before)) by {
            assert forall|i: int, j: int| 0 <= i <= j < before.len() implies (
            #[trigger] before[i]).1@ <= (#[trigger] before[j]).1@ by {
                assert(before[i] == underwater[i] && before[j] == underwater[j]);
            }
        }
        lemma_candidates_sorted(borrowers, before);
        let borrower = borrower_at(borrowers, account.0);
        let earlier = candidates_of(borrowers, before);
        let pairs = pairs_for_borrower(
            account,
            borrower.collateral.order(),
            borrower.debt.order(),
        );
        let all = candidates_of(borrowers, underwater);
        if before.len() > 0 {
            assert(underwater[before.len() - 1].1@ <= underwater[underwater.len() - 1].1@);
        }
        assert forall|i: int| earlier.len() <= i < all.len() implies (
        #[trigger] all[i]).health_factor@ == account.1@ by {
            assert(pairs[i - earlier.len()] == all[i]);
            assert(pairs.contains(all[i]));
            lemma_pairs_for_borrower(
                account,
                borrower.collateral.order(),
                borrower.debt.order(),
                all[i],
            );
        }
        assert forall|i: int| 0 <= i < earlier.len() implies #[trigger] all[i] == earlier[i] by {}
    }
}

/// Of equally profitable liquidations one of the borrower with the lowest health factor wins.
pub proof fn law_ties_go_to_lowest_health_factor(
    borrowers: AddressMap<Borrower>,
    underwater: Seq<(Address, U256)>,
    outcomes: Seq<Option<LiquidationOpportunity>>,
    best: int,
)
    requires
        is_sorted(underwater),
        outcomes.len() == candidates_of(borrowers, underwater).len(),
        is_best(outcomes, best),
    ensures
        forall|i: int|
            0 <= i < outcomes.len() && (#[trigger] outcomes[i]) is Some
                && outcomes[i].unwrap().profit_eth@ == outcomes[best].unwrap().profit_eth@
                ==> candidates_of(borrowers, underwater)[best].health_factor@ <= candidates_of(
                borrowers,
                underwater,
            )[i].health_factor@,
{
    lemma_candidates_sorted(borrowers, underwater);
}

/// The search goes through the underwater borrowers one after the other: the candidates of two
/// lists of borrowers in turn are those of the first list and then those of the second.
pub proof fn law_candidates_go_borrower_by_borrower(
    borrowers: AddressMap<Borrower>,
    first: Seq<(Address, U256)>,
    second: Seq<(Address, U256)>,
)
    ensures
        candidates_of(borrowers, first + second) == candidates_of(borrowers, first)
            + candidates_of(borrowers, second),
    decreases second.len(),
{
    if second.len() == 0 {
        assert(first + second =~= first);
        assert(candidates_of(borrowers, first) + candidates_of(borrowers, second)
            =~= candidates_of(borrowers, first));
    } else {
        law_candidates_go_borrower_by_borrower(borrowers, first, second.drop_last());
        assert((first + second).drop_last() =~= first + second.drop_last());
        assert(candidates_of(borrowers, first + second) =~= candidates_of(borrowers, first)
            + candidates_of(borrowers, second));
    }
}

proof fn lemma_pairs_for_collateral_distinct(
    account: (Address, U256),
    collateral: Address,
    debts: Seq<Address>,
)
    requires
        debts.no_duplicates(),
    ensures
        pairs_for_collateral(account, collateral, debts).no_duplicates(),
    decreases debts.len(),
{
    if debts.len() > 0 {
        let earlier = pairs_for_collateral(account, collateral, debts.drop_last());
        lemma_pairs_for_collateral_distinct(account, collateral, debts.drop_last());
        assert forall|i: int| 0 <= i < earlier.len() implies (#[trigger] earlier[i]).debt
            != debts.last() by {
            assert(earlier.contains(earlier[i]));
            lemma_pairs_for_collateral(account, collateral, debts.drop_last(), earlier[i]);
            let j = debts.drop_last().index_of(earlier[i].debt);
            assert(debts[j] == earlier[i].debt);
        }
    }
}

proof fn lemma_pairs_for_borrower_distinct(
    account: (Address, U256),
    collaterals: Seq<Address>,
    debts: Seq<Address>,
)
    requires
        collaterals.no_duplicates(),
        debts.no_duplicates(),
    ensures
        pairs_for_borrower(account, collaterals, debts).no_duplicates(),
    decreases collaterals.len(),
{
    if collaterals.len() > 0 {
        let earlier = pairs_for_borrower(account, collaterals.drop_last(), debts);
        let last = pairs_for_collateral(account, collaterals.last(), debts);
        lemma_pairs_for_borrower_distinct(account, collaterals.drop_last(), debts);
        lemma_pairs_for_collateral_distinct(account, collaterals.last(), debts);
        assert forall|i: int, j: int|
            0 <= i < earlier.len() && 0 <= j < last.len() implies earlier[i] != last[j] by {
            assert(earlier.contains(earlier[i]));
            assert(last.contains(last[j]));
            lemma_pairs_for_borrower(account, collaterals.drop_last(), debts, earlier[i]);
            lemma_pairs_for_collateral(account, collaterals.last(), debts, last[j]);
            let k = collaterals.drop_last().index_of(earlier[i].collateral);
            assert(collaterals[k] == earlier[i].collateral);
        }
        let all = pairs_for_borrower(account, collaterals, debts);
        assert forall|i: int, j: int| 0 <= i < all.len() && 0 <= j < all.len() && i != j implies all[i]
            != all[j] by {
            if i < earlier.len() && j >= earlier.len() {
                assert(earlier[i] != last[j - earlier.len()]);
            }
            if j < earlier.len() && i >= earlier.len() {
                assert(earlier[j] != last[i - earlier.len()]);
            }
        }
    }
}

/// No liquidation is looked into twice for a borrower.
pub proof fn law_pairs_are_distinct(borrower: Borrower, account: (Address, U256))
    requires
        borrower.collateral.order().no_duplicates(),
        borrower.debt.order().no_duplicates(),
    ensures
        pairs_for_borrower(
            account,
            borrower.collateral.order(),
            borrower.debt.order(),
        ).no_duplicates(),
{
    lemma_pairs_for_borrower_distinct(
        account,
        borrower.collateral.order(),
        borrower.debt.order(),
    );
}

/// All underwater borrowers are known exactly if none of the list is missing from the borrowers.
pub proof fn law_all_known(borrowers: AddressMap<Borrower>, underwater: Seq<(Address, U256)>)
    ensures
        all_known(borrowers, underwater) <==> forall|account: (Address, U256)| #[trigger]
            underwater.contains(account) ==> borrowers@.dom().contains(account.0),
{
    if forall|account: (Address, U256)| #[trigger]
        underwater.contains(account) ==> borrowers@.dom().contains(account.0) {
        assert forall|i: int| 0 <= i < underwater.len() implies borrowers@.contains_key(
            (#[trigger] underwater[i]).0,
        ) by {
            assert(underwater.contains(underwater[i]));
        }
    }
}

/// The best liquidation is one that was worked out, brings no less than any other and more than any
/// before it. There is one as soon as some liquidation brings more than the least number there is.
pub proof fn law_best_op_is_highest(
    outcomes: Seq<Option<LiquidationOpportunity>>,
    best: int,
    other: int,
    op: LiquidationOpportunity,
)
    requires
        0 <= other < outcomes.len(),
        outcomes[other] == Some(op),
    ensures
        counts(outcomes[other]) <==> op.profit_eth@ > -two_255(),
        is_best(outcomes, best) ==> {
            &&& outcomes[best] matches Some(winner)
            &&& winner.profit_eth@ >= op.profit_eth@
            &&& other < best ==> winner.profit_eth@ > op.profit_eth@
            &&& winner.profit_eth@ > -two_255()
        },
{
}

} // verus!

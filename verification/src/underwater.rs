//! Borrowers whose health factor is below one.
use vstd::prelude::*;

use crate::address::Address;
use crate::collections::AddressMap;
use crate::numbers::U256;
use crate::strategy::{pairs_of, AaveStrategy, Borrower};

verus! {

/// How many accounts are asked for in one call.
pub const MULTICALL_CHUNK_SIZE: usize = 100;

/// A health factor of one, which has 18 decimals.
pub const HEALTH_FACTOR_ONE: u64 = 1_000_000_000_000_000_000;

/// The addresses of all borrowers, in the order in which they are walked.
pub open spec fn accounts_of(borrowers: AddressMap<Borrower>) -> Seq<Address> {
    Seq::new(borrowers.order().len(), |i: int| borrowers.value_at(i).address)
}

/// The accounts cut into calls, in order, each call full but the last one.
pub open spec fn calls_of(accounts: Seq<Address>) -> Seq<Seq<Address>> {
    Seq::new(
        ((accounts.len() + MULTICALL_CHUNK_SIZE - 1) / MULTICALL_CHUNK_SIZE as int) as nat,
        |i: int|
            accounts.subrange(
                i * MULTICALL_CHUNK_SIZE,
                if (i + 1) * MULTICALL_CHUNK_SIZE <= accounts.len() {
                    (i + 1) * MULTICALL_CHUNK_SIZE
                } else {
                    accounts.len() as int
                },
            ),
    )
}

/// The accounts of a call, and the health factors that it has brought.
#[derive(Debug)]
pub struct AccountReply {
    pub accounts: Vec<Address>,
    pub health_factors: Vec<U256>,
}

/// The accounts among some that have a health factor below one.
pub open spec fn below_one(accounts: Seq<(Address, U256)>) -> Seq<(Address, U256)>
    decreases accounts.len(),
{
    if accounts.len() == 0 {
        Seq::empty()
    } else {
        let earlier = below_one(accounts.drop_last());
        if accounts.last().1@ < HEALTH_FACTOR_ONE {
            earlier.push(accounts.last())
        } else {
            earlier
        }
    }
}

/// The accounts with a health factor below one among those of the first `n` calls.
pub open spec fn found_in(replies: Seq<AccountReply>, n: nat) -> Seq<(Address, U256)>
    decreases n,
{
    if n == 0 {
        Seq::empty()
    } else {
        found_in(replies, (n - 1) as nat) + below_one(
            pairs_of(replies[n - 1].accounts@, replies[n - 1].health_factors@),
        )
    }
}

/// Whether health factors never fall along a list.
pub open spec fn is_sorted(accounts: Seq<(Address, U256)>) -> bool {
    forall|i: int, j: int|
        0 <= i <= j < accounts.len() ==> (#[trigger] accounts[i]).1@ <= (#[trigger] accounts[j]).1@
}

/// The accounts with a given health factor, in order.
pub open spec fn entries_at(accounts: Seq<(Address, U256)>, health_factor: nat) -> Seq<
    (Address, U256),
>
    decreases accounts.len(),
{
    if accounts.len() == 0 {
        Seq::empty()
    } else {
        let earlier = entries_at(accounts.drop_last(), health_factor);
        if accounts.last().1@ == health_factor {
            earlier.push(accounts.last())
        } else {
            earlier
        }
    }
}

/// Whether a list is another one sorted by health factor, with the accounts of equal health
/// factor in the order that they had.
pub open spec fn is_stable_sort_of(
    sorted: Seq<(Address, U256)>,
    accounts: Seq<(Address, U256)>,
) -> bool {
    &&& is_sorted(sorted)
    &&& forall|health_factor: nat| #[trigger]
        entries_at(sorted, health_factor) == entries_at(accounts, health_factor)
}

proof fn lemma_entries_at_add(
    a: Seq<(Address, U256)>,
    b: Seq<(Address, U256)>,
    health_factor: nat,
)
    ensures
        entries_at(a + b, health_factor) == entries_at(a, health_factor) + entries_at(
            b,
            health_factor,
        ),
    decreases b.len(),
{
    if b.len() == 0 {
        assert(a + b =~= a);
    } else {
        assert((a + b).drop_last() =~= a + b.drop_last());
        lemma_entries_at_add(a, b.drop_last(), health_factor);
        assert(entries_at(a + b, health_factor) =~= entries_at(a, health_factor) + entries_at(
            b,
            health_factor,
        ));
    }
}

proof fn lemma_entries_at_none(accounts: Seq<(Address, U256)>, health_factor: nat)
    requires
        forall|i: int| 0 <= i < accounts.len() ==> (#[trigger] accounts[i]).1@ != health_factor,
    ensures
        entries_at(accounts, health_factor) == Seq::<(Address, U256)>::empty(),
    decreases accounts.len(),
{
    if accounts.len() > 0 {
        lemma_entries_at_none(accounts.drop_last(), health_factor);
    }
}

/// Puts an account behind all that have no higher health factor.
fn insert_sorted(sorted: &mut Vec<(Address, U256)>, account: (Address, U256))
    requires
        is_sorted(old(sorted)@),
    ensures
        is_sorted(final(sorted)@),
        forall|health_factor: nat| #[trigger]
            entries_at(final(sorted)@, health_factor) == entries_at(
                old(sorted)@.push(account),
                health_factor,
            ),
{
    let mut place: usize = sorted.len();
    while place > 0 && account.1.less_than(&sorted[place - 1].1)
        invariant
            place <= sorted@.len(),
            *sorted == *old(sorted),
            forall|i: int| place <= i < sorted@.len() ==> account.1@ < (#[trigger] sorted@[i]).1@,
        decreases place,
    {
        place = place - 1;
    }
    let ghost before = sorted@;
    sorted.insert(place, account);
    proof {
        let low = before.take(place as int);
        let high = before.skip(place as int);
        let one = seq![account];
        assert(sorted@ =~= low + one + high);
        assert(before =~= low + high);
        assert(before.push(account) =~= low + high + one);
        assert forall|health_factor: nat| #[trigger]
            entries_at(sorted@, health_factor) == entries_at(before.push(account), health_factor) by {
            lemma_entries_at_add(low + one, high, health_factor);
            lemma_entries_at_add(low, one, health_factor);
            lemma_entries_at_add(low + high, one, health_factor);
            lemma_entries_at_add(low, high, health_factor);
            if health_factor == account.1@ {
                lemma_entries_at_none(high, health_factor);
            } else {
                lemma_entries_at_none(one, health_factor);
            }
            assert(entries_at(sorted@, health_factor) =~= entries_at(
                before.push(account),
                health_factor,
            ));
        }
    }
}

/// The accounts with a health factor below one, those with the lowest first.
pub fn get_underwater_borrowers(replies: &Vec<AccountReply>) -> (r: Vec<(Address, U256)>)
    ensures
        is_stable_sort_of(r@, found_in(replies@, replies@.len())),
{
    let one = U256::from_u64(HEALTH_FACTOR_ONE);
    let mut sorted: Vec<(Address, U256)> = Vec::new();
    let mut n: usize = 0;
    while n < replies.len()
        invariant
            n <= replies@.len(),
            one@ == HEALTH_FACTOR_ONE,
            is_stable_sort_of(sorted@, found_in(replies@, n as nat)),
        decreases replies@.len() - n,
    {
        let reply = &replies[n];
        let ghost pairs = pairs_of(reply.accounts@, reply.health_factors@);
        let ghost earlier = found_in(replies@, n as nat);
        let mut i: usize = 0;
        proof {
            assert(earlier + below_one(pairs.take(0)) =~= earlier);
        }
        while i < reply.accounts.len() && i < reply.health_factors.len()
            invariant
                i <= pairs.len(),
                one@ == HEALTH_FACTOR_ONE,
                pairs == pairs_of(reply.accounts@, reply.health_factors@),
                is_stable_sort_of(sorted@, earlier + below_one(pairs.take(i as int))),
            decreases pairs.len() - i,
        {
            let account = (reply.accounts[i], reply.health_factors[i]);
            proof {
                assert(pairs.take(i + 1).drop_last() =~= pairs.take(i as int));
                assert(pairs.take(i + 1).last() == account);
            }
            if account.1.less_than(&one) {
                let ghost before = sorted@;
                let ghost found = earlier + below_one(pairs.take(i as int));
                insert_sorted(&mut sorted, account);
                proof {
                    assert(earlier + below_one(pairs.take(i + 1)) =~= found.push(account));
                    assert forall|health_factor: nat| #[trigger]
                        entries_at(sorted@, health_factor) == entries_at(
                            found.push(account),
                            health_factor,
                        ) by {
                        assert(before.push(account).drop_last() =~= before);
                        assert(found.push(account).drop_last() =~= found);
                        assert(entries_at(before, health_factor) == entries_at(
                            found,
                            health_factor,
                        ));
                    }
                }
            }
            i = i + 1;
        }
        assert(pairs.take(i as int) =~= pairs);
        n = n + 1;
    }
    sorted
}

impl AaveStrategy {
    /// The addresses of all known borrowers.
    pub fn borrower_accounts(&self) -> (r: Vec<Address>)
        ensures
            r@ == accounts_of(self.borrowers),
    {
        let mut accounts: Vec<Address> = Vec::new();
        let n = self.borrowers.keys().len();
        let mut i: usize = 0;
        while i < n
            invariant
                i <= n,
                n == self.borrowers.order().len(),
                accounts@ == accounts_of(self.borrowers).take(i as int),
            decreases n - i,
        {
            accounts.push(self.borrowers.value(i).address);
            i = i + 1;
            assert(accounts@ =~= accounts_of(self.borrowers).take(i as int));
        }
        accounts
    }
}

/// Cuts accounts into calls.
pub fn account_calls(accounts: &Vec<Address>) -> (r: Vec<Vec<Address>>)
    ensures
        r@.len() == calls_of(accounts@).len(),
        forall|i: int| 0 <= i < r@.len() ==> (#[trigger] r@[i])@ == calls_of(accounts@)[i],
{
    let mut calls: Vec<Vec<Address>> = Vec::new();
    let mut start: usize = 0;
    while start < accounts.len()
        invariant
            start <= accounts@.len(),
            start == calls@.len() * MULTICALL_CHUNK_SIZE || start == accounts@.len(),
            start == accounts@.len() ==> calls@.len() == calls_of(accounts@).len(),
            start < accounts@.len() ==> calls@.len() < calls_of(accounts@).len(),
            forall|i: int|
                0 <= i < calls@.len() ==> (#[trigger] calls@[i])@ == calls_of(accounts@)[i],
        decreases accounts@.len() - start,
    {
        let end: usize = if accounts.len() - start > MULTICALL_CHUNK_SIZE {
            start + MULTICALL_CHUNK_SIZE
        } else {
            accounts.len()
        };
        let mut call: Vec<Address> = Vec::new();
        let mut i: usize = start;
        while i < end
            invariant
                start <= i <= end,
                end <= accounts@.len(),
                call@ == accounts@.subrange(start as int, i as int),
            decreases end - i,
        {
            call.push(accounts[i]);
            i = i + 1;
            assert(call@ =~= accounts@.subrange(start as int, i as int));
        }
        calls.push(call);
        start = end;
    }
    calls
}

proof fn lemma_entries_at_contains(accounts: Seq<(Address, U256)>, account: (Address, U256))
    ensures
        entries_at(accounts, account.1@).contains(account) <==> accounts.contains(account),
    decreases accounts.len(),
{
    if accounts.len() > 0 {
        let earlier = accounts.drop_last();
        lemma_entries_at_contains(earlier, account);
        let key = account.1@;
        assert(accounts =~= earlier.push(accounts.last()));
        lemma_push_contains(earlier, accounts.last(), account);
        lemma_push_contains(entries_at(earlier, key), accounts.last(), account);
    }
}

proof fn lemma_push_contains(
    accounts: Seq<(Address, U256)>,
    pushed: (Address, U256),
    account: (Address, U256),
)
    ensures
        accounts.push(pushed).contains(account) <==> accounts.contains(account) || pushed
            == account,
{
    let longer = accounts.push(pushed);
    if accounts.contains(account) {
        let i = accounts.index_of(account);
        assert(longer[i] == account);
    }
    assert(longer[accounts.len() as int] == pushed);
}

proof fn lemma_below_one_contains(accounts: Seq<(Address, U256)>, account: (Address, U256))
    ensures
        below_one(accounts).contains(account) <==> accounts.contains(account) && account.1@
            < HEALTH_FACTOR_ONE,
    decreases accounts.len(),
{
    if accounts.len() > 0 {
        let earlier = accounts.drop_last();
        lemma_below_one_contains(earlier, account);
        assert(accounts =~= earlier.push(accounts.last()));
        lemma_push_contains(earlier, accounts.last(), account);
        lemma_push_contains(below_one(earlier), accounts.last(), account);
    }
}

/// Whether some call among the first `n` has brought a health factor for an account.
pub open spec fn was_brought(replies: Seq<AccountReply>, n: nat, account: (Address, U256)) -> bool {
    exists|k: int|
        0 <= k < n && #[trigger] pairs_of(
            replies[k].accounts@,
            replies[k].health_factors@,
        ).contains(account)
}

proof fn lemma_found_in_contains(replies: Seq<AccountReply>, n: nat, account: (Address, U256))
    ensures
        found_in(replies, n).contains(account) <==> was_brought(replies, n, account) && account.1@
            < HEALTH_FACTOR_ONE,
    decreases n,
{
    if n > 0 {
        let m = (n - 1) as nat;
        let earlier = found_in(replies, m);
        let pairs = pairs_of(replies[m as int].accounts@, replies[m as int].health_factors@);
        lemma_found_in_contains(replies, m, account);
        lemma_below_one_contains(pairs, account);
        let both = earlier + below_one(pairs);
        if earlier.contains(account) {
            assert(both[earlier.index_of(account)] == account);
        }
        if below_one(pairs).contains(account) {
            assert(both[earlier.len() + below_one(pairs).index_of(account)] == account);
        }
        if both.contains(account) {
            let i = both.index_of(account);
            if i < earlier.len() {
                assert(earlier[i] == account);
            } else {
                assert(below_one(pairs)[i - earlier.len()] == account);
            }
        }
        if was_brought(replies, n, account) && !was_brought(replies, m, account) {
            assert(pairs.contains(account));
        }
    }
}

/// The underwater borrowers are exactly the accounts for which a health factor below one was
/// brought, and the first one is as far underwater as any.
pub proof fn law_underwater_is_exact(
    replies: Seq<AccountReply>,
    sorted: Seq<(Address, U256)>,
    account: (Address, U256),
)
    requires
        is_stable_sort_of(sorted, found_in(replies, replies.len())),
    ensures
        sorted.contains(account) <==> was_brought(replies, replies.len(), account) && account.1@
            < HEALTH_FACTOR_ONE,
        sorted.contains(account) ==> sorted[0].1@ <= account.1@,
{
    let found = found_in(replies, replies.len());
    lemma_found_in_contains(replies, replies.len(), account);
    lemma_entries_at_contains(sorted, account);
    lemma_entries_at_contains(found, account);
    assert(entries_at(sorted, account.1@) == entries_at(found, account.1@));
    if sorted.contains(account) {
        let i = sorted.index_of(account);
        assert(sorted[0].1@ <= sorted[i].1@);
    }
}

/// Every account is part of one call, at its place: account number `k` is asked for in call
/// `k / 100`. No call is empty, and none holds more than it may.
pub proof fn law_calls_cover_accounts(accounts: Seq<Address>, k: int)
    requires
        0 <= k < accounts.len(),
    ensures
        (k / MULTICALL_CHUNK_SIZE as int) < calls_of(accounts).len(),
        (k % MULTICALL_CHUNK_SIZE as int) < calls_of(accounts)[k / MULTICALL_CHUNK_SIZE as int].len(),
        calls_of(accounts)[k / MULTICALL_CHUNK_SIZE as int][k % MULTICALL_CHUNK_SIZE as int]
            == accounts[k],
        forall|i: int|
            0 <= i < calls_of(accounts).len() ==> 0 < (#[trigger] calls_of(accounts)[i]).len()
                <= MULTICALL_CHUNK_SIZE,
{
}

/// The accounts that are asked for are exactly the addresses of the known borrowers.
pub proof fn law_accounts_are_exact(borrowers: AddressMap<Borrower>, a: Address)
    requires
        borrowers.order().no_duplicates(),
    ensures
        accounts_of(borrowers).contains(a) <==> exists|key: Address| #[trigger]
            borrowers@.contains_key(key) && borrowers@[key].address == a,
{
    let accounts = accounts_of(borrowers);
    if accounts.contains(a) {
        let i = accounts.index_of(a);
        let key = borrowers.order()[i];
        assert(borrowers.order().contains(key));
        assert(borrowers.order().index_of(key) == i);
        assert(borrowers@.contains_key(key));
    }
    if exists|key: Address| #[trigger]
        borrowers@.contains_key(key) && borrowers@[key].address == a {
        let key = choose|key: Address| #[trigger]
            borrowers@.contains_key(key) && borrowers@[key].address == a;
        let i = borrowers.order().index_of(key);
        assert(accounts[i] == a);
    }
}

/// The accounts that count as underwater are those with a health factor below 10 to the 18, in the
/// order in which they stand.
pub proof fn law_below_one_filters(accounts: Seq<(Address, U256)>)
    ensures
        below_one(accounts) == accounts.filter(
            |account: (Address, U256)| account.1@ < 1_000_000_000_000_000_000,
        ),
    decreases accounts.len(),
{
    reveal(Seq::filter);
    if accounts.len() > 0 {
        law_below_one_filters(accounts.drop_last());
    }
}

/// What is found among the replies is what is below 10 to the 18 of all that was brought, one reply
/// after the other.
pub proof fn law_found_in_all_replies(replies: Seq<AccountReply>, n: nat)
    requires
        n <= replies.len(),
    ensures
        found_in(replies, n) == Seq::new(
            n,
            |k: int| pairs_of(replies[k].accounts@, replies[k].health_factors@),
        ).flatten().filter(|account: (Address, U256)| account.1@ < 1_000_000_000_000_000_000),
    decreases n,
{
    let low = |account: (Address, U256)| account.1@ < 1_000_000_000_000_000_000;
    let brought = |k: int| pairs_of(replies[k].accounts@, replies[k].health_factors@);
    let all = Seq::new(n, brought);
    if n == 0 {
        reveal(Seq::filter);
        assert(all.flatten() =~= Seq::<(Address, U256)>::empty());
    } else {
        let m = (n - 1) as nat;
        let earlier = Seq::new(m, brought);
        law_found_in_all_replies(replies, m);
        assert(all =~= earlier.push(brought(m as int)));
        earlier.lemma_flatten_push(brought(m as int));
        Seq::filter_distributes_over_add(earlier.flatten(), brought(m as int), low);
        law_below_one_filters(brought(m as int));
    }
}

proof fn lemma_entries_at_filters(accounts: Seq<(Address, U256)>, health_factor: nat)
    ensures
        entries_at(accounts, health_factor) == accounts.filter(
            |account: (Address, U256)| account.1@ == health_factor,
        ),
    decreases accounts.len(),
{
    reveal(Seq::filter);
    if accounts.len() > 0 {
        lemma_entries_at_filters(accounts.drop_last(), health_factor);
    }
}

proof fn lemma_entries_at_count(accounts: Seq<(Address, U256)>, account: (Address, U256))
    ensures
        accounts.to_multiset().count(account) == entries_at(
            accounts,
            account.1@,
        ).to_multiset().count(account),
    decreases accounts.len(),
{
    broadcast use vstd::seq_lib::group_to_multiset_ensures;

    if accounts.len() > 0 {
        let earlier = accounts.drop_last();
        lemma_entries_at_count(earlier, account);
        assert(accounts =~= earlier.push(accounts.last()));
    }
}

/// A sorted list goes up from the lowest health factor, holds each account as often as the list
/// that it was sorted from, and keeps the accounts of equal health factor in order.
pub proof fn law_sorting_keeps_accounts(
    sorted: Seq<(Address, U256)>,
    accounts: Seq<(Address, U256)>,
    health_factor: nat,
)
    requires
        is_stable_sort_of(sorted, accounts),
    ensures
        forall|i: int, j: int|
            0 <= i < j < sorted.len() ==> (#[trigger] sorted[i]).1@ <= (#[trigger] sorted[j]).1@,
        sorted.to_multiset() == accounts.to_multiset(),
        sorted.filter(|account: (Address, U256)| account.1@ == health_factor) == accounts.filter(
            |account: (Address, U256)| account.1@ == health_factor,
        ),
{
    lemma_entries_at_filters(sorted, health_factor);
    lemma_entries_at_filters(accounts, health_factor);
    assert(entries_at(sorted, health_factor) == entries_at(accounts, health_factor));
    assert forall|account: (Address, U256)| #[trigger]
        sorted.to_multiset().count(account) == accounts.to_multiset().count(account) by {
        lemma_entries_at_count(sorted, account);
        lemma_entries_at_count(accounts, account);
        assert(entries_at(sorted, account.1@) == entries_at(accounts, account.1@));
    }
    assert(sorted.to_multiset() =~= accounts.to_multiset());
}

/// One account is asked for on behalf of each known borrower, in the order in which the borrowers
/// are walked.
pub proof fn law_accounts_in_order(borrowers: AddressMap<Borrower>, i: int)
    requires
        borrowers.order().no_duplicates(),
    ensures
        accounts_of(borrowers).len() == borrowers.order().len(),
        0 <= i < borrowers.order().len() ==> accounts_of(borrowers)[i]
            == borrowers@[borrowers.order()[i]].address,
{
    if 0 <= i < borrowers.order().len() {
        let key = borrowers.order()[i];
        assert(borrowers.order().contains(key));
        assert(borrowers.order().index_of(key) == i);
    }
}

/// The calls hold the accounts and nothing else, in order: one behind the other they are the list
/// that was cut, and all but the last one hold a hundred.
pub proof fn law_calls_hold_accounts(accounts: Seq<Address>, i: int)
    ensures
        accounts.len() == 0 <==> calls_of(accounts).len() == 0,
        0 <= i < calls_of(accounts).len() - 1 ==> calls_of(accounts)[i].len() == 100,
        accounts.len() > 0 ==> 100 * (calls_of(accounts).len() - 1) + calls_of(accounts).last().len()
            == accounts.len(),
        calls_of(accounts).flatten() == accounts,
{
    let calls = calls_of(accounts);
    lemma_first_calls(accounts, calls.len());
    assert(calls.take(calls.len() as int) =~= calls);
    if calls.len() == 0 {
        assert(accounts =~= calls.flatten());
    } else {
        assert(accounts.take(accounts.len() as int) =~= accounts);
    }
}

proof fn lemma_first_calls(accounts: Seq<Address>, n: nat)
    requires
        n <= calls_of(accounts).len(),
    ensures
        calls_of(accounts).take(n as int).flatten() == accounts.take(
            if n * 100 <= accounts.len() {
                n as int * 100
            } else {
                accounts.len() as int
            },
        ),
    decreases n,
{
    let calls = calls_of(accounts);
    if n == 0 {
        assert(calls.take(0).flatten() =~= accounts.take(0));
    } else {
        let m = (n - 1) as nat;
        lemma_first_calls(accounts, m);
        assert(calls.take(n as int) =~= calls.take(m as int).push(calls[m as int]));
        calls.take(m as int).lemma_flatten_push(calls[m as int]);
        let end = if n * 100 <= accounts.len() {
            n as int * 100
        } else {
            accounts.len() as int
        };
        let start = m as int * 100;
        assert(accounts.take(start) + accounts.subrange(start, end) =~= accounts.take(end));
    }
}

} // verus!

//! Bringing the known borrowers up to the latest block.
//!
//! The span of blocks since the last update is cut into chunks. The borrows of every chunk are
//! read and applied first, then the supplies of every chunk. Reading and writing happen outside:
//! [`AaveStrategy::begin_update`] and [`AaveStrategy::update_step`] say what to do next, and are
//! told what came of it.
use vstd::prelude::*;

use crate::address::Address;
use crate::blocks::{block_chunks, chunks_of, steps_fit, BlockRange, BLOCK_CHUNK_SIZE};
use crate::collections::AddressSet;
use crate::strategy::{
    borrowers_keyed, same_setup, AaveStrategy, Borrower, BorrowerView, StateCache,
};

verus! {

/// A borrow or a supply of a token on behalf of an account.
#[derive(Clone, Copy, Debug)]
pub struct ReserveLog {
    pub on_behalf_of: Address,
    pub reserve: Address,
}

/// The borrowers after a borrow: the token joins the account's debt, and an account that was no
/// borrower becomes one.
pub open spec fn after_borrow(
    borrowers: Map<Address, BorrowerView>,
    log: ReserveLog,
) -> Map<Address, BorrowerView> {
    if borrowers.contains_key(log.on_behalf_of) {
        let known = borrowers[log.on_behalf_of];
        borrowers.insert(
            log.on_behalf_of,
            BorrowerView { debt: known.debt.insert(log.reserve), ..known },
        )
    } else {
        borrowers.insert(
            log.on_behalf_of,
            BorrowerView {
                address: log.on_behalf_of,
                collateral: Set::empty(),
                debt: Set::empty().insert(log.reserve),
            },
        )
    }
}

/// The borrowers after a supply: the token joins the collateral of an account that is a
/// borrower.
pub open spec fn after_supply(
    borrowers: Map<Address, BorrowerView>,
    log: ReserveLog,
) -> Map<Address, BorrowerView> {
    if borrowers.contains_key(log.on_behalf_of) {
        let known = borrowers[log.on_behalf_of];
        borrowers.insert(
            log.on_behalf_of,
            BorrowerView { collateral: known.collateral.insert(log.reserve), ..known },
        )
    } else {
        borrowers
    }
}

/// The borrowers after borrows, one after the other.
pub open spec fn after_borrows(
    borrowers: Map<Address, BorrowerView>,
    logs: Seq<ReserveLog>,
) -> Map<Address, BorrowerView>
    decreases logs.len(),
{
    if logs.len() == 0 {
        borrowers
    } else {
        after_borrow(after_borrows(borrowers, logs.drop_last()), logs.last())
    }
}

/// The borrowers after supplies, one after the other.
pub open spec fn after_supplies(
    borrowers: Map<Address, BorrowerView>,
    logs: Seq<ReserveLog>,
) -> Map<Address, BorrowerView>
    decreases logs.len(),
{
    if logs.len() == 0 {
        borrowers
    } else {
        after_supply(after_supplies(borrowers, logs.drop_last()), logs.last())
    }
}

/// What an update waits for.
#[derive(Clone, Copy, Debug, PartialEq, Eq, Structural)]
pub enum Awaited {
    /// The logs of the chunk that was asked for.
    Logs,
    /// That an intermediate cache has been written.
    Write,
    /// That the final cache has been written.
    Save,
    Nothing,
}

/// What has come of the last action.
#[derive(Debug)]
pub enum UpdateEvent {
    Logs(Vec<ReserveLog>),
    Written,
}

/// What to do next.
#[derive(Debug)]
pub enum UpdateAction {
    GetBorrowLogs(BlockRange),
    GetSupplyLogs(BlockRange),
    WriteIntermediateCache(StateCache),
    WriteCache(StateCache),
    Finish,
}

/// What to do next, with what a cache is to hold.
pub enum UpdateActionView {
    GetBorrowLogs(BlockRange),
    GetSupplyLogs(BlockRange),
    WriteIntermediateCache(u64, Map<Address, BorrowerView>),
    WriteCache(u64, Map<Address, BorrowerView>),
    Finish,
}

impl View for UpdateAction {
    type V = UpdateActionView;

    open spec fn view(&self) -> UpdateActionView {
        match self {
            UpdateAction::GetBorrowLogs(range) => UpdateActionView::GetBorrowLogs(*range),
            UpdateAction::GetSupplyLogs(range) => UpdateActionView::GetSupplyLogs(*range),
            UpdateAction::WriteIntermediateCache(
                cache,
            ) => UpdateActionView::WriteIntermediateCache(
                cache.last_block_number,
                cache.borrowers@,
            ),
            UpdateAction::WriteCache(cache) => UpdateActionView::WriteCache(
                cache.last_block_number,
                cache.borrowers@,
            ),
            UpdateAction::Finish => UpdateActionView::Finish,
        }
    }
}

/// An update under way.
#[derive(Debug)]
pub struct UpdateRun {
    chunks: Vec<BlockRange>,
    latest: u64,
    supplies: bool,
    chunk: usize,
    logs: Vec<ReserveLog>,
    next: usize,
    awaited: Awaited,
}

/// How far an update has come: the chunk that it is at, in the reading of the borrows or of the
/// supplies, and the logs of that chunk that are still to be applied.
pub struct UpdateRunView {
    pub chunks: Seq<BlockRange>,
    pub latest: u64,
    pub supplies: bool,
    pub chunk: int,
    pub rest: Seq<ReserveLog>,
    pub awaited: Awaited,
}

impl View for UpdateRun {
    type V = UpdateRunView;

    closed spec fn view(&self) -> UpdateRunView {
        UpdateRunView {
            chunks: self.chunks@,
            latest: self.latest,
            supplies: self.supplies,
            chunk: self.chunk as int,
            rest: self.logs@.skip(self.next as int),
            awaited: self.awaited,
        }
    }
}

impl UpdateRun {
    #[verifier::type_invariant]
    spec fn is_at_a_chunk(self) -> bool {
        &&& self.next <= self.logs@.len()
        &&& self.awaited == Awaited::Logs || self.awaited == Awaited::Write ==> self.chunk
            < self.chunks@.len()
    }
}

impl UpdateRunView {
    /// Whether the update waits for what has happened.
    pub open spec fn awaits(self, event: UpdateEvent) -> bool {
        match event {
            UpdateEvent::Logs(_) => self.awaited == Awaited::Logs,
            UpdateEvent::Written => self.awaited == Awaited::Write || self.awaited == Awaited::Save,
        }
    }
}

/// An update and the borrowers after a step, and what to do next.
pub struct UpdateOutcome {
    pub run: UpdateRunView,
    pub borrowers: Map<Address, BorrowerView>,
    pub action: UpdateActionView,
}

/// The update asks for the logs of a chunk.
pub open spec fn asks(
    run: UpdateRunView,
    supplies: bool,
    chunk: int,
    borrowers: Map<Address, BorrowerView>,
) -> UpdateOutcome {
    UpdateOutcome {
        run: UpdateRunView { supplies, chunk, rest: Seq::empty(), awaited: Awaited::Logs, ..run },
        borrowers,
        action: if supplies {
            UpdateActionView::GetSupplyLogs(run.chunks[chunk])
        } else {
            UpdateActionView::GetBorrowLogs(run.chunks[chunk])
        },
    }
}

/// The update has read everything and saves the borrowers as of the latest block.
pub open spec fn saves(
    run: UpdateRunView,
    borrowers: Map<Address, BorrowerView>,
) -> UpdateOutcome {
    UpdateOutcome {
        run: UpdateRunView { rest: Seq::empty(), awaited: Awaited::Save, ..run },
        borrowers,
        action: UpdateActionView::WriteCache(run.latest, borrowers),
    }
}

/// The update turns to the chunk behind the current one: the next one of the same reading, or
/// the first one of the supplies, or none.
pub open spec fn turns(
    run: UpdateRunView,
    borrowers: Map<Address, BorrowerView>,
) -> UpdateOutcome {
    if run.chunk + 1 < run.chunks.len() {
        asks(run, run.supplies, run.chunk + 1, borrowers)
    } else if !run.supplies {
        asks(run, true, 0, borrowers)
    } else {
        saves(run, borrowers)
    }
}

/// The update applies the first of the logs that changes a borrower, and has the borrowers
/// written to the cache: after the change for a borrow, before it for a supply. Once no such log
/// is left it turns to the next chunk.
pub open spec fn applies(
    run: UpdateRunView,
    borrowers: Map<Address, BorrowerView>,
    rest: Seq<ReserveLog>,
) -> UpdateOutcome
    decreases rest.len(),
{
    if rest.len() == 0 {
        turns(run, borrowers)
    } else if !run.supplies {
        let after = after_borrow(borrowers, rest[0]);
        UpdateOutcome {
            run: UpdateRunView { rest: rest.drop_first(), awaited: Awaited::Write, ..run },
            borrowers: after,
            action: UpdateActionView::WriteIntermediateCache(run.chunks[run.chunk].end, after),
        }
    } else if borrowers.contains_key(rest[0].on_behalf_of) {
        UpdateOutcome {
            run: UpdateRunView { rest: rest.drop_first(), awaited: Awaited::Write, ..run },
            borrowers: after_supply(borrowers, rest[0]),
            action: UpdateActionView::WriteIntermediateCache(run.chunks[run.chunk].end, borrowers),
        }
    } else {
        applies(run, borrowers, rest.drop_first())
    }
}

/// How an update starts.
pub open spec fn starts(
    from: u64,
    latest: u64,
    borrowers: Map<Address, BorrowerView>,
) -> UpdateOutcome {
    let run = UpdateRunView {
        chunks: chunks_of(from, latest),
        latest,
        supplies: false,
        chunk: 0,
        rest: Seq::empty(),
        awaited: Awaited::Logs,
    };
    if run.chunks.len() > 0 {
        asks(run, false, 0, borrowers)
    } else {
        saves(run, borrowers)
    }
}

/// How an update goes on.
pub open spec fn steps(
    run: UpdateRunView,
    borrowers: Map<Address, BorrowerView>,
    event: UpdateEvent,
) -> UpdateOutcome {
    match event {
        UpdateEvent::Logs(logs) => applies(run, borrowers, logs@),
        UpdateEvent::Written => if run.awaited == Awaited::Write {
            applies(run, borrowers, run.rest)
        } else {
            UpdateOutcome {
                run: UpdateRunView { awaited: Awaited::Nothing, ..run },
                borrowers,
                action: UpdateActionView::Finish,
            }
        },
    }
}

/// Whether a strategy, an update and an action are as an outcome says: the strategy has read the
/// chain up to the latest block as soon as the final cache is to be written, and not before.
pub open spec fn comes_to(
    outcome: UpdateOutcome,
    before: AaveStrategy,
    after: AaveStrategy,
    run: UpdateRun,
    action: UpdateAction,
) -> bool {
    &&& run@ == outcome.run
    &&& after.borrowers@ == outcome.borrowers
    &&& action@ == outcome.action
    &&& after.last_block_number == if outcome.action is WriteCache {
        run@.latest
    } else {
        before.last_block_number
    }
    &&& same_setup(before, after)
}

impl AaveStrategy {
    /// Applies a borrow.
    pub fn apply_borrow_log(&mut self, log: &ReserveLog)
        ensures
            final(self).borrowers@ == after_borrow(old(self).borrowers@, *log),
            final(self).last_block_number == old(self).last_block_number,
            same_setup(*old(self), *final(self)),
    {
        let user = log.on_behalf_of;
        let borrower = match self.borrowers.get(&user) {
            Some(known) => {
                let mut borrower = known.clone();
                borrower.debt.insert(log.reserve);
                borrower
            },
            None => {
                let mut debt = AddressSet::new();
                debt.insert(log.reserve);
                Borrower { address: user, collateral: AddressSet::new(), debt }
            },
        };
        self.borrowers.insert(user, borrower);
    }

    /// Applies a supply.
    pub fn apply_supply_log(&mut self, log: &ReserveLog)
        ensures
            final(self).borrowers@ == after_supply(old(self).borrowers@, *log),
            final(self).last_block_number == old(self).last_block_number,
            same_setup(*old(self), *final(self)),
    {
        let user = log.on_behalf_of;
        let changed = match self.borrowers.get(&user) {
            Some(known) => {
                let mut borrower = known.clone();
                borrower.collateral.insert(log.reserve);
                Some(borrower)
            },
            None => None,
        };
        if let Some(borrower) = changed {
            self.borrowers.insert(user, borrower);
        }
    }

    /// Begins an update up to the latest block.
    pub fn begin_update(&mut self, latest: u64) -> (r: (UpdateRun, UpdateAction))
        requires
            steps_fit(old(self).last_block_number, latest, BLOCK_CHUNK_SIZE),
        ensures
            comes_to(
                starts(old(self).last_block_number, latest, old(self).borrowers@),
                *old(self),
                *final(self),
                r.0,
                r.1,
            ),
    {
        let chunks = block_chunks(self.last_block_number, latest);
        if chunks.len() > 0 {
            AaveStrategy::ask_for_logs(chunks, latest, false, 0)
        } else {
            self.save(chunks, latest, false, 0)
        }
    }

    /// Goes on with an update once its last action is done.
    pub fn update_step(&mut self, run: UpdateRun, event: UpdateEvent) -> (r: (
        UpdateRun,
        UpdateAction,
    ))
        requires
            run@.awaits(event),
        ensures
            comes_to(
                steps(run@, old(self).borrowers@, event),
                *old(self),
                *final(self),
                r.0,
                r.1,
            ),
    {
        proof {
            use_type_invariant(&run);
        }
        let UpdateRun { chunks, latest, supplies, chunk, logs, next, awaited } = run;
        match event {
            UpdateEvent::Logs(fetched) => {
                assert(fetched@.skip(0) =~= fetched@);
                self.apply_logs(chunks, latest, supplies, chunk, fetched, 0)
            },
            UpdateEvent::Written => {
                if awaited == Awaited::Write {
                    self.apply_logs(chunks, latest, supplies, chunk, logs, next)
                } else {
                    let run = UpdateRun {
                        chunks,
                        latest,
                        supplies,
                        chunk,
                        logs,
                        next,
                        awaited: Awaited::Nothing,
                    };
                    (run, UpdateAction::Finish)
                }
            },
        }
    }

    fn ask_for_logs(chunks: Vec<BlockRange>, latest: u64, supplies: bool, chunk: usize) -> (r: (
        UpdateRun,
        UpdateAction,
    ))
        requires
            chunk < chunks@.len(),
        ensures
            r.0@ == (UpdateRunView {
                chunks: chunks@,
                latest,
                supplies,
                chunk: chunk as int,
                rest: Seq::empty(),
                awaited: Awaited::Logs,
            }),
            r.1@ == if supplies {
                UpdateActionView::GetSupplyLogs(chunks@[chunk as int])
            } else {
                UpdateActionView::GetBorrowLogs(chunks@[chunk as int])
            },
    {
        let range = chunks[chunk];
        let run = UpdateRun {
            chunks,
            latest,
            supplies,
            chunk,
            logs: Vec::new(),
            next: 0,
            awaited: Awaited::Logs,
        };
        assert(run@.rest =~= Seq::empty());
        if supplies {
            (run, UpdateAction::GetSupplyLogs(range))
        } else {
            (run, UpdateAction::GetBorrowLogs(range))
        }
    }

    fn save(&mut self, chunks: Vec<BlockRange>, latest: u64, supplies: bool, chunk: usize) -> (r: (
        UpdateRun,
        UpdateAction,
    ))
        ensures
            r.0@ == (UpdateRunView {
                chunks: chunks@,
                latest,
                supplies,
                chunk: chunk as int,
                rest: Seq::empty(),
                awaited: Awaited::Save,
            }),
            r.1@ == UpdateActionView::WriteCache(latest, old(self).borrowers@),
            final(self).last_block_number == latest,
            final(self).borrowers == old(self).borrowers,
            same_setup(*old(self), *final(self)),
    {
        self.last_block_number = latest;
        let run = UpdateRun {
            chunks,
            latest,
            supplies,
            chunk,
            logs: Vec::new(),
            next: 0,
            awaited: Awaited::Save,
        };
        assert(run@.rest =~= Seq::empty());
        (run, UpdateAction::WriteCache(self.cache_at(latest)))
    }

    fn apply_logs(
        &mut self,
        chunks: Vec<BlockRange>,
        latest: u64,
        supplies: bool,
        chunk: usize,
        logs: Vec<ReserveLog>,
        next: usize,
    ) -> (r: (UpdateRun, UpdateAction))
        requires
            chunk < chunks@.len(),
            next <= logs@.len(),
        ensures
            forall|run: UpdateRunView|
                run.chunks == chunks@ && run.latest == latest && run.supplies == supplies
                    && run.chunk == chunk ==> comes_to(
                    #[trigger] applies(
                        run,
                        old(self).borrowers@,
                        logs@.skip(next as int),
                    ),
                    *old(self),
                    *final(self),
                    r.0,
                    r.1,
                ),
    {
        let block = chunks[chunk].end;
        let mut i: usize = next;
        while i < logs.len()
            invariant
                next <= i <= logs@.len(),
                chunk < chunks@.len(),
                block == chunks@[chunk as int].end,
                *self == *old(self),
                forall|run: UpdateRunView|
                    run.chunks == chunks@ && run.latest == latest && run.supplies == supplies
                        && run.chunk == chunk ==> #[trigger] applies(
                        run,
                        old(self).borrowers@,
                        logs@.skip(next as int),
                    ) == applies(run, old(self).borrowers@, logs@.skip(i as int)),
            decreases logs@.len() - i,
        {
            let log = logs[i];
            proof {
                assert(logs@.skip(i as int)[0] == log);
                assert(logs@.skip(i as int).drop_first() =~= logs@.skip(i + 1));
            }
            i = i + 1;
            if !supplies {
                self.apply_borrow_log(&log);
                let cache = self.cache_at(block);
                let run = UpdateRun {
                    chunks,
                    latest,
                    supplies,
                    chunk,
                    logs,
                    next: i,
                    awaited: Awaited::Write,
                };
                return (run, UpdateAction::WriteIntermediateCache(cache));
            }
            if self.borrowers.contains_key(&log.on_behalf_of) {
                let cache = self.cache_at(block);
                self.apply_supply_log(&log);
                let run = UpdateRun {
                    chunks,
                    latest,
                    supplies,
                    chunk,
                    logs,
                    next: i,
                    awaited: Awaited::Write,
                };
                return (run, UpdateAction::WriteIntermediateCache(cache));
            }
        }
        assert(logs@.skip(i as int) =~= Seq::empty());
        if chunk < chunks.len() - 1 {
            AaveStrategy::ask_for_logs(chunks, latest, supplies, chunk + 1)
        } else if !supplies {
            AaveStrategy::ask_for_logs(chunks, latest, true, 0)
        } else {
            self.save(chunks, latest, supplies, chunk)
        }
    }
}

/// Whether an update has applied what it has read: all borrows and all supplies but those that
/// are still to be applied, the borrows first.
pub open spec fn reflects(
    run: UpdateRunView,
    borrowers: Map<Address, BorrowerView>,
    initial: Map<Address, BorrowerView>,
    borrows: Seq<ReserveLog>,
    supplies: Seq<ReserveLog>,
) -> bool {
    if run.awaited == Awaited::Save || run.awaited == Awaited::Nothing {
        &&& run.rest.len() == 0
        &&& borrowers == after_supplies(after_borrows(initial, borrows), supplies)
    } else {
        &&& 0 <= run.chunk < run.chunks.len()
        &&& run.awaited == Awaited::Logs ==> run.rest.len() == 0
        &&& if run.supplies {
            &&& run.rest.len() <= supplies.len()
            &&& run.rest == supplies.skip(supplies.len() - run.rest.len())
            &&& borrowers == after_supplies(
                after_borrows(initial, borrows),
                supplies.take(supplies.len() - run.rest.len()),
            )
        } else {
            &&& supplies.len() == 0
            &&& run.rest.len() <= borrows.len()
            &&& run.rest == borrows.skip(borrows.len() - run.rest.len())
            &&& borrowers == after_borrows(initial, borrows.take(borrows.len() - run.rest.len()))
        }
    }
}

/// An update keeps to what it has read while it applies logs.
proof fn lemma_applies_reflects(
    run: UpdateRunView,
    borrowers: Map<Address, BorrowerView>,
    initial: Map<Address, BorrowerView>,
    borrows: Seq<ReserveLog>,
    supplies: Seq<ReserveLog>,
)
    requires
        reflects(
            UpdateRunView { awaited: Awaited::Write, ..run },
            borrowers,
            initial,
            borrows,
            supplies,
        ),
    ensures
        reflects(
            applies(run, borrowers, run.rest).run,
            applies(run, borrowers, run.rest).borrowers,
            initial,
            borrows,
            supplies,
        ),
    decreases run.rest.len(),
{
    let rest = run.rest;
    let logs = if run.supplies {
        supplies
    } else {
        borrows
    };
    let done = logs.len() - rest.len();
    if rest.len() == 0 {
        assert(logs.take(done) =~= logs);
        assert(supplies.take(0) =~= Seq::<ReserveLog>::empty());
        assert(borrows.skip(borrows.len() as int) =~= Seq::<ReserveLog>::empty());
        assert(supplies.skip(supplies.len() as int) =~= Seq::<ReserveLog>::empty());
        assert(borrows.take(borrows.len() as int) =~= borrows);
        assert(supplies.take(supplies.len() as int) =~= supplies);
    } else {
        assert(rest[0] == logs[done]);
        assert(logs.take(done + 1).drop_last() =~= logs.take(done));
        assert(rest.drop_first() =~= logs.skip(done + 1));
        if run.supplies && !borrowers.contains_key(rest[0].on_behalf_of) {
            let skipped = UpdateRunView { rest: rest.drop_first(), ..run };
            lemma_applies_reflects(skipped, borrowers, initial, borrows, supplies);
            lemma_applies_ignores(run, skipped, borrowers, rest.drop_first());
        }
    }
}

/// What an update does with logs does not depend on those that it had before.
proof fn lemma_applies_ignores(
    a: UpdateRunView,
    b: UpdateRunView,
    borrowers: Map<Address, BorrowerView>,
    rest: Seq<ReserveLog>,
)
    requires
        a.chunks == b.chunks,
        a.latest == b.latest,
        a.supplies == b.supplies,
        a.chunk == b.chunk,
    ensures
        applies(a, borrowers, rest) == applies(b, borrowers, rest),
    decreases rest.len(),
{
    if rest.len() > 0 {
        lemma_applies_ignores(a, b, borrowers, rest.drop_first());
    }
}

/// An update that starts has read and applied nothing.
pub proof fn law_update_starts(from: u64, latest: u64, borrowers: Map<Address, BorrowerView>)
    ensures
        reflects(
            starts(from, latest, borrowers).run,
            starts(from, latest, borrowers).borrowers,
            borrowers,
            Seq::empty(),
            Seq::empty(),
        ),
{
    let none = Seq::<ReserveLog>::empty();
    assert(none.skip(0) =~= none);
    assert(none.take(0) =~= none);
}

/// With every step an update goes on to have applied what it has read: the logs that the step
/// brings join the borrows as long as borrows are read, and the supplies after that.
pub proof fn law_update_steps(
    run: UpdateRunView,
    borrowers: Map<Address, BorrowerView>,
    event: UpdateEvent,
    initial: Map<Address, BorrowerView>,
    borrows: Seq<ReserveLog>,
    supplies: Seq<ReserveLog>,
)
    requires
        run.awaits(event),
        reflects(run, borrowers, initial, borrows, supplies),
    ensures
        reflects(
            steps(run, borrowers, event).run,
            steps(run, borrowers, event).borrowers,
            initial,
            match event {
                UpdateEvent::Logs(logs) if !run.supplies => borrows + logs@,
                _ => borrows,
            },
            match event {
                UpdateEvent::Logs(logs) if run.supplies => supplies + logs@,
                _ => supplies,
            },
        ),
{
    match event {
        UpdateEvent::Logs(logs) => {
            let fed = UpdateRunView { rest: logs@, ..run };
            if run.supplies {
                assert((supplies + logs@).skip(supplies.len() as int) =~= logs@);
                assert((supplies + logs@).take(supplies.len() as int) =~= supplies);
                assert(supplies.take(supplies.len() as int) =~= supplies);
                lemma_applies_reflects(fed, borrowers, initial, borrows, supplies + logs@);
            } else {
                assert((borrows + logs@).skip(borrows.len() as int) =~= logs@);
                assert((borrows + logs@).take(borrows.len() as int) =~= borrows);
                assert(borrows.take(borrows.len() as int) =~= borrows);
                lemma_applies_reflects(fed, borrowers, initial, borrows + logs@, supplies);
            }
            lemma_applies_ignores(run, fed, borrowers, logs@);
        },
        UpdateEvent::Written => {
            if run.awaited == Awaited::Write {
                lemma_applies_reflects(run, borrowers, initial, borrows, supplies);
            }
        },
    }
}

/// Once an update saves, the borrowers are those that it began with after all borrows that it
/// has read and then all supplies.
pub proof fn law_update_saves_everything(
    run: UpdateRunView,
    borrowers: Map<Address, BorrowerView>,
    initial: Map<Address, BorrowerView>,
    borrows: Seq<ReserveLog>,
    supplies: Seq<ReserveLog>,
)
    requires
        reflects(run, borrowers, initial, borrows, supplies),
        run.awaited == Awaited::Save,
    ensures
        borrowers == after_supplies(after_borrows(initial, borrows), supplies),
{
}

/// Where an update stands after a history of events.
pub open spec fn runs(start: UpdateOutcome, events: Seq<UpdateEvent>) -> UpdateOutcome
    decreases events.len(),
{
    if events.len() == 0 {
        start
    } else {
        let before = runs(start, events.drop_last());
        steps(before.run, before.borrowers, events.last())
    }
}

/// Whether every event of a history is one that the update waited for.
pub open spec fn is_history(start: UpdateOutcome, events: Seq<UpdateEvent>) -> bool
    decreases events.len(),
{
    events.len() == 0 || (is_history(start, events.drop_last()) && runs(
        start,
        events.drop_last(),
    ).run.awaits(events.last()))
}

/// The logs that a history has brought while borrows were read, or while supplies were read.
pub open spec fn logs_read(
    start: UpdateOutcome,
    events: Seq<UpdateEvent>,
    supplies: bool,
) -> Seq<ReserveLog>
    decreases events.len(),
{
    if events.len() == 0 {
        Seq::empty()
    } else {
        let before = logs_read(start, events.drop_last(), supplies);
        match events.last() {
            UpdateEvent::Logs(logs) => if runs(start, events.drop_last()).run.supplies
                == supplies {
                before + logs@
            } else {
                before
            },
            UpdateEvent::Written => before,
        }
    }
}

/// How many answers to requests for logs a history has brought.
pub open spec fn answers(events: Seq<UpdateEvent>) -> nat
    decreases events.len(),
{
    if events.len() == 0 {
        0
    } else {
        answers(events.drop_last()) + if events.last() is Logs {
            1nat
        } else {
            0nat
        }
    }
}

/// How many requests an update has made before the one for its current chunk.
pub open spec fn place(run: UpdateRunView) -> int {
    if run.supplies {
        run.chunks.len() + run.chunk
    } else {
        run.chunk
    }
}

/// Applying logs ends at the same chunk, at the one behind it, or at the end.
proof fn lemma_applies_place(
    run: UpdateRunView,
    borrowers: Map<Address, BorrowerView>,
    rest: Seq<ReserveLog>,
)
    requires
        0 <= run.chunk < run.chunks.len(),
    ensures
        ({
            let after = applies(run, borrowers, rest);
            &&& after.run.chunks == run.chunks
            &&& after.run.latest == run.latest
            &&& 0 <= after.run.chunk < run.chunks.len()
            &&& match after.run.awaited {
                Awaited::Logs => place(after.run) == place(run) + 1 && after.action
                    == if after.run.supplies {
                    UpdateActionView::GetSupplyLogs(run.chunks[after.run.chunk])
                } else {
                    UpdateActionView::GetBorrowLogs(run.chunks[after.run.chunk])
                },
                Awaited::Write => {
                    &&& place(after.run) == place(run)
                    &&& after.run.chunk == run.chunk
                    &&& after.action matches UpdateActionView::WriteIntermediateCache(block, _)
                    &&& block == run.chunks[run.chunk].end
                },
                Awaited::Save => place(run) + 1 == 2 * run.chunks.len() && after.action
                    == UpdateActionView::WriteCache(run.latest, after.borrowers),
                Awaited::Nothing => false,
            }
        }),
    decreases rest.len(),
{
    if rest.len() > 0 {
        lemma_applies_place(run, borrowers, rest.drop_first());
    }
}

/// A whole update, from its start through any history of events: each chunk is asked for its
/// borrows and then each chunk for its supplies, in order and once each; and when the final
/// cache is to be written every chunk has been read both ways, and the cache holds the borrowers
/// that the update began with after all borrows and then all supplies that were read.
pub proof fn law_whole_update(
    from: u64,
    latest: u64,
    initial: Map<Address, BorrowerView>,
    events: Seq<UpdateEvent>,
)
    requires
        is_history(starts(from, latest, initial), events),
    ensures
        ({
            let start = starts(from, latest, initial);
            let now = runs(start, events);
            let chunks = chunks_of(from, latest);
            &&& now.run.chunks == chunks
            &&& now.run.latest == latest
            &&& reflects(
                now.run,
                now.borrowers,
                initial,
                logs_read(start, events, false),
                logs_read(start, events, true),
            )
            &&& match now.run.awaited {
                Awaited::Logs => answers(events) == place(now.run) && 0 <= now.run.chunk
                    < chunks.len() && now.action == if now.run.supplies {
                    UpdateActionView::GetSupplyLogs(chunks[now.run.chunk])
                } else {
                    UpdateActionView::GetBorrowLogs(chunks[now.run.chunk])
                },
                Awaited::Write => {
                    &&& answers(events) == place(now.run) + 1
                    &&& 0 <= now.run.chunk < chunks.len()
                    &&& now.action matches UpdateActionView::WriteIntermediateCache(block, _)
                    &&& block == chunks[now.run.chunk].end
                },
                Awaited::Save => answers(events) == 2 * chunks.len() && now.action
                    == UpdateActionView::WriteCache(
                    latest,
                    after_supplies(
                        after_borrows(initial, logs_read(start, events, false)),
                        logs_read(start, events, true),
                    ),
                ),
                Awaited::Nothing => answers(events) == 2 * chunks.len() && now.action
                    == UpdateActionView::Finish,
            }
        }),
    decreases events.len(),
{
    let start = starts(from, latest, initial);
    if events.len() == 0 {
        law_update_starts(from, latest, initial);
    } else {
        let past = events.drop_last();
        let event = events.last();
        let before = runs(start, past);
        law_whole_update(from, latest, initial, past);
        law_update_steps(
            before.run,
            before.borrowers,
            event,
            initial,
            logs_read(start, past, false),
            logs_read(start, past, true),
        );
        match event {
            UpdateEvent::Logs(logs) => {
                lemma_applies_place(before.run, before.borrowers, logs@);
            },
            UpdateEvent::Written => {
                if before.run.awaited == Awaited::Write {
                    lemma_applies_place(before.run, before.borrowers, before.run.rest);
                }
            },
        }
    }
}

/// Whether a borrow is already part of what is known of the borrowers.
pub open spec fn knows_borrow(borrowers: Map<Address, BorrowerView>, log: ReserveLog) -> bool {
    borrowers.contains_key(log.on_behalf_of) && borrowers[log.on_behalf_of].debt.contains(
        log.reserve,
    )
}

/// Whether a supply of a borrower is already part of what is known of the borrowers.
pub open spec fn knows_supply(borrowers: Map<Address, BorrowerView>, log: ReserveLog) -> bool {
    borrowers.contains_key(log.on_behalf_of) ==> borrowers[log.on_behalf_of].collateral.contains(
        log.reserve,
    )
}

/// Whether nothing that is known of the borrowers in one state is forgotten in another.
pub open spec fn remembers(
    earlier: Map<Address, BorrowerView>,
    later: Map<Address, BorrowerView>,
) -> bool {
    forall|a: Address| #[trigger]
        earlier.contains_key(a) ==> later.contains_key(a) && later[a].address == earlier[a].address
            && earlier[a].debt.subset_of(later[a].debt) && earlier[a].collateral.subset_of(
            later[a].collateral,
        )
}

/// Borrows leave nothing forgotten, are all known afterwards, and keep every borrower known under
/// its own address.
pub proof fn law_borrows_are_kept(
    borrowers: Map<Address, BorrowerView>,
    logs: Seq<ReserveLog>,
)
    ensures
        remembers(borrowers, after_borrows(borrowers, logs)),
        forall|i: int|
            0 <= i < logs.len() ==> knows_borrow(
                after_borrows(borrowers, logs),
                #[trigger] logs[i],
            ),
        borrowers_keyed(borrowers) ==> borrowers_keyed(after_borrows(borrowers, logs)),
    decreases logs.len(),
{
    if logs.len() > 0 {
        law_borrows_are_kept(borrowers, logs.drop_last());
        let before = after_borrows(borrowers, logs.drop_last());
        let after = after_borrows(borrowers, logs);
        assert forall|i: int| 0 <= i < logs.len() implies knows_borrow(
            after,
            #[trigger] logs[i],
        ) by {
            if i < logs.len() - 1 {
                assert(logs.drop_last()[i] == logs[i]);
            }
        }
    }
}

/// Supplies leave nothing forgotten, are known afterwards as far as they are those of borrowers,
/// and keep every borrower known under its own address. They make no borrower.
pub proof fn law_supplies_are_kept(
    borrowers: Map<Address, BorrowerView>,
    logs: Seq<ReserveLog>,
)
    ensures
        remembers(borrowers, after_supplies(borrowers, logs)),
        forall|i: int|
            0 <= i < logs.len() ==> knows_supply(
                after_supplies(borrowers, logs),
                #[trigger] logs[i],
            ),
        borrowers_keyed(borrowers) ==> borrowers_keyed(after_supplies(borrowers, logs)),
        after_supplies(borrowers, logs).dom() == borrowers.dom(),
    decreases logs.len(),
{
    if logs.len() > 0 {
        law_supplies_are_kept(borrowers, logs.drop_last());
        let after = after_supplies(borrowers, logs);
        assert forall|i: int| 0 <= i < logs.len() implies knows_supply(
            after,
            #[trigger] logs[i],
        ) by {
            if i < logs.len() - 1 {
                assert(logs.drop_last()[i] == logs[i]);
            }
        }
        assert(after.dom() =~= borrowers.dom());
    }
}

/// Reading borrows again that are already known changes nothing.
pub proof fn law_reread_borrows(borrowers: Map<Address, BorrowerView>, again: Seq<ReserveLog>)
    requires
        forall|i: int| 0 <= i < again.len() ==> knows_borrow(borrowers, #[trigger] again[i]),
    ensures
        after_borrows(borrowers, again) == borrowers,
    decreases again.len(),
{
    if again.len() > 0 {
        assert forall|i: int| 0 <= i < again.drop_last().len() implies knows_borrow(
            borrowers,
            #[trigger] again.drop_last()[i],
        ) by {
            assert(again.drop_last()[i] == again[i]);
        }
        law_reread_borrows(borrowers, again.drop_last());
        let known = borrowers[again.last().on_behalf_of];
        assert(again.last() == again[again.len() - 1]);
        assert(known.debt.insert(again.last().reserve) =~= known.debt);
        assert(after_borrow(borrowers, again.last()) =~= borrowers);
    }
}

/// Reading supplies again that are already known changes nothing.
pub proof fn law_reread_supplies(borrowers: Map<Address, BorrowerView>, again: Seq<ReserveLog>)
    requires
        forall|i: int| 0 <= i < again.len() ==> knows_supply(borrowers, #[trigger] again[i]),
    ensures
        after_supplies(borrowers, again) == borrowers,
    decreases again.len(),
{
    if again.len() > 0 {
        assert forall|i: int| 0 <= i < again.drop_last().len() implies knows_supply(
            borrowers,
            #[trigger] again.drop_last()[i],
        ) by {
            assert(again.drop_last()[i] == again[i]);
        }
        law_reread_supplies(borrowers, again.drop_last());
        assert(again.last() == again[again.len() - 1]);
        if borrowers.contains_key(again.last().on_behalf_of) {
            let known = borrowers[again.last().on_behalf_of];
            assert(known.collateral.insert(again.last().reserve) =~= known.collateral);
        }
        assert(after_supply(borrowers, again.last()) =~= borrowers);
    }
}

proof fn lemma_kept_after_both(
    initial: Map<Address, BorrowerView>,
    borrows: Seq<ReserveLog>,
    supplies: Seq<ReserveLog>,
)
    ensures
        ({
            let last = after_supplies(after_borrows(initial, borrows), supplies);
            &&& remembers(initial, last)
            &&& borrowers_keyed(initial) ==> borrowers_keyed(last)
            &&& forall|i: int|
                0 <= i < borrows.len() ==> knows_borrow(last, #[trigger] borrows[i])
            &&& forall|i: int|
                0 <= i < supplies.len() ==> knows_supply(last, #[trigger] supplies[i])
        }),
{
    let middle = after_borrows(initial, borrows);
    let last = after_supplies(middle, supplies);
    law_borrows_are_kept(initial, borrows);
    law_supplies_are_kept(middle, supplies);
    assert forall|a: Address| #[trigger] initial.contains_key(a) implies last.contains_key(a)
        && last[a].address == initial[a].address && initial[a].debt.subset_of(last[a].debt)
        && initial[a].collateral.subset_of(last[a].collateral) by {
        assert(middle.contains_key(a));
    }
    assert forall|i: int| 0 <= i < borrows.len() implies knows_borrow(
        last,
        #[trigger] borrows[i],
    ) by {
        assert(middle.contains_key(borrows[i].on_behalf_of));
    }
}

/// At every point of an update nothing is forgotten of the borrowers that it began with, and every
/// borrower stays known under its own address. Once the final cache is to be written, every borrow
/// that was read is known, and so is every supply of a borrower.
pub proof fn law_update_forgets_nothing(
    from: u64,
    latest: u64,
    initial: Map<Address, BorrowerView>,
    events: Seq<UpdateEvent>,
)
    requires
        is_history(starts(from, latest, initial), events),
    ensures
        ({
            let start = starts(from, latest, initial);
            let now = runs(start, events);
            let borrows = logs_read(start, events, false);
            let supplies = logs_read(start, events, true);
            &&& remembers(initial, now.borrowers)
            &&& borrowers_keyed(initial) ==> borrowers_keyed(now.borrowers)
            &&& now.run.awaited == Awaited::Save ==> {
                &&& forall|i: int|
                    0 <= i < borrows.len() ==> knows_borrow(now.borrowers, #[trigger] borrows[i])
                &&& forall|i: int|
                    0 <= i < supplies.len() ==> knows_supply(now.borrowers, #[trigger] supplies[i])
            }
        }),
{
    let start = starts(from, latest, initial);
    let now = runs(start, events);
    let borrows = logs_read(start, events, false);
    let supplies = logs_read(start, events, true);
    law_whole_update(from, latest, initial, events);
    lemma_kept_after_both(initial, borrows, supplies);
    lemma_kept_after_both(
        initial,
        borrows,
        supplies.take(supplies.len() - now.run.rest.len()),
    );
    law_borrows_are_kept(initial, borrows.take(borrows.len() - now.run.rest.len()));
}

/// A borrow on behalf of an account makes it a borrower and adds the token to its debt. Nothing
/// else changes: neither the account's collateral nor anything of another account.
pub proof fn law_one_borrow(borrowers: Map<Address, BorrowerView>, log: ReserveLog)
    ensures
        ({
            let after = after_borrow(borrowers, log);
            let a = log.on_behalf_of;
            &&& forall|b: Address| #[trigger]
                after.contains_key(b) <==> borrowers.contains_key(b) || b == a
            &&& forall|b: Address|
                b != a && borrowers.contains_key(b) ==> #[trigger] after[b] == borrowers[b]
            &&& forall|t: Address| #[trigger]
                after[a].debt.contains(t) <==> t == log.reserve || (borrowers.contains_key(a)
                    && borrowers[a].debt.contains(t))
            &&& forall|t: Address| #[trigger]
                after[a].collateral.contains(t) <==> borrowers.contains_key(a)
                    && borrowers[a].collateral.contains(t)
            &&& after[a].address == if borrowers.contains_key(a) {
                borrowers[a].address
            } else {
                a
            }
        }),
{
}

/// A supply on behalf of a borrower adds the token to its collateral. Nothing else changes: neither
/// the borrower's debt nor anything of another account, and a stranger becomes no borrower.
pub proof fn law_one_supply(borrowers: Map<Address, BorrowerView>, log: ReserveLog)
    ensures
        ({
            let after = after_supply(borrowers, log);
            let a = log.on_behalf_of;
            &&& forall|b: Address| #[trigger]
                after.contains_key(b) <==> borrowers.contains_key(b)
            &&& forall|b: Address|
                b != a && borrowers.contains_key(b) ==> #[trigger] after[b] == borrowers[b]
            &&& borrowers.contains_key(a) ==> {
                &&& forall|t: Address| #[trigger]
                    after[a].collateral.contains(t) <==> t == log.reserve
                        || borrowers[a].collateral.contains(t)
                &&& forall|t: Address| #[trigger]
                    after[a].debt.contains(t) <==> borrowers[a].debt.contains(t)
                &&& after[a].address == borrowers[a].address
            }
        }),
{
}

/// Whether some log is on behalf of an account.
pub open spec fn is_named(logs: Seq<ReserveLog>, a: Address) -> bool {
    exists|i: int| 0 <= i < logs.len() && (#[trigger] logs[i]).on_behalf_of == a
}

/// Whether some log is for a token on behalf of an account.
pub open spec fn is_logged(logs: Seq<ReserveLog>, a: Address, token: Address) -> bool {
    exists|i: int|
        0 <= i < logs.len() && (#[trigger] logs[i]).on_behalf_of == a && logs[i].reserve == token
}

proof fn lemma_last_log(logs: Seq<ReserveLog>, a: Address, token: Address)
    requires
        logs.len() > 0,
    ensures
        is_named(logs, a) <==> is_named(logs.drop_last(), a) || logs.last().on_behalf_of == a,
        is_logged(logs, a, token) <==> is_logged(logs.drop_last(), a, token) || (
        logs.last().on_behalf_of == a && logs.last().reserve == token),
{
    let earlier = logs.drop_last();
    let n = logs.len() - 1;
    assert(logs[n] == logs.last());
    if is_named(earlier, a) {
        let i = choose|i: int|
            0 <= i < earlier.len() && (#[trigger] earlier[i]).on_behalf_of == a;
        assert(logs[i].on_behalf_of == a);
    }
    if is_named(logs, a) {
        let i = choose|i: int| 0 <= i < logs.len() && (#[trigger] logs[i]).on_behalf_of == a;
        if i < n {
            assert(earlier[i].on_behalf_of == a);
        }
    }
    if is_logged(earlier, a, token) {
        let i = choose|i: int|
            0 <= i < earlier.len() && (#[trigger] earlier[i]).on_behalf_of == a
                && earlier[i].reserve == token;
        assert(logs[i].on_behalf_of == a);
    }
    if is_logged(logs, a, token) {
        let i = choose|i: int|
            0 <= i < logs.len() && (#[trigger] logs[i]).on_behalf_of == a && logs[i].reserve
                == token;
        if i < n {
            assert(earlier[i].on_behalf_of == a);
        }
    }
}

/// From borrows nothing is learnt but what they say: an account is a borrower if it was one before
/// or some borrow is on its behalf, its debt has grown by the tokens of those borrows and by no
/// others, and its collateral is what it was.
pub proof fn law_borrows_are_exact(
    borrowers: Map<Address, BorrowerView>,
    logs: Seq<ReserveLog>,
    a: Address,
    token: Address,
)
    ensures
        ({
            let after = after_borrows(borrowers, logs);
            let known = borrowers.contains_key(a);
            &&& after.contains_key(a) <==> known || is_named(logs, a)
            &&& after.contains_key(a) ==> {
                &&& after[a].address == if known {
                    borrowers[a].address
                } else {
                    a
                }
                &&& after[a].debt.contains(token) <==> (known && borrowers[a].debt.contains(token))
                    || is_logged(logs, a, token)
                &&& after[a].collateral.contains(token) <==> known
                    && borrowers[a].collateral.contains(token)
            }
        }),
    decreases logs.len(),
{
    if logs.len() > 0 {
        law_borrows_are_exact(borrowers, logs.drop_last(), a, token);
        lemma_last_log(logs, a, token);
        if is_logged(logs.drop_last(), a, token) {
            let i = choose|i: int|
                0 <= i < logs.drop_last().len() && (#[trigger] logs.drop_last()[i]).on_behalf_of
                    == a && logs.drop_last()[i].reserve == token;
            assert(is_named(logs.drop_last(), a));
        }
    }
}

/// From supplies nothing is learnt but what they say: the borrowers are who they were, their
/// collateral has grown by the tokens of the supplies on their behalf and by no others, and their
/// debt is what it was.
pub proof fn law_supplies_are_exact(
    borrowers: Map<Address, BorrowerView>,
    logs: Seq<ReserveLog>,
    a: Address,
    token: Address,
)
    ensures
        ({
            let after = after_supplies(borrowers, logs);
            &&& after.contains_key(a) <==> borrowers.contains_key(a)
            &&& borrowers.contains_key(a) ==> {
                &&& after[a].address == borrowers[a].address
                &&& after[a].collateral.contains(token) <==> borrowers[a].collateral.contains(token)
                    || is_logged(logs, a, token)
                &&& after[a].debt.contains(token) <==> borrowers[a].debt.contains(token)
            }
        }),
    decreases logs.len(),
{
    if logs.len() > 0 {
        law_supplies_are_exact(borrowers, logs.drop_last(), a, token);
        lemma_last_log(logs, a, token);
    }
}

/// Once an update saves, nothing has been learnt but what the logs say: an account is a borrower
/// exactly if it was one before or some borrow is on its behalf, its debt is the old one with the
/// tokens of the borrows on its behalf, and its collateral is the old one with the tokens of the
/// supplies on its behalf.
pub proof fn law_update_learns_exactly(
    from: u64,
    latest: u64,
    initial: Map<Address, BorrowerView>,
    events: Seq<UpdateEvent>,
    a: Address,
    token: Address,
)
    requires
        is_history(starts(from, latest, initial), events),
        runs(starts(from, latest, initial), events).run.awaited == Awaited::Save,
    ensures
        ({
            let start = starts(from, latest, initial);
            let now = runs(start, events).borrowers;
            let borrows = logs_read(start, events, false);
            let supplies = logs_read(start, events, true);
            let known = initial.contains_key(a);
            &&& now.contains_key(a) <==> known || is_named(borrows, a)
            &&& now.contains_key(a) ==> {
                &&& now[a].address == if known {
                    initial[a].address
                } else {
                    a
                }
                &&& now[a].debt.contains(token) <==> (known && initial[a].debt.contains(token))
                    || is_logged(borrows, a, token)
                &&& now[a].collateral.contains(token) <==> (known && initial[a].collateral.contains(
                    token,
                )) || is_logged(supplies, a, token)
            }
        }),
{
    let start = starts(from, latest, initial);
    let borrows = logs_read(start, events, false);
    let supplies = logs_read(start, events, true);
    law_whole_update(from, latest, initial, events);
    law_borrows_are_exact(initial, borrows, a, token);
    law_supplies_are_exact(after_borrows(initial, borrows), supplies, a, token);
}

/// Every borrow is applied and then written to the cache, under the last block of its chunk.
pub proof fn law_borrow_is_written(
    run: UpdateRunView,
    borrowers: Map<Address, BorrowerView>,
    rest: Seq<ReserveLog>,
)
    requires
        !run.supplies,
        rest.len() > 0,
    ensures
        ({
            let after = applies(run, borrowers, rest);
            &&& after.action == UpdateActionView::WriteIntermediateCache(
                run.chunks[run.chunk].end,
                after.borrowers,
            )
            &&& after.borrowers == after_borrow(borrowers, rest[0])
            &&& after.run.rest == rest.skip(1)
            &&& after.run.awaited == Awaited::Write
            &&& after.run.chunk == run.chunk
            &&& !after.run.supplies
        }),
{
    assert(rest.drop_first() =~= rest.skip(1));
}

/// Supplies of strangers are passed over. The first one of a borrower is applied once the borrowers
/// as they were before it are written to the cache, under the last block of its chunk.
pub proof fn law_supply_is_written(
    run: UpdateRunView,
    borrowers: Map<Address, BorrowerView>,
    rest: Seq<ReserveLog>,
    k: int,
)
    requires
        run.supplies,
        0 <= k < rest.len(),
        forall|j: int|
            0 <= j < k ==> !borrowers.contains_key((#[trigger] rest[j]).on_behalf_of),
        borrowers.contains_key(rest[k].on_behalf_of),
    ensures
        ({
            let after = applies(run, borrowers, rest);
            &&& after.action == UpdateActionView::WriteIntermediateCache(
                run.chunks[run.chunk].end,
                borrowers,
            )
            &&& after.borrowers == after_supply(borrowers, rest[k])
            &&& after.run.rest == rest.skip(k + 1)
            &&& after.run.awaited == Awaited::Write
            &&& after.run.chunk == run.chunk
            &&& after.run.supplies
        }),
    decreases k,
{
    let later = rest.drop_first();
    if k == 0 {
        assert(later =~= rest.skip(1));
    } else {
        assert(!borrowers.contains_key(rest[0].on_behalf_of));
        assert forall|j: int| 0 <= j < k - 1 implies !borrowers.contains_key(
            (#[trigger] later[j]).on_behalf_of,
        ) by {
            assert(later[j] == rest[j + 1]);
        }
        assert(later[k - 1] == rest[k]);
        law_supply_is_written(run, borrowers, later, k - 1);
        assert(later.skip(k) =~= rest.skip(k + 1));
    }
}

/// What an update asks for it also waits for, and nothing else.
pub proof fn law_update_awaits_its_action(
    from: u64,
    latest: u64,
    initial: Map<Address, BorrowerView>,
    events: Seq<UpdateEvent>,
    event: UpdateEvent,
)
    requires
        is_history(starts(from, latest, initial), events),
    ensures
        ({
            let now = runs(starts(from, latest, initial), events);
            now.run.awaits(event) <==> match now.action {
                UpdateActionView::GetBorrowLogs(_) => event is Logs,
                UpdateActionView::GetSupplyLogs(_) => event is Logs,
                UpdateActionView::WriteIntermediateCache(_, _) => event is Written,
                UpdateActionView::WriteCache(_, _) => event is Written,
                UpdateActionView::Finish => false,
            }
        }),
{
    law_whole_update(from, latest, initial, events);
}

/// A step of an update changes nothing of a strategy but its borrowers and, as soon as the final
/// cache is to be written, the block that the chain was read up to: that is then the latest one,
/// and the one that the cache is written for. The action that is handed out is the one that the
/// outcome names, with the borrowers that it names.
pub proof fn law_update_is_recorded(
    outcome: UpdateOutcome,
    before: AaveStrategy,
    after: AaveStrategy,
    run: UpdateRun,
    action: UpdateAction,
)
    requires
        comes_to(outcome, before, after, run, action),
    ensures
        run@ == outcome.run,
        after.borrowers@ == outcome.borrowers,
        after.bid_percentage == before.bid_percentage,
        after.tokens == before.tokens,
        after.chain_id == before.chain_id,
        after.config == before.config,
        after.liquidator == before.liquidator,
        match outcome.action {
            UpdateActionView::GetBorrowLogs(range) => action == UpdateAction::GetBorrowLogs(range)
                && after.last_block_number == before.last_block_number,
            UpdateActionView::GetSupplyLogs(range) => action == UpdateAction::GetSupplyLogs(range)
                && after.last_block_number == before.last_block_number,
            UpdateActionView::WriteIntermediateCache(block, known) => {
                &&& action matches UpdateAction::WriteIntermediateCache(cache)
                &&& cache.last_block_number == block
                &&& cache.borrowers@ == known
                &&& after.last_block_number == before.last_block_number
            },
            UpdateActionView::WriteCache(block, known) => {
                &&& action matches UpdateAction::WriteCache(cache)
                &&& cache.last_block_number == block
                &&& cache.borrowers@ == known
                &&& after.last_block_number == outcome.run.latest
            },
            UpdateActionView::Finish => action == UpdateAction::Finish && after.last_block_number
                == before.last_block_number,
        },
{
}

} // verus!

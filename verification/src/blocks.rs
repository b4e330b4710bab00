//! Ranges of blocks that are asked for events.
use vstd::prelude::*;

verus! {

/// How many blocks one request for events spans.
pub const LOG_BLOCK_RANGE: u64 = 1000;

/// How many blocks are read before their events are applied.
pub const BLOCK_CHUNK_SIZE: u64 = 1_000_000;

/// A range of blocks.
#[derive(Clone, Copy, Debug, PartialEq, Eq, Structural)]
pub struct BlockRange {
    pub start: u64,
    pub end: u64,
}

/// How many steps of a given length it takes from one block up to another.
pub open spec fn step_count(from: u64, to: u64, step: u64) -> nat {
    if from < to {
        ((to - from - 1) / step as int + 1) as nat
    } else {
        0
    }
}

/// The block at which a step starts.
pub open spec fn step_start(from: u64, step: u64, i: int) -> int {
    from + i * step
}

/// Whether the block behind every step can be numbered.
pub open spec fn steps_fit(from: u64, to: u64, step: u64) -> bool {
    from < to ==> step_start(from, step, step_count(from, to, step) as int) <= u64::MAX
}

/// The chunks that a span of blocks is cut into, each one up to where the next one starts and
/// the last one up to the end of the span.
pub open spec fn chunks_of(from: u64, to: u64) -> Seq<BlockRange> {
    Seq::new(
        step_count(from, to, BLOCK_CHUNK_SIZE),
        |i: int|
            BlockRange {
                start: step_start(from, BLOCK_CHUNK_SIZE, i) as u64,
                end: if step_start(from, BLOCK_CHUNK_SIZE, i + 1) < to {
                    step_start(from, BLOCK_CHUNK_SIZE, i + 1) as u64
                } else {
                    to
                },
            },
    )
}

/// How many requests it takes to ask for a span of blocks, its last block included.
pub open spec fn request_count(from: u64, to: u64) -> nat {
    if from <= to {
        ((to - from) / LOG_BLOCK_RANGE as int + 1) as nat
    } else {
        0
    }
}

/// The requests for events that a span of blocks is cut into, first and last block included:
/// each one up to the block before the next one, and the last one up to the end of the span.
pub open spec fn log_ranges_of(from: u64, to: u64) -> Seq<BlockRange> {
    Seq::new(
        request_count(from, to),
        |i: int|
            BlockRange {
                start: step_start(from, LOG_BLOCK_RANGE, i) as u64,
                end: if step_start(from, LOG_BLOCK_RANGE, i + 1) - 1 < to {
                    (step_start(from, LOG_BLOCK_RANGE, i + 1) - 1) as u64
                } else {
                    to
                },
            },
    )
}

/// A step lies within the span exactly if its number is below the count of steps.
proof fn lemma_step_count(from: u64, to: u64, step: u64, i: int)
    requires
        0 < step,
        0 <= i,
    ensures
        step_start(from, step, i) < to <==> i < step_count(from, to, step),
        from <= step_start(from, step, i),
        step_start(from, step, i + 1) == step_start(from, step, i) + step,
{
    assert(step_start(from, step, i + 1) == step_start(from, step, i) + step) by (nonlinear_arith);
    assert(0 <= i * step) by (nonlinear_arith)
        requires
            0 <= i,
            0 < step,
    ;
    if from < to {
        let span = to - from - 1;
        let last = span / step as int;
        assert(last * step <= span < (last + 1) * step) by (nonlinear_arith)
            requires
                0 < step,
                last == span / step as int,
        ;
        if i <= last {
            assert(i * step <= last * step) by (nonlinear_arith)
                requires
                    i <= last,
                    0 < step,
            ;
        } else {
            assert((last + 1) * step <= i * step) by (nonlinear_arith)
                requires
                    last + 1 <= i,
                    0 < step,
            ;
        }
    }
}

/// Steps that lie within a span of numberable blocks can themselves be numbered.
proof fn lemma_steps_fit(from: u64, to: u64, step: u64, i: int)
    requires
        0 < step,
        steps_fit(from, to, step),
        0 <= i < step_count(from, to, step),
    ensures
        step_start(from, step, i + 1) <= u64::MAX,
{
    let n = step_count(from, to, step) as int;
    assert((i + 1) * step <= n * step) by (nonlinear_arith)
        requires
            i + 1 <= n,
            0 < step,
    ;
}

/// Whether the block behind every step can be numbered.
pub fn block_steps_fit(from: u64, to: u64, step: u64) -> (r: bool)
    requires
        0 < step,
    ensures
        r == steps_fit(from, to, step),
{
    if from < to {
        let last: u64 = (to - from - 1) / step;
        proof {
            lemma_step_count(from, to, step, last as int);
            assert(last * step <= to - from - 1) by (nonlinear_arith)
                requires
                    0 < step,
                    last == (to - from - 1) / step as int,
            ;
        }
        from + last * step <= u64::MAX - step
    } else {
        true
    }
}

/// Cuts a span of blocks into chunks.
pub fn block_chunks(from: u64, to: u64) -> (r: Vec<BlockRange>)
    requires
        steps_fit(from, to, BLOCK_CHUNK_SIZE),
    ensures
        r@ == chunks_of(from, to),
{
    let mut chunks: Vec<BlockRange> = Vec::new();
    let mut start: u64 = from;
    proof {
        lemma_step_count(from, to, BLOCK_CHUNK_SIZE, 0);
    }
    while start < to
        invariant
            steps_fit(from, to, BLOCK_CHUNK_SIZE),
            start == step_start(from, BLOCK_CHUNK_SIZE, chunks@.len() as int),
            start < to <==> chunks@.len() < step_count(from, to, BLOCK_CHUNK_SIZE),
            chunks@.len() <= step_count(from, to, BLOCK_CHUNK_SIZE),
            chunks@ == chunks_of(from, to).take(chunks@.len() as int),
        decreases step_count(from, to, BLOCK_CHUNK_SIZE) - chunks@.len(),
    {
        proof {
            lemma_step_count(from, to, BLOCK_CHUNK_SIZE, chunks@.len() as int);
            lemma_step_count(from, to, BLOCK_CHUNK_SIZE, chunks@.len() as int + 1);
            lemma_steps_fit(from, to, BLOCK_CHUNK_SIZE, chunks@.len() as int);
        }
        let next: u64 = start + BLOCK_CHUNK_SIZE;
        let end: u64 = if next < to {
            next
        } else {
            to
        };
        chunks.push(BlockRange { start, end });
        assert(chunks@ =~= chunks_of(from, to).take(chunks@.len() as int));
        start = next;
    }
    chunks
}

/// Cuts a span of blocks, its last block included, into requests for events.
pub fn log_ranges(from: u64, to: u64) -> (r: Vec<BlockRange>)
    ensures
        r@ == log_ranges_of(from, to),
{
    let mut ranges: Vec<BlockRange> = Vec::new();
    if from > to {
        assert(ranges@ =~= log_ranges_of(from, to));
        return ranges;
    }
    let mut start: u64 = from;
    while to - start >= LOG_BLOCK_RANGE
        invariant
            from <= start <= to,
            start == step_start(from, LOG_BLOCK_RANGE, ranges@.len() as int),
            ranges@.len() < request_count(from, to),
            ranges@ == log_ranges_of(from, to).take(ranges@.len() as int),
        decreases to - start,
    {
        ranges.push(BlockRange { start, end: start + (LOG_BLOCK_RANGE - 1) });
        assert(ranges@ =~= log_ranges_of(from, to).take(ranges@.len() as int));
        start = start + LOG_BLOCK_RANGE;
    }
    ranges.push(BlockRange { start, end: to });
    assert(ranges@ =~= log_ranges_of(from, to));
    ranges
}

/// Whether a request asks for a block.
pub open spec fn asks_for(range: BlockRange, block: u64) -> bool {
    range.start <= block <= range.end
}

/// A block of a span below its end lies within one of its steps.
proof fn lemma_step_of(from: u64, to: u64, step: u64, block: u64) -> (i: int)
    requires
        0 < step,
        from <= block < to,
    ensures
        0 <= i < step_count(from, to, step),
        step_start(from, step, i) <= block < step_start(from, step, i + 1),
{
    let i = (block - from) / step as int;
    assert(i * step <= block - from < (i + 1) * step && 0 <= i) by (nonlinear_arith)
        requires
            0 < step,
            from <= block,
            i == (block - from) / step as int,
    ;
    lemma_step_count(from, to, step, i);
    i
}

/// No request reaches outside the span that it was cut from, none is empty, and none asks for more
/// blocks than it may.
pub proof fn law_requests_stay_in_span(from: u64, to: u64, i: int)
    requires
        0 <= i < log_ranges_of(from, to).len(),
    ensures
        from <= log_ranges_of(from, to)[i].start <= log_ranges_of(from, to)[i].end <= to,
        log_ranges_of(from, to)[i].end - log_ranges_of(from, to)[i].start < LOG_BLOCK_RANGE,
{
}

/// Every block of a span, from the first to the last, is asked for, and by one request only.
pub proof fn law_requests_cover_span(from: u64, to: u64, block: u64)
    requires
        from <= block <= to,
    ensures
        exists|i: int|
            0 <= i < log_ranges_of(from, to).len() && asks_for(
                #[trigger] log_ranges_of(from, to)[i],
                block,
            ),
        forall|i: int, j: int|
            0 <= i < log_ranges_of(from, to).len() && 0 <= j < log_ranges_of(from, to).len()
                && asks_for(#[trigger] log_ranges_of(from, to)[i], block) && asks_for(
                #[trigger] log_ranges_of(from, to)[j],
                block,
            ) ==> i == j,
{
    let k = (block - from) / LOG_BLOCK_RANGE as int;
    assert(asks_for(log_ranges_of(from, to)[k], block));
}

/// The chunks follow on one another without a gap, from the start of the span to its end.
pub proof fn law_chunks_follow_on(from: u64, to: u64)
    requires
        from < to,
        steps_fit(from, to, BLOCK_CHUNK_SIZE),
    ensures
        chunks_of(from, to).len() > 0,
        chunks_of(from, to)[0].start == from,
        chunks_of(from, to).last().end == to,
        forall|i: int|
            0 <= i < chunks_of(from, to).len() ==> (#[trigger] chunks_of(from, to)[i]).start
                < chunks_of(from, to)[i].end && chunks_of(from, to)[i].end <= to,
        forall|i: int, j: int|
            0 <= i && j == i + 1 && j < chunks_of(from, to).len() ==> (#[trigger] chunks_of(
                from,
                to,
            )[i]).end == (#[trigger] chunks_of(from, to)[j]).start,
{
    let n = step_count(from, to, BLOCK_CHUNK_SIZE) as int;
    lemma_step_count(from, to, BLOCK_CHUNK_SIZE, 0);
    lemma_step_count(from, to, BLOCK_CHUNK_SIZE, n);
    lemma_step_count(from, to, BLOCK_CHUNK_SIZE, n - 1);
    assert forall|i: int| 0 <= i < chunks_of(from, to).len() implies (#[trigger] chunks_of(
        from,
        to,
    )[i]).start < chunks_of(from, to)[i].end && chunks_of(from, to)[i].end <= to by {
        lemma_step_count(from, to, BLOCK_CHUNK_SIZE, i);
        lemma_steps_fit(from, to, BLOCK_CHUNK_SIZE, i);
    }
    assert forall|i: int, j: int|
        0 <= i && j == i + 1 && j < chunks_of(from, to).len() implies (#[trigger] chunks_of(
        from,
        to,
    )[i]).end == (#[trigger] chunks_of(from, to)[j]).start by {
        lemma_step_count(from, to, BLOCK_CHUNK_SIZE, j);
    }
}

/// Every block of a span, from the first to the last, is asked for on behalf of one of its chunks.
/// Two requests for the same block are one request, unless the block is the seam of two chunks:
/// the end of the one and the start of the next.
pub proof fn law_chunks_cover_span(from: u64, to: u64, block: u64)
    requires
        steps_fit(from, to, BLOCK_CHUNK_SIZE),
        from < to,
        from <= block <= to,
    ensures
        exists|c: int, i: int|
            0 <= c < chunks_of(from, to).len() && 0 <= i < log_ranges_of(
                chunks_of(from, to)[c].start,
                chunks_of(from, to)[c].end,
            ).len() && asks_for(
                #[trigger] log_ranges_of(chunks_of(from, to)[c].start, chunks_of(from, to)[c].end)[i],
                block,
            ),
        forall|c: int, d: int, i: int, j: int|
            0 <= c <= d < chunks_of(from, to).len() && 0 <= i < log_ranges_of(
                chunks_of(from, to)[c].start,
                chunks_of(from, to)[c].end,
            ).len() && 0 <= j < log_ranges_of(
                chunks_of(from, to)[d].start,
                chunks_of(from, to)[d].end,
            ).len() && asks_for(
                #[trigger] log_ranges_of(chunks_of(from, to)[c].start, chunks_of(from, to)[c].end)[i],
                block,
            ) && asks_for(
                #[trigger] log_ranges_of(chunks_of(from, to)[d].start, chunks_of(from, to)[d].end)[j],
                block,
            ) ==> (c == d && i == j) || (d == c + 1 && chunks_of(from, to)[c].end == block
                && chunks_of(from, to)[d].start == block),
{
    let chunks = chunks_of(from, to);
    law_chunks_follow_on(from, to);
    let k = if block < to {
        lemma_step_of(from, to, BLOCK_CHUNK_SIZE, block)
    } else {
        chunks.len() - 1
    };
    lemma_step_count(from, to, BLOCK_CHUNK_SIZE, k);
    law_requests_cover_span(chunks[k].start, chunks[k].end, block);
    assert forall|c: int, d: int, i: int, j: int|
        0 <= c <= d < chunks.len() && 0 <= i < log_ranges_of(
            chunks[c].start,
            chunks[c].end,
        ).len() && 0 <= j < log_ranges_of(chunks[d].start, chunks[d].end).len() && asks_for(
            #[trigger] log_ranges_of(chunks[c].start, chunks[c].end)[i],
            block,
        ) && asks_for(
            #[trigger] log_ranges_of(chunks[d].start, chunks[d].end)[j],
            block,
        ) implies (c == d && i == j) || (d == c + 1 && chunks[c].end == block && chunks[d].start
        == block) by {
        law_requests_stay_in_span(chunks[c].start, chunks[c].end, i);
        law_requests_stay_in_span(chunks[d].start, chunks[d].end, j);
        if c == d {
            law_requests_cover_span(chunks[c].start, chunks[c].end, block);
        } else {
            lemma_step_count(from, to, BLOCK_CHUNK_SIZE, c + 1);
            lemma_step_count(from, to, BLOCK_CHUNK_SIZE, d);
        }
    }
}

/// The blocks behind the steps can be numbered exactly if every step that starts within the span
/// ends at a block that can be numbered.
pub proof fn law_steps_fit(from: u64, to: u64, step: u64)
    requires
        0 < step,
    ensures
        steps_fit(from, to, step) <==> forall|i: nat|
            from + #[trigger] (i * step) < to ==> from + i * step + step <= u64::MAX,
{
    let n = step_count(from, to, step) as int;
    if steps_fit(from, to, step) {
        assert forall|i: nat| from + #[trigger] (i * step) < to implies from + i * step + step
            <= u64::MAX by {
            lemma_step_count(from, to, step, i as int);
            assert(from <= from + i * step) by (nonlinear_arith);
            lemma_steps_fit(from, to, step, i as int);
        }
    } else {
        let last = (n - 1) as nat;
        lemma_step_count(from, to, step, last as int);
        assert(from + last * step < to);
    }
}

/// All chunks but the last one are a million blocks long, and the last one is no longer. A span
/// without new blocks has no chunk.
pub proof fn law_chunks_are_full(from: u64, to: u64, i: int)
    requires
        steps_fit(from, to, BLOCK_CHUNK_SIZE),
    ensures
        from >= to ==> chunks_of(from, to).len() == 0,
        0 <= i < chunks_of(from, to).len() - 1 ==> chunks_of(from, to)[i].end
            - chunks_of(from, to)[i].start == 1_000_000,
        0 <= i < chunks_of(from, to).len() ==> 0 < chunks_of(from, to)[i].end
            - chunks_of(from, to)[i].start <= 1_000_000,
{
    if 0 <= i < chunks_of(from, to).len() {
        lemma_step_count(from, to, BLOCK_CHUNK_SIZE, i);
        lemma_step_count(from, to, BLOCK_CHUNK_SIZE, i + 1);
        lemma_steps_fit(from, to, BLOCK_CHUNK_SIZE, i);
    }
}

/// The requests follow on one another from the first block of the span to the last one, and all but
/// the last one ask for a thousand blocks. A span that ends before it starts has no request.
pub proof fn law_requests_follow_on(from: u64, to: u64, i: int)
    ensures
        from > to <==> log_ranges_of(from, to).len() == 0,
        from <= to ==> log_ranges_of(from, to)[0].start == from && log_ranges_of(from, to).last().end
            == to,
        0 <= i < log_ranges_of(from, to).len() - 1 ==> log_ranges_of(from, to)[i + 1].start
            == log_ranges_of(from, to)[i].end + 1 && log_ranges_of(from, to)[i].end + 1
            - log_ranges_of(from, to)[i].start == 1000,
{
}

} // verus!

use vstd::prelude::*;

verus! {

/// Preferred length of one chunk of a parallel plan: 10 MiB.
pub const TARGET_CHUNK_SIZE: u64 = 10485760;

/// Upper bound on the number of ranges of a parallel plan.
pub const MAX_CHUNKS: u64 = 16;

/// One inclusive byte range `[start, end]` of the resource, with its completion flag.
#[derive(Clone, Copy, Debug, PartialEq, Eq, Structural)]
pub struct ChunkState {
    pub start: u64,
    pub end: u64,
    pub completed: bool,
}

/// Number of ranges that the planner cuts a resource of `total` bytes into.
pub open spec fn plan_count(total: nat, parallel: bool) -> nat {
    if !parallel || total < TARGET_CHUNK_SIZE {
        1
    } else if total / (TARGET_CHUNK_SIZE as nat) > MAX_CHUNKS {
        MAX_CHUNKS as nat
    } else {
        total / (TARGET_CHUNK_SIZE as nat)
    }
}

/// Length of every range but possibly the last: `ceil(total / plan_count)`.
pub open spec fn plan_chunk_len(total: nat, parallel: bool) -> nat {
    let n = plan_count(total, parallel);
    ((total + n - 1) as nat) / n
}

/// The `i`-th range of the plan: `[i * len, min((i + 1) * len - 1, total - 1)]`, not completed.
pub open spec fn planned_chunk(total: nat, parallel: bool, i: int) -> ChunkState {
    let len = plan_chunk_len(total, parallel);
    let start = i * len;
    let end = if (i + 1) * len - 1 < total - 1 {
        (i + 1) * len - 1
    } else {
        total - 1
    };
    ChunkState { start: start as u64, end: end as u64, completed: false }
}

/// The whole plan. An empty resource is planned as the single range `[0, 0]`, already complete.
pub open spec fn planned(total: nat, parallel: bool) -> Seq<ChunkState> {
    if total == 0 {
        seq![ChunkState { start: 0, end: 0, completed: true }]
    } else {
        Seq::new(plan_count(total, parallel), |i: int| planned_chunk(total, parallel, i))
    }
}

/// Size in bytes of one range.
pub open spec fn chunk_bytes(c: ChunkState) -> int {
    c.end - c.start + 1
}

/// Byte `b` lies in the range `c`.
pub open spec fn holds_byte(c: ChunkState, b: int) -> bool {
    c.start <= b <= c.end
}

/// Byte `b` lies in one of the ranges of `chunks`.
pub open spec fn byte_covered(chunks: Seq<ChunkState>, b: int) -> bool {
    exists|i: int| 0 <= i < chunks.len() && #[trigger] holds_byte(chunks[i], b)
}

/// `chunks` are ordered, non-empty, contiguous ranges whose union is exactly `[0, total - 1]`.
pub open spec fn covers_exactly(chunks: Seq<ChunkState>, total: nat) -> bool {
    &&& total > 0
    &&& chunks.len() > 0
    &&& chunks[0].start == 0
    &&& chunks.last().end == total - 1
    &&& forall|i: int| 0 <= i < chunks.len() ==> #[trigger] chunks[i].start <= chunks[i].end
    &&& forall|i: int|
        0 <= i < chunks.len() - 1 ==> #[trigger] chunks[i + 1].start == chunks[i].end + 1
}

proof fn lemma_plan_arith(total: nat, parallel: bool)
    requires
        total > 0,
    ensures
        1 <= plan_count(total, parallel) <= MAX_CHUNKS,
        !parallel ==> plan_count(total, parallel) == 1,
        plan_chunk_len(total, parallel) >= 1,
        plan_count(total, parallel) * plan_chunk_len(total, parallel) >= total,
        (plan_count(total, parallel) - 1) * plan_chunk_len(total, parallel) < total,
{
    let n = plan_count(total, parallel);
    let len = plan_chunk_len(total, parallel);
    assert(n * len >= total && n * len <= total + n - 1) by (nonlinear_arith)
        requires
            n >= 1,
            len == ((total + n - 1) as nat) / n,
    ;
    if n > 1 {
        assert(total >= TARGET_CHUNK_SIZE * n) by (nonlinear_arith)
            requires
                n <= total / (TARGET_CHUNK_SIZE as nat),
        ;
        assert(len >= TARGET_CHUNK_SIZE) by (nonlinear_arith)
            requires
                n * len >= total,
                total >= TARGET_CHUNK_SIZE * n,
                n >= 1,
        ;
        assert((n - 1) * len < total) by (nonlinear_arith)
            requires
                n * len <= total + n - 1,
                len >= TARGET_CHUNK_SIZE,
                n <= MAX_CHUNKS,
        ;
    } else {
        assert(len >= 1);
    }
}

/// Every plan of a non-empty resource covers it: its ranges are non-overlapping and
/// contiguous, start at byte 0, end at byte `total - 1`, and every byte lies in one of them.
pub proof fn lemma_plan_covers(total: nat, parallel: bool)
    requires
        0 < total <= u64::MAX,
    ensures
        covers_exactly(planned(total, parallel), total),
        forall|b: int| 0 <= b < total ==> #[trigger] byte_covered(planned(total, parallel), b),
{
    lemma_plan_arith(total, parallel);
    let n = plan_count(total, parallel);
    let len = plan_chunk_len(total, parallel);
    let p = planned(total, parallel);
    assert forall|i: int| 0 <= i < n implies p[i].start == i * len && i * len < total
        && p[i].end as int == (if (i + 1) * len - 1 < total - 1 {
        (i + 1) * len - 1
    } else {
        total - 1
    }) by {
        assert(i * len <= (n - 1) * len) by (nonlinear_arith)
            requires
                0 <= i < n,
                len >= 1,
        ;
        assert((i + 1) * len == i * len + len) by (nonlinear_arith);
    }
    assert forall|i: int| 0 <= i < p.len() implies #[trigger] p[i].start <= p[i].end by {
        assert((i + 1) * len == i * len + len) by (nonlinear_arith);
    }
    assert forall|i: int| 0 <= i < p.len() - 1 implies #[trigger] p[i + 1].start == p[i].end + 1 by {
        assert((i + 1) * len <= (n - 1) * len) by (nonlinear_arith)
            requires
                0 <= i < n - 1,
                len >= 1,
        ;
    }
    assert(p[0].start == 0) by {
        assert(0 * len == 0) by (nonlinear_arith);
    }
    assert(p.last().end == total - 1) by {
        assert(n * len == (n - 1) * len + len) by (nonlinear_arith);
    }
    assert forall|b: int| 0 <= b < total implies #[trigger] byte_covered(p, b) by {
        let i = b / (len as int);
        assert(i * len <= b && b < (i + 1) * len && 0 <= i) by (nonlinear_arith)
            requires
                i == b / (len as int),
                len >= 1,
                b >= 0,
        ;
        assert(i < n) by (nonlinear_arith)
            requires
                i * len <= b,
                b < total,
                n * len >= total,
                len >= 1,
        ;
        assert(holds_byte(p[i], b));
    }
}

/// A parallel plan holds at most sixteen ranges; a sequential plan holds exactly one.
pub proof fn lemma_plan_bounds(total: nat)
    ensures
        planned(total, true).len() <= MAX_CHUNKS,
        planned(total, false).len() == 1,
{
    if total > 0 {
        lemma_plan_arith(total, true);
        lemma_plan_arith(total, false);
    }
}

/// Plans the byte ranges of a resource of `total_size` bytes: one range when `is_multipart`
/// is false or the resource is under `TARGET_CHUNK_SIZE`, else up to `MAX_CHUNKS` ranges
/// of equal length (the last one possibly shorter).
pub fn create_chunks(total_size: u64, is_multipart: bool) -> (r: Vec<ChunkState>)
    ensures
        r@ == planned(total_size as nat, is_multipart),
{
    if total_size == 0 {
        return vec![ChunkState { start: 0, end: 0, completed: true }];
    }
    proof {
        lemma_plan_arith(total_size as nat, is_multipart);
    }
    let n: u64 = if !is_multipart || total_size < TARGET_CHUNK_SIZE {
        1
    } else if total_size / TARGET_CHUNK_SIZE > MAX_CHUNKS {
        MAX_CHUNKS
    } else {
        total_size / TARGET_CHUNK_SIZE
    };
    assert(n == plan_count(total_size as nat, is_multipart));
    assert(total_size % n != 0 ==> total_size / n < u64::MAX) by (nonlinear_arith)
        requires
            n >= 1,
    ;
    let len: u64 = total_size / n + if total_size % n == 0 {
        0
    } else {
        1
    };
    assert(len == plan_chunk_len(total_size as nat, is_multipart)) by (nonlinear_arith)
        requires
            n >= 1,
            len == total_size / n + if total_size % n == 0 {
                0int
            } else {
                1int
            },
            plan_chunk_len(total_size as nat, is_multipart) == ((total_size + n - 1) as nat) / (
            n as nat),
    ;
    let ghost spec_plan = planned(total_size as nat, is_multipart);
    let mut chunks: Vec<ChunkState> = Vec::new();
    let mut i: u64 = 0;
    let mut start: u64 = 0;
    assert(0 * len == 0) by (nonlinear_arith);
    while i < n
        invariant
            n == plan_count(total_size as nat, is_multipart),
            len == plan_chunk_len(total_size as nat, is_multipart),
            spec_plan == planned(total_size as nat, is_multipart),
            total_size > 0,
            1 <= n <= MAX_CHUNKS,
            len >= 1,
            (n - 1) * len < total_size,
            i <= n,
            i < n ==> start as int == i as int * len as int,
            chunks@ == spec_plan.take(i as int),
        decreases n - i,
    {
        assert(i * len <= (n - 1) * len) by (nonlinear_arith)
            requires
                i < n,
                len >= 1,
        ;
        assert((i + 1) * len == i * len + len) by (nonlinear_arith);
        let end: u64 = if len - 1 < total_size - 1 - start {
            start + (len - 1)
        } else {
            total_size - 1
        };
        let c = ChunkState { start, end, completed: false };
        assert(c == spec_plan[i as int]);
        chunks.push(c);
        assert(chunks@ =~= spec_plan.take(i as int + 1));
        i = i + 1;
        assert(i < n ==> i * len <= (n - 1) * len) by (nonlinear_arith)
            requires
                len >= 1,
        ;
        if i < n {
            start = start + len;
        }
    }
    assert(chunks@ =~= spec_plan);
    chunks
}

} // verus!

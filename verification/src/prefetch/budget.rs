//! How many workers a pool has and how much it may hold.

use vstd::prelude::*;

use crate::pixel::pixel_format;
use crate::pixel::pixel_format::saturating_product;

verus! {

/// Decoded data the pool keeps for small frames, and the floor of the
/// automatic budget.
pub const DEFAULT_BYTE_BUDGET: usize = 192 * 1024 * 1024;

/// Extra cached frames kept beyond the lookahead window.
pub const READY_ENTRY_MARGIN: usize = 4;

/// Upper bound on the lookahead window, regardless of the worker count.
pub const MAX_WINDOW: usize = 16;

/// Upper bound on the number of workers a `prefetch` argument can request.
pub const MAX_WORKERS: usize = 16;

/// Upper bound on the automatically selected worker count.
pub const AUTO_MAX_WORKERS: usize = 4;

/// Seconds after which a consumer stops waiting for an in-flight decode.
pub const WAIT_TIMEOUT_SECONDS: u64 = 30;

/// Worker count used when the `prefetch` argument is omitted, on a machine with
/// `parallelism` logical cores.
///
/// Leaves headroom for the requesting thread and the rest of the graph by using
/// half of the logical cores, clamped to a small number of workers.
pub fn automatic_workers(parallelism: usize) -> (workers: usize)
    ensures
        workers == (if parallelism / 2 > AUTO_MAX_WORKERS {
            AUTO_MAX_WORKERS
        } else {
            parallelism / 2
        }),
{
    if parallelism < 2 {
        return 0;
    }
    let half: usize = parallelism / 2;
    if half > AUTO_MAX_WORKERS {
        AUTO_MAX_WORKERS
    } else {
        half
    }
}

/// The largest of `sizes`, zero when there are none.
pub open spec fn largest(sizes: Seq<usize>) -> int
    decreases sizes.len(),
{
    if sizes.len() == 0 {
        0
    } else if sizes.last() > largest(sizes.drop_last()) {
        sizes.last() as int
    } else {
        largest(sizes.drop_last())
    }
}

/// What the pool may hold when nothing else is asked for.
pub open spec fn default_budget(sizes: Seq<usize>, window: usize) -> int {
    let wanted = pixel_format::saturated(window * largest(sizes));
    if wanted > DEFAULT_BYTE_BUDGET {
        wanted
    } else {
        DEFAULT_BYTE_BUDGET as int
    }
}

/// Byte budget used when the `prefetch_memory` argument is omitted.
///
/// A pool cannot be faster than the payloads it can hold, so the budget follows
/// the requested window, and the floor keeps small frames at a fixed value.
pub fn automatic_budget(sizes: &[usize], window: usize) -> (budget: usize)
    ensures
        budget == default_budget(sizes@, window),
{
    let len: usize = sizes.len();
    let mut most: usize = 0;
    let mut index: usize = 0;
    while index < len
        invariant
            index <= len,
            len == sizes@.len(),
            most == largest(sizes@.take(index as int)),
        decreases len - index,
    {
        let ghost before = sizes@.take(index as int);
        let size: usize = sizes[index];
        if size > most {
            most = size;
        }
        index = index + 1;
        assert(sizes@.take(index as int).drop_last() =~= before);
    }
    assert(sizes@.take(index as int) =~= sizes@);
    let wanted: usize = saturating_product(window, most);
    if wanted > DEFAULT_BYTE_BUDGET {
        wanted
    } else {
        DEFAULT_BYTE_BUDGET
    }
}

/// How many workers a pool of `requested` workers has.
pub fn pool_workers(requested: usize) -> (workers: usize)
    ensures
        workers == (if requested > MAX_WORKERS {
            MAX_WORKERS
        } else {
            requested
        }),
{
    if requested > MAX_WORKERS {
        MAX_WORKERS
    } else {
        requested
    }
}

/// How far ahead a pool of `workers` workers looks: two frames more than it has
/// workers, and nothing at all without any.
pub open spec fn window_of(workers: int) -> int {
    if workers == 0 {
        0
    } else if workers + 2 > MAX_WINDOW {
        MAX_WINDOW as int
    } else {
        workers + 2
    }
}

/// How far ahead a pool looks.
pub fn pool_window(workers: usize) -> (window: usize)
    ensures
        window == window_of(workers as int),
{
    if workers == 0 {
        0
    } else if workers > MAX_WINDOW - 2 {
        MAX_WINDOW
    } else {
        workers + 2
    }
}

/// The automatic budget holds a whole window of the largest payload, and never
/// less than the floor.
pub proof fn the_automatic_budget_holds_the_window(sizes: Seq<usize>, window: usize, index: int)
    requires
        0 <= index < sizes.len(),
    ensures
        default_budget(sizes, window) >= DEFAULT_BYTE_BUDGET,
        window * sizes[index] <= usize::MAX ==> default_budget(sizes, window) >= window
            * sizes[index],
{
    lemma_largest(sizes, index);
    assert(window * sizes[index] <= window * largest(sizes)) by (nonlinear_arith)
        requires
            sizes[index] <= largest(sizes),
            0 <= window,
    ;
}

proof fn lemma_largest(sizes: Seq<usize>, index: int)
    requires
        0 <= index < sizes.len(),
    ensures
        sizes[index] <= largest(sizes),
    decreases sizes.len(),
{
    if index < sizes.len() - 1 {
        lemma_largest(sizes.drop_last(), index);
    }
}

/// A pool looks two frames further ahead than it has workers, never more than sixteen,
/// and not at all without any. More workers never look less far.
pub proof fn a_window_follows_the_workers(workers: int, more: int)
    requires
        0 <= workers <= more,
    ensures
        window_of(0) == 0,
        1 <= workers <= 14 ==> window_of(workers) == workers + 2,
        workers >= 14 ==> window_of(workers) == 16,
        window_of(workers) <= window_of(more),
{
}

proof fn lemma_largest_is_one_of_them(sizes: Seq<usize>)
    ensures
        0 <= largest(sizes) <= usize::MAX,
        sizes.len() > 0 && largest(sizes) > 0 ==> exists|i: int|
            0 <= i < sizes.len() && #[trigger] sizes[i] == largest(sizes),
    decreases sizes.len(),
{
    if sizes.len() > 0 {
        let rest = sizes.drop_last();
        lemma_largest_is_one_of_them(rest);
        if sizes.last() > largest(rest) {
            assert(sizes[sizes.len() - 1] == largest(sizes));
        } else if largest(sizes) > 0 {
            assert(rest.len() > 0);
            let i = choose|i: int| 0 <= i < rest.len() && #[trigger] rest[i] == largest(rest);
            assert(sizes[i] == largest(sizes));
        }
    }
}

/// The automatic budget is no more than it has to be: 192 MiB, or a window of one of
/// the payloads there are.
pub proof fn the_automatic_budget_is_no_more_than_a_window(sizes: Seq<usize>, window: usize)
    ensures
        default_budget(sizes, window) >= 201_326_592,
        default_budget(sizes, window) > 201_326_592 ==> exists|i: int|
            0 <= i < sizes.len() && (#[trigger] sizes[i]) * window >= default_budget(
                sizes,
                window,
            ) && (sizes[i] * window <= usize::MAX ==> default_budget(sizes, window) == sizes[i]
                * window),
{
    lemma_largest_is_one_of_them(sizes);
    if default_budget(sizes, window) > 201_326_592 {
        assert(largest(sizes) > 0) by {
            if largest(sizes) == 0 {
                assert(window * 0 == 0);
            }
        }
        assert(sizes.len() > 0);
        let i = choose|i: int| 0 <= i < sizes.len() && #[trigger] sizes[i] == largest(sizes);
        assert(sizes[i] * window == window * largest(sizes)) by (nonlinear_arith)
            requires
                sizes[i] == largest(sizes),
        ;
    }
}

} // verus!

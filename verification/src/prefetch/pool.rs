//! What a consumer and a worker do with the state of a pool.
//!
//! Everything a request needs is finished before it is cached, so the thread
//! that answers a frame request never decodes or writes pixels. Successful
//! decodes stay cached until they are evicted, so a filter that returns several
//! clips shares one decode per frame.

use vstd::prelude::*;

use crate::decoder::ImageInfo;
use crate::error::{self, ImgSeqError};
use crate::prefetch::budget;
use crate::prefetch::budget::{automatic_budget, pool_window, pool_workers};
use crate::prefetch::state;
use crate::prefetch::state::{
    claim, find_ready, is_in_flight, land, store, Finished, Payload, Prepare, State, StateView,
};
use crate::text;
use crate::text::{decimal, decimal_signed};

verus! {

/// Payload bytes of every image, in order.
pub fn estimates<R: Prepare>(prepare: &R, images: &Vec<ImageInfo>) -> (sizes: Vec<usize>)
    ensures
        sizes@ == Seq::new(images@.len(), |at: int| prepare.estimated(images@[at])),
{
    let mut sizes: Vec<usize> = Vec::new();
    let mut at: usize = 0;
    while at < images.len()
        invariant
            at <= images@.len(),
            sizes@.len() == at,
            forall|before: int|
                0 <= before < at ==> #[trigger] sizes@[before] == prepare.estimated(
                    images@[before],
                ),
        decreases images@.len() - at,
    {
        sizes.push(prepare.estimate(&images[at]));
        at = at + 1;
    }
    assert(sizes@ =~= Seq::new(images@.len(), |at: int| prepare.estimated(images@[at])));
    sizes
}

/// A pool before anything is asked of it.
pub struct Start<P: Payload> {
    /// How many workers to start.
    pub workers: usize,
    pub state: State<P>,
}

/// Plans a pool of `workers` background decoders for payloads of `sizes`.
///
/// A worker count of zero disables lookahead decoding. `budget` is the amount of
/// payload data the pool may hold or have in flight; `None` derives it from the
/// window and the largest payload of the sequence.
pub fn start<P: Payload>(sizes: &[usize], workers: usize, budget: Option<usize>) -> (start: Start<P>)
    ensures
        start.workers == (if workers > budget::MAX_WORKERS {
            budget::MAX_WORKERS
        } else {
            workers
        }),
        ({
            let window = budget::window_of(start.workers as int) as usize;
            start.state@ == StateView::<P>::idle(
                window,
                match budget {
                    Some(budget) => budget,
                    None => budget::default_budget(sizes@, window) as usize,
                },
            )
        }),
        start.state@.valid(),
        start.state@.balanced(),
{
    let workers: usize = pool_workers(workers);
    let window: usize = pool_window(workers);
    let budget: usize = match budget {
        Some(budget) => budget,
        None => automatic_budget(sizes, window),
    };
    Start { workers, state: State::new(window, budget) }
}

/// What a request for a frame the sequence does not have is refused with.
pub open spec fn range_text(index: i32, frames: int) -> Seq<char> {
    "requested frame "@ + text::signed_text(index as int) + ", but the clip has "@
        + text::decimal_text(frames as nat) + " frames"@
}

/// Error for a frame index the sequence does not have.
pub fn out_of_range(index: i32, frames: usize) -> (error: ImgSeqError)
    ensures
        error@ == error::error_text(range_text(index, frames as int)),
{
    let mut message = String::from_str("requested frame ");
    let asked = decimal_signed(index as i64);
    message.append(asked.as_str());
    message.append(", but the clip has ");
    let count = decimal(frames as u64);
    message.append(count.as_str());
    message.append(" frames");
    ImgSeqError::new(message)
}

/// Image of one frame index.
pub fn image_at(images: &Vec<ImageInfo>, index: i32) -> (image: Result<&ImageInfo, ImgSeqError>)
    ensures
        if 0 <= index < images@.len() {
            image == Ok::<&ImageInfo, ImgSeqError>(&images@[index as int])
        } else {
            error::fails_with(image, range_text(index, images@.len() as int))
        },
{
    if index >= 0 && (index as usize) < images.len() {
        Ok(&images[index as usize])
    } else {
        Err(out_of_range(index, images.len()))
    }
}

/// What a consumer that asks for a frame does.
pub enum Answer<P> {
    /// The frame could not be decoded.
    Failed(ImgSeqError),
    /// The frame is cached, and this is a copy of it.
    Cached(P),
    /// The frame is the consumer's own to decode.
    Build,
    /// Another thread is already decoding the frame.
    Wait,
}

/// What answering a request for `index` comes to. A failed decode is reported
/// and forgotten, so that the next request decodes again.
pub open spec fn answered<P: Payload>(
    answer: Answer<P>,
    before: StateView<P>,
    after: StateView<P>,
    index: i32,
) -> bool {
    if state::is_ready(before.ready, index) {
        exists|at: int|
            0 <= at < before.ready.len() && (#[trigger] before.ready[at]).0 == index && match (
                before.ready[at].1,
                answer,
            ) {
                (Err(message), Answer::Failed(error)) => {
                    &&& error@ == error::error_text(message@)
                    &&& after == before.released(at)
                },
                (Ok(payload), Answer::Cached(copy)) => {
                    &&& cloned(payload, copy)
                    &&& after == before
                },
                _ => false,
            }
    } else if before.in_flight.contains(index) {
        answer is Wait && after == before.unqueued(index)
    } else {
        answer is Build && after == (StateView {
            in_flight: before.in_flight.push(index),
            ..before.unqueued(index)
        })
    }
}

/// Answers a request from what is cached, or says what the consumer does
/// instead.
///
/// Several consumers may share one pool: a payload that has already been built
/// is handed out again instead of being decoded twice.
pub fn answer<P: Payload>(state: &mut State<P>, index: i32) -> (answer: Answer<P>)
    requires
        old(state)@.valid(),
    ensures
        answered(answer, old(state)@, final(state)@, index),
        final(state)@.valid(),
{
    let ghost before = state@;
    if let Some(at) = find_ready(&state.ready, index) {
        assert(before.ready[at as int].0 == index);
        if let Ok(payload) = &state.ready[at].1 {
            let copy = payload.clone();
            return Answer::Cached(copy);
        }
        proof {
            state::lemma_released(before, at as int);
        }
        let (_, entry) = state.ready.remove(at);
        return match entry {
            Err(message) => {
                assert(state@ =~= before.released(at as int));
                Answer::Failed(ImgSeqError::new(message))
            },
            Ok(payload) => Answer::Cached(payload),
        };
    }
    if claim(state, index) {
        Answer::Build
    } else {
        Answer::Wait
    }
}

/// Whether the frame a consumer waits for is still being decoded.
pub fn still_building<P: Payload>(state: &State<P>, index: i32) -> (building: bool)
    ensures
        building == (state@.in_flight.contains(index) && !state::is_ready(state@.ready, index)),
{
    is_in_flight(&state.in_flight, index) && find_ready(&state.ready, index).is_none()
}

/// Takes a frame over from a worker that did not deliver in time.
pub fn take_over<P: Payload>(state: &mut State<P>, index: i32)
    requires
        old(state)@.valid(),
    ensures
        final(state)@ == old(state)@.landed(index),
        final(state)@.valid(),
{
    land(state, index);
}

/// Whether `after` is `before` with what a consumer built for `index` in the
/// cache.
pub open spec fn delivered<P: Payload>(
    built: Result<P, ImgSeqError>,
    before: StateView<P>,
    after: StateView<P>,
    index: i32,
) -> bool {
    match built {
        Ok(payload) => exists|copy: P|
            #[trigger] cloned(payload, copy) && after == before.landed(index).stored(
                index,
                Ok(copy),
            ),
        Err(error) => exists|message: String|
            #[trigger] message@ == error@ && after == before.landed(index).stored(
                index,
                Err(message),
            ),
    }
}

/// Caches what a consumer built for a frame it claimed, and hands it back.
pub fn deliver<P: Payload>(state: &mut State<P>, index: i32, built: Result<P, ImgSeqError>) -> (
    result: Result<P, ImgSeqError>)
    requires
        old(state)@.valid(),
    ensures
        result == built,
        delivered(built, old(state)@, final(state)@, index),
        final(state)@.valid(),
{
    land(state, index);
    match built {
        Ok(payload) => {
            let copy = payload.clone();
            let ghost kept = copy;
            store(state, index, Ok(copy));
            assert(cloned(payload, kept));
            Ok(payload)
        },
        Err(error) => {
            let message = error.message();
            let ghost kept = message;
            store(state, index, Err(message));
            assert(kept@ == error@);
            Err(error)
        },
    }
}

/// What a worker does next.
#[derive(Clone, Copy, Debug, PartialEq, Eq, Structural)]
pub enum Job {
    /// Nothing is queued.
    Idle,
    /// The frame is not wanted any more, and the queue is asked again.
    Skip,
    /// This frame of this generation is decoded.
    Decode(u64, i32),
}

/// What taking a frame from the queue comes to.
pub open spec fn taken<P: Payload>(
    job: Job,
    before: StateView<P>,
    after: StateView<P>,
) -> bool {
    if before.queue.len() == 0 {
        job == Job::Idle && after == before
    } else {
        let (generation, index) = before.queue[0];
        let rest = StateView { queue: before.queue.drop_first(), ..before };
        if generation != before.generation || before.in_flight.contains(index) || state::is_ready(
            before.ready,
            index,
        ) {
            job == Job::Skip && after == rest
        } else {
            job == Job::Decode(generation, index) && after == (StateView {
                in_flight: before.in_flight.push(index),
                ..rest
            })
        }
    }
}

/// Takes the oldest frame from the queue, and marks it as being decoded.
pub fn next_job<P: Payload>(state: &mut State<P>) -> (job: Job)
    requires
        old(state)@.valid(),
    ensures
        taken(job, old(state)@, final(state)@),
        final(state)@.valid(),
{
    let ghost before = state@;
    match state.queue.pop_front() {
        None => {
            assert(state@ =~= before);
            Job::Idle
        },
        Some((generation, index)) => {
            let ghost rest = StateView { queue: before.queue.drop_first(), ..before };
            assert(state@ =~= rest);
            proof {
                assert forall|one: int, two: int| 0 <= one < two < rest.queue.len() implies (
                #[trigger] rest.queue[one]).1 != (#[trigger] rest.queue[two]).1 by {
                    assert(rest.queue[one] == before.queue[one + 1]);
                    assert(rest.queue[two] == before.queue[two + 1]);
                }
            }
            if generation != state.generation || is_in_flight(&state.in_flight, index)
                || find_ready(&state.ready, index).is_some() {
                return Job::Skip;
            }
            state.in_flight.push(index);
            assert(state@ =~= (StateView { in_flight: before.in_flight.push(index), ..rest }));
            Job::Decode(generation, index)
        },
    }
}

/// Caches what a worker finished, unless the requests have moved on since or the
/// pool is being stopped.
pub fn finish<P: Payload>(
    state: &mut State<P>,
    generation: u64,
    index: i32,
    result: Finished<P>,
    stopped: bool,
)
    requires
        old(state)@.valid(),
    ensures
        final(state)@ == (if generation == old(state)@.generation && !stopped {
            old(state)@.landed(index).stored(index, result)
        } else {
            old(state)@.landed(index)
        }),
        final(state)@.valid(),
{
    land(state, index);
    if generation == state.generation && !stopped {
        store(state, index, result);
    }
}

/// A frame that was claimed is no one else's to decode: the next consumer waits
/// for it.
pub proof fn a_claimed_frame_is_decoded_once<P: Payload>(
    before: StateView<P>,
    between: StateView<P>,
    after: StateView<P>,
    first: Answer<P>,
    second: Answer<P>,
    index: i32,
)
    requires
        answered(first, before, between, index),
        answered(second, between, after, index),
        first is Build,
    ensures
        second is Wait,
{
    assert(between.in_flight.last() == index);
}

/// The frame of the newest request is decoded once for all the clips of a call:
/// what one consumer built for it is what the next consumer is handed, however
/// small the budget is.
pub proof fn the_frame_of_the_newest_request_is_shared<P: Payload>(
    before: StateView<P>,
    between: StateView<P>,
    after: StateView<P>,
    payload: P,
    answer: Answer<P>,
    index: i32,
)
    requires
        before.valid(),
        before.last_index == Some(index),
        !state::is_ready(before.ready, index),
        delivered(Ok(payload), before, between, index),
        answered(answer, between, after, index),
    ensures
        answer matches Answer::Cached(copy) && exists|kept: P|
            #[trigger] cloned(payload, kept) && cloned(kept, copy),
        after == between,
{
    let kept = choose|kept: P|
        #[trigger] cloned(payload, kept) && between == before.landed(index).stored(
            index,
            Ok(kept),
        );
    let landed = before.landed(index);
    let stored = landed.with_ready(index, Ok(kept));
    let at = state::place(landed.ready, index);
    state::lemma_landed(before, index);
    state::lemma_with_ready(landed, index, Ok(kept));
    state::lemma_place(landed.ready, index);
    assert(stored.ready[at] == (index, Ok::<P, String>(kept)));
    state::lemma_newest_stays(stored, at);
    state::lemma_evicted(stored);
    let found = choose|found: int|
        0 <= found < between.ready.len() && #[trigger] between.ready[found] == stored.ready[at];
    assert(between.ready[found].0 == index);
    let there = choose|there: int|
        0 <= there < between.ready.len() && (#[trigger] between.ready[there]).0 == index && match (
            between.ready[there].1,
            answer,
        ) {
            (Err(message), Answer::Failed(error)) => {
                &&& error@ == error::error_text(message@)
                &&& after == between.released(there)
            },
            (Ok(payload), Answer::Cached(copy)) => {
                &&& cloned(payload, copy)
                &&& after == between
            },
            _ => false,
        };
    assert(there == found);
}

/// A payload that is cached is handed out again as long as it stays cached: the
/// next consumer decodes nothing.
pub proof fn a_cached_payload_is_handed_out_again<P: Payload>(
    before: StateView<P>,
    between: StateView<P>,
    after: StateView<P>,
    first: Answer<P>,
    second: Answer<P>,
    index: i32,
)
    requires
        before.valid(),
        answered(first, before, between, index),
        answered(second, between, after, index),
        first is Cached,
    ensures
        second is Cached,
        after == before,
{
}

/// A failed decode is reported once and then forgotten: the next consumer builds
/// the frame again, or waits for another thread that does.
pub proof fn a_failed_decode_is_retried<P: Payload>(
    before: StateView<P>,
    between: StateView<P>,
    after: StateView<P>,
    first: Answer<P>,
    second: Answer<P>,
    index: i32,
)
    requires
        before.valid(),
        answered(first, before, between, index),
        answered(second, between, after, index),
        first is Failed,
    ensures
        second is Build || second is Wait,
{
    let at = choose|at: int|
        0 <= at < before.ready.len() && (#[trigger] before.ready[at]).0 == index && (
        before.ready[at].1 is Err) && between == before.released(at);
    assert forall|other: int| 0 <= other < between.ready.len() implies (
    #[trigger] between.ready[other]).0 != index by {
        if other < at {
            assert(between.ready[other] == before.ready[other]);
        } else {
            assert(between.ready[other] == before.ready[other + 1]);
        }
    }
}

/// A request is answered by what the pool knows of the frame: a cached payload is copied
/// to the consumer and stays, a failed decode is reported and forgotten, a frame that is
/// being decoded is waited for, and any other is the consumer's own, which no one else
/// decodes from then on. A frame that was asked for is not queued any more.
pub proof fn a_request_is_answered_by_what_the_pool_knows<P: Payload>(
    before: StateView<P>,
    after: StateView<P>,
    answer: Answer<P>,
    index: i32,
    other: i32,
)
    requires
        before.valid(),
        answered(answer, before, after, index),
    ensures
        state::is_ready(before.ready, index) == (answer is Cached || answer is Failed),
        !state::is_ready(before.ready, index) ==> (answer is Wait)
            == before.in_flight.contains(index),
        answer matches Answer::Cached(copy) ==> after == before && exists|at: int|
            0 <= at < before.ready.len() && (#[trigger] before.ready[at]).0 == index && (
            before.ready[at].1 matches Ok(payload) && cloned(payload, copy)),
        answer matches Answer::Failed(error) ==> !state::is_ready(after.ready, index) && exists|
            at: int,
        |
            0 <= at < before.ready.len() && (#[trigger] before.ready[at]).0 == index && (
            before.ready[at].1 matches Err(message) && error@ == error::error_text(message@)),
        answer is Wait || answer is Build ==> {
            &&& after.ready == before.ready
            &&& !state::is_queued(after.queue, index)
            &&& after.in_flight.contains(index)
            &&& other != index ==> state::is_queued(after.queue, other) == state::is_queued(
                before.queue,
                other,
            )
            &&& other != index ==> after.in_flight.contains(other) == before.in_flight.contains(
                other,
            )
        },
{
    state::a_frame_is_taken_out_alone(before, index, other);
    if answer is Build {
        assert(after.in_flight.last() == index);
        if before.in_flight.contains(other) {
            let at = choose|at: int|
                0 <= at < before.in_flight.len() && before.in_flight[at] == other;
            assert(after.in_flight[at] == other);
        }
        if after.in_flight.contains(other) && other != index {
            let at = choose|at: int| 0 <= at < after.in_flight.len() && after.in_flight[at] == other;
            assert(before.in_flight[at] == other);
        }
    }
    if answer is Failed {
        let at = choose|at: int|
            0 <= at < before.ready.len() && (#[trigger] before.ready[at]).0 == index && (
            before.ready[at].1 is Err) && after == before.released(at);
        assert forall|place: int| 0 <= place < after.ready.len() implies (
        #[trigger] after.ready[place]).0 != index by {
            if place < at {
                assert(after.ready[place] == before.ready[place]);
            } else {
                assert(after.ready[place] == before.ready[place + 1]);
            }
        }
    }
}

/// A frame that was built is not being decoded any more, and every other one that was
/// still is. What was built goes into the cache under its frame, and so does the message
/// of a decode that failed.
pub proof fn a_delivered_frame_is_not_being_decoded<P: Payload>(
    before: StateView<P>,
    after: StateView<P>,
    built: Result<P, ImgSeqError>,
    index: i32,
    other: i32,
)
    requires
        before.valid(),
        delivered(built, before, after, index),
    ensures
        !after.in_flight.contains(index),
        other != index ==> after.in_flight.contains(other) == before.in_flight.contains(other),
        after.queue == before.queue,
        state::is_ready(before.ready, index) ==> after.ready == before.ready,
        !state::is_ready(before.ready, index) && before.ready.len() < before.entry_cap ==> match
            built {
            Ok(payload) => exists|copy: P| #[trigger]
                cloned(payload, copy) && (before.ready_bytes + copy.held() <= before.budget
                    ==> after.ready.contains((index, Ok::<P, String>(copy)))),
            Err(error) => before.ready_bytes <= before.budget ==> exists|message: String|
                #[trigger] message@ == error@ && after.ready.contains(
                    (index, Err::<P, String>(message)),
                ),
        },
{
    state::a_frame_is_taken_out_alone(before, index, other);
    state::lemma_landed(before, index);
    let landed = before.landed(index);
    match built {
        Ok(payload) => {
            let copy = choose|copy: P|
                #[trigger] cloned(payload, copy) && after == landed.stored(index, Ok(copy));
            state::a_stored_payload_is_found_under_its_frame(landed, index, Ok(copy), 0);
        },
        Err(error) => {
            let message = choose|message: String|
                #[trigger] message@ == error@ && after == landed.stored(index, Err(message));
            state::a_stored_payload_is_found_under_its_frame(landed, index, Err(message), 0);
        },
    }
}

/// A worker takes the frame that was queued first, and decodes it when it is still
/// wanted: queued by the current generation, not cached, and not being decoded already.
/// Whatever becomes of it, it has left the queue, and the rest of the queue has not
/// changed.
pub proof fn a_worker_takes_the_frame_that_was_queued_first<P: Payload>(
    job: Job,
    before: StateView<P>,
    after: StateView<P>,
)
    requires
        taken(job, before, after),
    ensures
        (job == Job::Idle) == (before.queue.len() == 0),
        before.queue.len() > 0 ==> {
            let (generation, index) = before.queue[0];
            let wanted = generation == before.generation && !before.in_flight.contains(index)
                && !state::is_ready(before.ready, index);
            &&& before.queue == seq![(generation, index)] + after.queue
            &&& wanted ==> job == Job::Decode(generation, index) && after.in_flight.contains(index)
            &&& !wanted ==> job == Job::Skip && after.in_flight == before.in_flight
        },
        after.ready == before.ready,
        after.generation == before.generation,
{
    if before.queue.len() > 0 {
        assert(before.queue =~= seq![before.queue[0]] + before.queue.drop_first());
        if job is Decode {
            assert(after.in_flight.last() == before.queue[0].1);
        }
    }
}

} // verus!

//! Which frames are decoded ahead of a request.

use vstd::prelude::*;

use crate::pixel::pixel_format;
use crate::prefetch::state;
use crate::prefetch::state::{
    committed_bytes, find_ready, frame_size, in_queue, is_in_flight, make_room, saturating_sum,
    Payload, State, StateView,
};

verus! {

/// The first frame after a request.
pub open spec fn window_start(index: i32) -> int {
    if index == i32::MAX {
        index as int
    } else {
        index + 1
    }
}

/// The last frame a request for `index` looks ahead to in a sequence of `frames`
/// frames.
pub open spec fn window_end(frames: int, index: i32, window: usize) -> int {
    let last = if frames > i32::MAX {
        i32::MAX - 1
    } else {
        frames - 1
    };
    let ahead = if index + window > i32::MAX {
        i32::MAX as int
    } else {
        index + window
    };
    if ahead < last {
        ahead
    } else {
        last
    }
}

impl<P: Payload> StateView<P> {
    /// Whether a frame is cached, being decoded or queued already.
    pub open spec fn knows(self, frame: i32) -> bool {
        ||| state::is_ready(self.ready, frame)
        ||| self.in_flight.contains(frame)
        ||| state::is_queued(self.queue, frame)
    }

    /// Whether a frame fits the budget next to everything the pool holds or has
    /// committed to produce.
    pub open spec fn fits(self, sizes: Seq<usize>, frame: i32) -> bool {
        pixel_format::saturated(self.committed(sizes) + state::size_at(sizes, frame)) <= self.budget
    }

    /// The state with a frame at the end of the queue.
    pub open spec fn with_queued(self, frame: i32) -> StateView<P> {
        StateView { queue: self.queue.push((self.generation, frame)), ..self }
    }

    /// The state once a frame of the window has been considered for a request
    /// of `index`: it is queued if it fits, after payloads behind the request
    /// have been dropped where it does not, and left to the consumer if it still
    /// does not.
    pub open spec fn considered(self, sizes: Seq<usize>, index: i32, frame: i32) -> StateView<P> {
        let room = self.with_room(sizes, index, state::size_at(sizes, frame), 0);
        if self.knows(frame) {
            self
        } else if self.fits(sizes, frame) {
            self.with_queued(frame)
        } else if room.fits(sizes, frame) {
            room.with_queued(frame)
        } else {
            room
        }
    }

    /// The state once the frames from `frame` to `end` have been considered, in
    /// order.
    pub open spec fn considered_to(
        self,
        sizes: Seq<usize>,
        index: i32,
        frame: int,
        end: int,
    ) -> StateView<P>
        decreases end - frame + 1,
    {
        if frame > end {
            self
        } else {
            self.considered(sizes, index, frame as i32).considered_to(
                sizes,
                index,
                frame + 1,
                end,
            )
        }
    }

    /// The state once the lookahead window of a request for `index` has been
    /// considered.
    pub open spec fn planned(self, sizes: Seq<usize>, index: i32) -> StateView<P> {
        if self.window == 0 {
            self
        } else {
            self.considered_to(
                sizes,
                index,
                window_start(index),
                window_end(sizes.len() as int, index, self.window),
            )
        }
    }

    /// Whether a request for `index` goes on from the newest one. A filter that
    /// returns several clips asks for the same frame once per clip, so a
    /// repeated request still counts as sequential access.
    pub open spec fn continues(self, index: i32) -> bool {
        match self.last_index {
            Some(last) => index == last || index == window_start(last),
            None => false,
        }
    }

    /// The state once a request for `index` has been recorded: one that does not
    /// continue the newest discards what was queued, and only one that does
    /// looks ahead.
    pub open spec fn requested(self, sizes: Seq<usize>, index: i32) -> StateView<P> {
        if self.continues(index) {
            (StateView { last_index: Some(index), ..self }).planned(sizes, index)
        } else {
            StateView {
                last_index: Some(index),
                generation: if self.generation == u64::MAX {
                    0
                } else {
                    (self.generation + 1) as u64
                },
                queue: Seq::empty(),
                ..self
            }
        }
    }

    /// Whether `later` differs from this state in frames that were queued at its
    /// end and payloads behind `index` that were dropped from its cache, and in
    /// nothing else.
    pub open spec fn leads_to(self, later: StateView<P>, index: i32) -> bool {
        &&& later.in_flight == self.in_flight
        &&& later.generation == self.generation
        &&& later.last_index == self.last_index
        &&& later.window == self.window
        &&& later.entry_cap == self.entry_cap
        &&& later.budget == self.budget
        &&& self.queue.len() <= later.queue.len()
        &&& forall|at: int|
            0 <= at < self.queue.len() ==> #[trigger] later.queue[at] == self.queue[at]
        &&& later.ready.len() <= self.ready.len()
        &&& forall|at: int|
            0 <= at < later.ready.len() ==> #[trigger] later.ready[at] == self.ready[at
                + self.ready.len() - later.ready.len()]
        &&& forall|at: int|
            0 <= at < self.ready.len() - later.ready.len() ==> (#[trigger] self.ready[at]).0 < index
        &&& later.ready_bytes <= self.ready_bytes
    }
}

proof fn lemma_leads_on<P: Payload>(
    first: StateView<P>,
    second: StateView<P>,
    third: StateView<P>,
    index: i32,
)
    requires
        first.leads_to(second, index),
        second.leads_to(third, index),
    ensures
        first.leads_to(third, index),
{
    let gone = first.ready.len() - second.ready.len();
    assert forall|at: int| 0 <= at < first.queue.len() implies #[trigger] third.queue[at]
        == first.queue[at] by {
        assert(second.queue[at] == first.queue[at]);
    }
    assert forall|at: int| 0 <= at < third.ready.len() implies #[trigger] third.ready[at]
        == first.ready[at + first.ready.len() - third.ready.len()] by {
        let middle = at + second.ready.len() - third.ready.len();
        assert(third.ready[at] == second.ready[middle]);
        assert(second.ready[middle] == first.ready[middle + gone]);
    }
    assert forall|at: int| 0 <= at < first.ready.len() - third.ready.len() implies (
    #[trigger] first.ready[at]).0 < index by {
        if at >= gone {
            assert(second.ready[at - gone] == first.ready[at]);
        }
    }
}

/// Room is only made of payloads behind the request, and what stays stays in
/// order.
pub(crate) proof fn lemma_with_room<P: Payload>(
    state: StateView<P>,
    sizes: Seq<usize>,
    index: i32,
    wanted: usize,
    freed: usize,
)
    requires
        state.valid(),
    ensures
        state.with_room(sizes, index, wanted, freed).valid(),
        state.balanced() ==> state.with_room(sizes, index, wanted, freed).balanced(),
        state.leads_to(state.with_room(sizes, index, wanted, freed), index),
        state.with_room(sizes, index, wanted, freed).queue == state.queue,
        state.with_room(sizes, index, wanted, freed).committed(sizes) <= state.committed(sizes),
    decreases state.ready.len(),
{
    if !(freed >= wanted || state.ready.len() == 0 || state.ready[0].0 >= index) {
        state::lemma_released(state, 0);
        let next = state.released(0);
        let more = pixel_format::saturated(
            freed + state::size_at(sizes, state.ready[0].0),
        ) as usize;
        lemma_with_room(next, sizes, index, wanted, more);
        assert(state.leads_to(next, index));
        lemma_leads_on(state, next, next.with_room(sizes, index, wanted, more), index);
    }
}

proof fn lemma_queued_bytes(queue: Seq<(u64, i32)>, entry: (u64, i32), sizes: Seq<usize>)
    ensures
        state::frames_bytes(state::queued_frames(queue.push(entry)), sizes)
            == state::frames_bytes(state::queued_frames(queue), sizes) + state::size_at(
            sizes,
            entry.1,
        ),
{
    let longer = state::queued_frames(queue.push(entry));
    assert(longer.drop_last() =~= state::queued_frames(queue));
}

proof fn lemma_queued_state<P: Payload>(state: StateView<P>, sizes: Seq<usize>, frame: i32)
    requires
        state.valid(),
        !state.knows(frame),
        state.fits(sizes, frame),
    ensures
        state.with_queued(frame).valid(),
        state.with_queued(frame).committed(sizes) == state.committed(sizes) + state::size_at(
            sizes,
            frame,
        ),
        pixel_format::saturated(state.with_queued(frame).committed(sizes)) <= state.budget,
{
    lemma_queued_bytes(state.queue, (state.generation, frame), sizes);
    let longer = state.queue.push((state.generation, frame));
    assert forall|before: int, after: int| 0 <= before < after < longer.len() implies (
    #[trigger] longer[before]).1 != (#[trigger] longer[after]).1 by {
        assert(longer[before] == state.queue[before]);
        if after < state.queue.len() {
            assert(longer[after] == state.queue[after]);
        }
    }
}

/// What considering one frame does.
proof fn lemma_considered<P: Payload>(
    state: StateView<P>,
    sizes: Seq<usize>,
    index: i32,
    frame: i32,
)
    requires
        state.valid(),
    ensures
        state.considered(sizes, index, frame).valid(),
        state.balanced() ==> state.considered(sizes, index, frame).balanced(),
        state.leads_to(state.considered(sizes, index, frame), index),
        state.considered(sizes, index, frame).queue == state.queue || (!state.knows(frame)
            && state.considered(sizes, index, frame).queue == state.queue.push(
            (state.generation, frame),
        )),
        pixel_format::saturated(state.committed(sizes)) <= state.budget ==> pixel_format::saturated(
            state.considered(sizes, index, frame).committed(sizes),
        ) <= state.budget,
        state.considered(sizes, index, frame).queue != state.queue ==> pixel_format::saturated(
            state.considered(sizes, index, frame).committed(sizes),
        ) <= state.budget,
{
    let room = state.with_room(sizes, index, state::size_at(sizes, frame), 0);
    lemma_with_room(state, sizes, index, state::size_at(sizes, frame), 0);
    let next = state.considered(sizes, index, frame);
    if state.knows(frame) {
    } else if state.fits(sizes, frame) {
        lemma_queued_state(state, sizes, frame);
        assert(next.queue.len() == state.queue.len() + 1);
    } else if room.fits(sizes, frame) {
        assert(!room.knows(frame)) by {
            if state::is_ready(room.ready, frame) {
                let at = choose|at: int|
                    0 <= at < room.ready.len() && (#[trigger] room.ready[at]).0 == frame;
                assert(room.ready[at] == state.ready[at + state.ready.len() - room.ready.len()]);
            }
        }
        lemma_queued_state(room, sizes, frame);
        let later = room.with_queued(frame);
        assert(room.leads_to(later, index));
        lemma_leads_on(state, room, later, index);
        assert(next.queue.len() == state.queue.len() + 1);
    }
}

/// What considering the frames up to `end` does.
pub(crate) proof fn lemma_considered_to<P: Payload>(
    state: StateView<P>,
    sizes: Seq<usize>,
    index: i32,
    frame: int,
    end: int,
)
    requires
        state.valid(),
        i32::MIN <= frame,
        end <= i32::MAX,
    ensures
        ({
            let later = state.considered_to(sizes, index, frame, end);
            &&& later.valid()
            &&& state.balanced() ==> later.balanced()
            &&& state.leads_to(later, index)
            &&& forall|at: int|
                state.queue.len() <= at < later.queue.len() ==> {
                    &&& (#[trigger] later.queue[at]).0 == state.generation
                    &&& frame <= later.queue[at].1 <= end
                    &&& !state.in_flight.contains(later.queue[at].1)
                    &&& !state::is_queued(state.queue, later.queue[at].1)
                    &&& later.queue[at].1 >= index ==> !state::is_ready(
                        state.ready,
                        later.queue[at].1,
                    )
                }
            &&& pixel_format::saturated(state.committed(sizes)) <= state.budget
                ==> pixel_format::saturated(later.committed(sizes)) <= state.budget
            &&& later.queue.len() > state.queue.len() ==> pixel_format::saturated(
                later.committed(sizes),
            ) <= state.budget
        }),
    decreases end - frame + 1,
{
    if frame <= end {
        let next = state.considered(sizes, index, frame as i32);
        lemma_considered(state, sizes, index, frame as i32);
        lemma_considered_to(next, sizes, index, frame + 1, end);
        let later = state.considered_to(sizes, index, frame, end);
        lemma_leads_on(state, next, later, index);
        assert forall|at: int| state.queue.len() <= at < later.queue.len() implies {
            &&& (#[trigger] later.queue[at]).0 == state.generation
            &&& frame <= later.queue[at].1 <= end
            &&& !state.in_flight.contains(later.queue[at].1)
            &&& !state::is_queued(state.queue, later.queue[at].1)
            &&& later.queue[at].1 >= index ==> !state::is_ready(state.ready, later.queue[at].1)
        } by {
            if at < next.queue.len() {
                assert(later.queue[at] == next.queue[at]);
                assert(next.queue[at] == (state.generation, frame as i32));
            } else {
                let queued = later.queue[at].1;
                if state::is_queued(state.queue, queued) {
                    let from = choose|from: int|
                        0 <= from < state.queue.len() && (#[trigger] state.queue[from]).1 == queued;
                    assert(next.queue[from] == state.queue[from]);
                }
                if queued >= index && state::is_ready(state.ready, queued) {
                    lemma_stays_ready(state, next, index, queued);
                }
            }
        }
    }
}

proof fn lemma_stays_ready<P: Payload>(
    first: StateView<P>,
    second: StateView<P>,
    index: i32,
    frame: i32,
)
    requires
        first.leads_to(second, index),
        state::is_ready(first.ready, frame),
        frame >= index,
    ensures
        state::is_ready(second.ready, frame),
{
    let at = choose|at: int|
        0 <= at < first.ready.len() && (#[trigger] first.ready[at]).0 == frame;
    let gone = first.ready.len() - second.ready.len();
    assert(at >= gone);
    assert(second.ready[at - gone] == first.ready[at]);
}

/// Queues the frames of the lookahead window that fit the byte budget.
///
/// The budget covers what is ready, being decoded and still queued, so a frame
/// that does not fit is left to the consumer instead of being queued and
/// evicted before it is asked for.
///
/// Cached payloads the consumer has already been handed are dropped to make room
/// first: they are only kept so that a second clip can share the decode, and
/// holding them would otherwise stall the lookahead on a full cache. Payloads
/// ahead of the request are never dropped here, they are what the consumer asks
/// for next. Skipping rather than stopping at a frame that does not fit keeps
/// the window useful on sequences that mix small and large frames.
pub fn plan_window<P: Payload>(state: &mut State<P>, sizes: &[usize], index: i32)
    requires
        old(state)@.valid(),
        old(state)@.window <= i32::MAX,
    ensures
        final(state)@ == old(state)@.planned(sizes@, index),
        final(state)@.valid(),
{
    if state.window == 0 {
        return;
    }
    let ghost before = state@;
    let frames: usize = sizes.len();
    let last: i64 = if frames as u64 > i32::MAX as u64 {
        i32::MAX as i64 - 1
    } else {
        frames as i64 - 1
    };
    let ahead: i64 = if index as i64 + state.window as i64 > i32::MAX as i64 {
        i32::MAX as i64
    } else {
        index as i64 + state.window as i64
    };
    let end: i64 = if ahead < last {
        ahead
    } else {
        last
    };
    let start: i64 = if index == i32::MAX {
        index as i64
    } else {
        index as i64 + 1
    };
    let mut committed: usize = committed_bytes(state, sizes);
    let mut candidate: i64 = start;
    while candidate <= end
        invariant
            i32::MIN <= start <= candidate <= i32::MAX + 1,
            end <= i32::MAX,
            state@.valid(),
            committed == pixel_format::saturated(state@.committed(sizes@)),
            state@.considered_to(sizes@, index, candidate as int, end as int)
                == before.considered_to(sizes@, index, start as int, end as int),
        decreases end - candidate + 1,
    {
        let frame: i32 = candidate as i32;
        let ghost now = state@;
        proof {
            lemma_considered(now, sizes@, index, frame);
            state::lemma_frames_prefix(state::queued_frames(now.queue), sizes@, 0);
            state::lemma_frames_prefix(now.in_flight, sizes@, 0);
        }
        let known = find_ready(&state.ready, frame).is_some() || is_in_flight(
            &state.in_flight,
            frame,
        ) || in_queue(&state.queue, frame);
        if !known {
            let bytes: usize = frame_size(sizes, frame);
            let mut fits = saturating_sum(committed, bytes) <= state.budget;
            if !fits {
                proof {
                    lemma_with_room(now, sizes@, index, bytes, 0);
                }
                make_room(state, sizes, index, bytes);
                committed = committed_bytes(state, sizes);
                fits = saturating_sum(committed, bytes) <= state.budget;
            }
            if fits {
                proof {
                    lemma_queued_bytes(state@.queue, (state@.generation, frame), sizes@);
                }
                committed = saturating_sum(committed, bytes);
                let generation: u64 = state.generation;
                state.queue.push_back((generation, frame));
            }
            assert(state@ =~= now.considered(sizes@, index, frame));
        }
        candidate = candidate + 1;
    }
}

/// Records a request and queues the following frames when the access pattern is
/// sequential.
pub fn plan<P: Payload>(state: &mut State<P>, sizes: &[usize], index: i32)
    requires
        old(state)@.valid(),
        old(state)@.window <= i32::MAX,
    ensures
        final(state)@ == old(state)@.requested(sizes@, index),
        final(state)@.valid(),
{
    let ghost before = state@;
    proof {
        state::lemma_frames_prefix(state::queued_frames(before.queue), sizes@, 0);
    }
    let sequential = match state.last_index {
        Some(last) => index == last || (if last == i32::MAX {
            index == last
        } else {
            index == last + 1
        }),
        None => false,
    };
    state.last_index = Some(index);
    if !sequential {
        state.generation = if state.generation == u64::MAX {
            0
        } else {
            state.generation + 1
        };
        state.queue.clear();
        assert(state@ =~= before.requested(sizes@, index));
        return;
    }
    assert(state@ =~= (StateView { last_index: Some(index), ..before }));
    plan_window(state, sizes, index);
}

/// Whether a state is valid and its window is a number of frames, which is what
/// planning asks of it.
pub open spec fn plannable<P: Payload>(state: StateView<P>) -> bool {
    &&& state.valid()
    &&& state.window <= i32::MAX
}

/// Planning never drops a cached payload at or ahead of the request: those are
/// what the consumer asks for next.
pub proof fn planning_drops_nothing_ahead_of_the_request<P: Payload>(
    state: StateView<P>,
    sizes: Seq<usize>,
    index: i32,
    frame: i32,
)
    requires
        plannable(state),
        state::is_ready(state.ready, frame),
        frame >= index,
    ensures
        state::is_ready(state.planned(sizes, index).ready, frame),
{
    if state.window != 0 {
        let start = window_start(index);
        let end = window_end(sizes.len() as int, index, state.window);
        lemma_considered_to(state, sizes, index, start, end);
        lemma_stays_ready(state, state.planned(sizes, index), index, frame);
    }
}

/// Planning leaves the queue as it was and adds to its end only frames of the
/// lookahead window that are neither cached nor being decoded nor queued, each
/// once and of the current generation.
pub proof fn planning_queues_only_new_frames_of_the_window<P: Payload>(
    state: StateView<P>,
    sizes: Seq<usize>,
    index: i32,
    at: int,
)
    requires
        plannable(state),
        0 <= at < state.planned(sizes, index).queue.len(),
    ensures
        ({
            let queue = state.planned(sizes, index).queue;
            if at < state.queue.len() {
                queue[at] == state.queue[at]
            } else {
                &&& queue[at].0 == state.generation
                &&& index <= queue[at].1 <= index + state.window
                &&& 0 <= index ==> queue[at].1 < sizes.len()
                &&& !state.knows(queue[at].1)
            }
        }),
        state::queued_once(state.planned(sizes, index).queue),
{
    if state.window != 0 {
        let start = window_start(index);
        let end = window_end(sizes.len() as int, index, state.window);
        lemma_considered_to(state, sizes, index, start, end);
    }
}

proof fn lemma_considered_in_order<P: Payload>(
    state: StateView<P>,
    sizes: Seq<usize>,
    index: i32,
    frame: int,
    end: int,
    first: int,
    second: int,
)
    requires
        state.valid(),
        i32::MIN <= frame,
        end <= i32::MAX,
        state.queue.len() <= first < second < state.considered_to(
            sizes,
            index,
            frame,
            end,
        ).queue.len(),
    ensures
        ({
            let queue = state.considered_to(sizes, index, frame, end).queue;
            queue[first].1 < queue[second].1
        }),
    decreases end - frame + 1,
{
    if frame <= end {
        let next = state.considered(sizes, index, frame as i32);
        lemma_considered(state, sizes, index, frame as i32);
        lemma_considered_to(next, sizes, index, frame + 1, end);
        let later = next.considered_to(sizes, index, frame + 1, end);
        if first < next.queue.len() {
            assert(later.queue[first] == next.queue[first]);
            assert(next.queue[first] == (state.generation, frame as i32));
        } else {
            lemma_considered_in_order(next, sizes, index, frame + 1, end, first, second);
        }
    }
}

/// Planning queues the frames of the lookahead window in the order they are
/// asked for: what it adds to the queue ascends.
pub proof fn planned_frames_ascend<P: Payload>(
    state: StateView<P>,
    sizes: Seq<usize>,
    index: i32,
    first: int,
    second: int,
)
    requires
        plannable(state),
        state.queue.len() <= first < second < state.planned(sizes, index).queue.len(),
    ensures
        state.planned(sizes, index).queue[first].1 < state.planned(sizes, index).queue[second].1,
{
    if state.window != 0 {
        let start = window_start(index);
        let end = window_end(sizes.len() as int, index, state.window);
        lemma_considered_in_order(state, sizes, index, start, end, first, second);
    }
}

/// Planning keeps to the budget: once it has queued anything, what is cached,
/// being decoded and queued stays within the budget together, and a state within
/// its budget stays so.
pub proof fn planning_keeps_to_the_budget<P: Payload>(
    state: StateView<P>,
    sizes: Seq<usize>,
    index: i32,
)
    requires
        plannable(state),
        state.queue.len() < state.planned(sizes, index).queue.len() || state.committed(sizes)
            <= state.budget,
    ensures
        pixel_format::saturated(state.planned(sizes, index).committed(sizes)) <= state.budget,
{
    if state.window != 0 {
        let start = window_start(index);
        let end = window_end(sizes.len() as int, index, state.window);
        lemma_considered_to(state, sizes, index, start, end);
    }
}

/// Expected size of the frames from `frame` to `end`.
pub open spec fn window_bytes(sizes: Seq<usize>, frame: int, end: int) -> int
    decreases end - frame + 1,
{
    if frame > end {
        0
    } else {
        state::size_at(sizes, frame as i32) + window_bytes(sizes, frame + 1, end)
    }
}

proof fn lemma_window_bytes(sizes: Seq<usize>, frame: int, end: int)
    ensures
        0 <= window_bytes(sizes, frame, end),
    decreases end - frame + 1,
{
    if frame <= end {
        lemma_window_bytes(sizes, frame + 1, end);
    }
}

proof fn lemma_stays_known<P: Payload>(
    first: StateView<P>,
    second: StateView<P>,
    index: i32,
    frame: i32,
)
    requires
        first.leads_to(second, index),
        first.knows(frame),
        frame >= index,
    ensures
        second.knows(frame),
{
    if state::is_ready(first.ready, frame) {
        lemma_stays_ready(first, second, index, frame);
    } else if state::is_queued(first.queue, frame) {
        let at = choose|at: int|
            0 <= at < first.queue.len() && (#[trigger] first.queue[at]).1 == frame;
        assert(second.queue[at] == first.queue[at]);
    }
}

proof fn lemma_whole_window<P: Payload>(
    state: StateView<P>,
    sizes: Seq<usize>,
    index: i32,
    frame: int,
    end: int,
    wanted: i32,
)
    requires
        state.valid(),
        state.committed(sizes) + window_bytes(sizes, frame, end) <= state.budget,
        index <= frame <= wanted <= end <= i32::MAX,
    ensures
        state.considered_to(sizes, index, frame, end).knows(wanted),
    decreases end - frame + 1,
{
    lemma_window_bytes(sizes, frame + 1, end);
    let next = state.considered(sizes, index, frame as i32);
    lemma_considered(state, sizes, index, frame as i32);
    assert(state.knows(frame as i32) || state.fits(sizes, frame as i32));
    if !state.knows(frame as i32) {
        lemma_queued_state(state, sizes, frame as i32);
        assert(next.queue[state.queue.len() as int].1 == frame);
    }
    assert(next.knows(frame as i32));
    lemma_considered_to(next, sizes, index, frame + 1, end);
    if wanted == frame {
        lemma_stays_known(
            next,
            next.considered_to(sizes, index, frame + 1, end),
            index,
            wanted,
        );
    } else {
        lemma_whole_window(next, sizes, index, frame + 1, end, wanted);
    }
}

/// A budget that fits the window next to what the pool already holds leaves no
/// frame of the window out: each is cached, being decoded or queued.
pub proof fn a_budget_that_fits_the_window_queues_all_of_it<P: Payload>(
    state: StateView<P>,
    sizes: Seq<usize>,
    index: i32,
    frame: i32,
)
    requires
        plannable(state),
        0 < state.window,
        index < frame <= window_end(sizes.len() as int, index, state.window),
        state.committed(sizes) + window_bytes(
            sizes,
            window_start(index),
            window_end(sizes.len() as int, index, state.window),
        ) <= state.budget,
    ensures
        state.planned(sizes, index).knows(frame),
{
    lemma_whole_window(
        state,
        sizes,
        index,
        window_start(index),
        window_end(sizes.len() as int, index, state.window),
        frame,
    );
}

/// A request that does not continue the newest one leaves nothing queued, and
/// looks nothing ahead.
pub proof fn only_sequential_requests_look_ahead<P: Payload>(
    state: StateView<P>,
    sizes: Seq<usize>,
    index: i32,
)
    requires
        !state.continues(index),
    ensures
        state.requested(sizes, index).queue.len() == 0,
        state.requested(sizes, index).generation != state.generation,
        state.requested(sizes, index).continues(index),
{
}

/// A request looks ahead from the next frame on, as many frames as the window has and
/// no further than the last.
pub proof fn a_window_reaches_to_the_last_frame(frames: int, index: i32, window: usize)
    requires
        0 <= index < frames <= i32::MAX,
    ensures
        index < i32::MAX ==> window_start(index) == index + 1,
        window_end(frames, index, window) <= index + window,
        window_end(frames, index, window) < frames,
        window_end(frames, index, window) == index + window || window_end(frames, index, window)
            == frames - 1,
{
}

/// A request continues the newest one when it is for the same frame or for the next.
pub proof fn a_request_continues_with_the_same_frame_or_the_next<P: Payload>(
    state: StateView<P>,
    index: i32,
)
    ensures
        match state.last_index {
            Some(last) => last < i32::MAX ==> state.continues(index) == (index == last || index
                == last + 1),
            None => !state.continues(index),
        },
{
}

/// A request is remembered whatever it is for. One that continues the newest keeps the
/// queue and looks ahead; any other starts a new generation with nothing queued. Neither
/// touches what is being decoded, and a jump keeps the cache.
pub proof fn a_request_is_remembered<P: Payload>(
    state: StateView<P>,
    sizes: Seq<usize>,
    index: i32,
)
    requires
        plannable(state),
    ensures
        state.requested(sizes, index).last_index == Some(index),
        state.requested(sizes, index).in_flight == state.in_flight,
        state.continues(index) ==> state.requested(sizes, index).generation == state.generation
            && state.requested(sizes, index).queue.len() >= state.queue.len(),
        !state.continues(index) ==> {
            let after = state.requested(sizes, index);
            &&& after.queue.len() == 0
            &&& after.ready == state.ready
            &&& after.ready_bytes == state.ready_bytes
            &&& state.generation < u64::MAX ==> after.generation == state.generation + 1
        },
{
    if state.continues(index) {
        let newest = StateView { last_index: Some(index), ..state };
        if state.window != 0 {
            lemma_considered_to(
                newest,
                sizes,
                index,
                window_start(index),
                window_end(sizes.len() as int, index, state.window),
            );
        }
    }
}

/// A frame that is known already, or that fits the budget as it is, costs no cached
/// payload its place. What is queued goes to the end, under the generation of the state.
pub proof fn a_frame_that_fits_drops_nothing<P: Payload>(
    state: StateView<P>,
    sizes: Seq<usize>,
    index: i32,
    frame: i32,
)
    ensures
        state::is_ready(state.ready, frame) || state.in_flight.contains(frame) || state::is_queued(
            state.queue,
            frame,
        ) ==> state.considered(sizes, index, frame) == state,
        !state::is_ready(state.ready, frame) && !state.in_flight.contains(frame)
            && !state::is_queued(state.queue, frame) && state.committed(sizes) + state::size_at(
            sizes,
            frame,
        ) <= state.budget ==> {
            let after = state.considered(sizes, index, frame);
            &&& after.ready == state.ready
            &&& after.ready_bytes == state.ready_bytes
            &&& after.queue == state.queue.push((state.generation, frame))
            &&& after.in_flight == state.in_flight
        },
{
}

} // verus!

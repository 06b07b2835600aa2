//! What a pool knows of its frames, and what one step does to it.

use std::collections::VecDeque;

use vstd::prelude::*;

use crate::decoder::{DecodedImage, ImageInfo};
use crate::error::ImgSeqError;
use crate::pixel::pixel_format;
use crate::prefetch::budget;
use crate::prefetch::budget::READY_ENTRY_MARGIN;

verus! {

/// What one finished decode hands to the clips that ask for an index.
///
/// The pool never looks inside a payload: it counts [`Payload::bytes`] against
/// the lookahead budget, and hands out a clone instead of decoding again.
pub trait Payload: Clone + Send + 'static {
    /// Memory one payload holds, in bytes.
    spec fn held(&self) -> usize;

    /// Memory one payload holds, in bytes.
    fn bytes(&self) -> (bytes: usize)
        ensures
            bytes == self.held(),
    ;
}

/// Turns one decoded image into the payload the clips of a call ask for.
///
/// Decoding and payload building both happen on the worker that read the file,
/// so the thread that answers a request only hands out what is already finished.
pub trait Prepare: Send + Sync + 'static {
    /// What a request for one index hands out.
    type Payload: Payload;

    /// Payload bytes one image is expected to hold, before anything is decoded.
    spec fn estimated(&self, image: ImageInfo) -> usize;

    /// Payload bytes one image is expected to hold.
    ///
    /// This is what the lookahead budget is sized from; [`Payload::bytes`]
    /// reports what a payload really holds.
    fn estimate(&self, image: &ImageInfo) -> (bytes: usize)
        ensures
            bytes == self.estimated(*image),
    ;

    /// Whether a decoded image can be turned into a payload at all.
    spec fn buildable(&self, decoded: DecodedImage) -> bool;

    /// Builds the payload of one decoded image.
    fn build(&self, image: &ImageInfo, index: i32, decoded: DecodedImage) -> Result<
        Self::Payload,
        ImgSeqError,
    >
        requires
            self.buildable(decoded),
    ;
}

/// A finished payload, or the words of the error its decode failed with.
pub type Finished<P> = Result<P, String>;

/// What a pool knows of its frames.
pub struct State<P: Payload> {
    /// Pending prefetch requests, oldest first, with the generation they belong
    /// to.
    pub queue: VecDeque<(u64, i32)>,
    /// Frames currently being decoded by a worker or by a consumer, each once.
    pub in_flight: Vec<i32>,
    /// Finished payloads waiting for a consumer, by frame.
    pub ready: Vec<(i32, Finished<P>)>,
    pub ready_bytes: usize,
    /// Bumped whenever requests stop being sequential so that results from the
    /// previous access pattern can be discarded.
    pub generation: u64,
    pub last_index: Option<i32>,
    pub window: usize,
    /// Number of payloads the pool keeps cached, independent of their size.
    pub entry_cap: usize,
    /// Payload data the pool may hold or have in flight.
    pub budget: usize,
}

/// The model of a [`State`].
#[verifier::ext_equal]
pub struct StateView<P> {
    pub queue: Seq<(u64, i32)>,
    pub in_flight: Seq<i32>,
    pub ready: Seq<(i32, Finished<P>)>,
    pub ready_bytes: usize,
    pub generation: u64,
    pub last_index: Option<i32>,
    pub window: usize,
    pub entry_cap: usize,
    pub budget: usize,
}

impl<P: Payload> View for State<P> {
    type V = StateView<P>;

    open spec fn view(&self) -> StateView<P> {
        StateView {
            queue: self.queue@,
            in_flight: self.in_flight@,
            ready: self.ready@,
            ready_bytes: self.ready_bytes,
            generation: self.generation,
            last_index: self.last_index,
            window: self.window,
            entry_cap: self.entry_cap,
            budget: self.budget,
        }
    }
}

/// Whether the frames of the cache are in order, each once.
pub open spec fn in_order<P>(ready: Seq<(i32, Finished<P>)>) -> bool {
    forall|before: int, after: int|
        0 <= before < after < ready.len() ==> (#[trigger] ready[before]).0 < (
        #[trigger] ready[after]).0
}

/// Whether no frame of the queue is in it twice.
pub open spec fn queued_once(queue: Seq<(u64, i32)>) -> bool {
    forall|before: int, after: int|
        0 <= before < after < queue.len() ==> (#[trigger] queue[before]).1 != (
        #[trigger] queue[after]).1
}

/// Whether a frame is cached.
pub open spec fn is_ready<P>(ready: Seq<(i32, Finished<P>)>, index: i32) -> bool {
    exists|at: int| 0 <= at < ready.len() && (#[trigger] ready[at]).0 == index
}

/// Whether a frame is queued.
pub open spec fn is_queued(queue: Seq<(u64, i32)>, index: i32) -> bool {
    exists|at: int| 0 <= at < queue.len() && (#[trigger] queue[at]).1 == index
}

/// Memory one cache entry holds, which is none for an error.
pub open spec fn entry_bytes<P: Payload>(entry: Finished<P>) -> usize {
    match entry {
        Ok(payload) => payload.held(),
        Err(_) => 0,
    }
}

/// Memory the cache holds.
pub open spec fn cached_bytes<P: Payload>(ready: Seq<(i32, Finished<P>)>) -> int
    decreases ready.len(),
{
    if ready.len() == 0 {
        0
    } else {
        cached_bytes(ready.drop_last()) + entry_bytes(ready.last().1)
    }
}

/// Expected size of one frame, zero when the sequence has no such frame.
pub open spec fn size_at(sizes: Seq<usize>, index: i32) -> usize {
    if 0 <= index < sizes.len() {
        sizes[index as int]
    } else {
        0
    }
}

/// Expected size of several frames.
pub open spec fn frames_bytes(frames: Seq<i32>, sizes: Seq<usize>) -> int
    decreases frames.len(),
{
    if frames.len() == 0 {
        0
    } else {
        frames_bytes(frames.drop_last(), sizes) + size_at(sizes, frames.last())
    }
}

/// The frames of the queue.
pub open spec fn queued_frames(queue: Seq<(u64, i32)>) -> Seq<i32> {
    queue.map_values(|entry: (u64, i32)| entry.1)
}

/// Whether a queue entry is for another frame than `index`.
pub open spec fn not_queued_for(index: i32) -> spec_fn((u64, i32)) -> bool {
    |entry: (u64, i32)| entry.1 != index
}

/// Whether a frame is another one than `index`.
pub open spec fn other_than(index: i32) -> spec_fn(i32) -> bool {
    |other: i32| other != index
}

/// `left - right`, or zero where that is less.
pub open spec fn less(left: usize, right: usize) -> usize {
    if left < right {
        0
    } else {
        (left - right) as usize
    }
}

/// Where a frame goes in the cache.
pub open spec fn place<P>(ready: Seq<(i32, Finished<P>)>, index: i32) -> int
    decreases ready.len(),
{
    if ready.len() == 0 || ready.last().0 < index {
        ready.len() as int
    } else {
        place(ready.drop_last(), index)
    }
}

impl<P: Payload> StateView<P> {
    /// Whether the cache is in order and nothing is queued or in flight twice.
    pub open spec fn valid(self) -> bool {
        &&& in_order(self.ready)
        &&& queued_once(self.queue)
        &&& self.in_flight.no_duplicates()
    }

    /// Whether the count of cached bytes is what the cache holds.
    pub open spec fn balanced(self) -> bool {
        self.ready_bytes == cached_bytes(self.ready)
    }

    /// Everything the pool holds or has committed to produce: the payloads
    /// cached for a consumer, the ones a worker is building, and the ones still
    /// queued.
    pub open spec fn committed(self, sizes: Seq<usize>) -> int {
        self.ready_bytes + frames_bytes(queued_frames(self.queue), sizes) + frames_bytes(
            self.in_flight,
            sizes,
        )
    }

    /// The state without the cache entry at `at`.
    pub open spec fn released(self, at: int) -> StateView<P> {
        StateView {
            ready: self.ready.remove(at),
            ready_bytes: less(self.ready_bytes, entry_bytes(self.ready[at].1)),
            ..self
        }
    }

    /// Whether the cache is over the number of entries or of bytes it may hold,
    /// and has more than one entry to drop.
    pub open spec fn crowded(self) -> bool {
        &&& self.ready.len() > self.entry_cap || self.ready_bytes > self.budget
        &&& self.ready.len() > 1
    }

    /// The entry that is dropped from a crowded cache: the oldest when it is
    /// behind the newest request, and otherwise the furthest.
    pub open spec fn victim(self) -> int {
        match self.last_index {
            Some(last) => if self.ready[0].0 < last {
                0
            } else {
                self.ready.len() - 1
            },
            None => self.ready.len() - 1,
        }
    }

    /// The state once the cache fits again.
    pub open spec fn evicted(self) -> StateView<P>
        decreases self.ready.len(),
    {
        if self.crowded() {
            self.released(self.victim()).evicted()
        } else {
            self
        }
    }

    /// The state with a finished payload in the cache, which drops nothing yet.
    pub open spec fn with_ready(self, index: i32, result: Finished<P>) -> StateView<P> {
        StateView {
            ready: self.ready.insert(place(self.ready, index), (index, result)),
            ready_bytes: pixel_format::saturated(
                self.ready_bytes + entry_bytes(result),
            ) as usize,
            ..self
        }
    }

    /// The state once a finished payload has been cached. One that is already
    /// there stays.
    pub open spec fn stored(self, index: i32, result: Finished<P>) -> StateView<P> {
        if is_ready(self.ready, index) {
            self
        } else {
            self.with_ready(index, result).evicted()
        }
    }

    /// The state once payloads behind `index` have been dropped, oldest first,
    /// until `wanted` bytes are free of which `freed` are so already.
    pub open spec fn with_room(
        self,
        sizes: Seq<usize>,
        index: i32,
        wanted: usize,
        freed: usize,
    ) -> StateView<P>
        decreases self.ready.len(),
    {
        if freed >= wanted || self.ready.len() == 0 || self.ready[0].0 >= index {
            self
        } else {
            self.released(0).with_room(
                sizes,
                index,
                wanted,
                pixel_format::saturated(freed + size_at(sizes, self.ready[0].0)) as usize,
            )
        }
    }

    /// The state without a frame in the queue.
    pub open spec fn unqueued(self, index: i32) -> StateView<P> {
        StateView { queue: self.queue.filter(not_queued_for(index)), ..self }
    }

    /// The state without a frame in flight.
    pub open spec fn landed(self, index: i32) -> StateView<P> {
        StateView { in_flight: self.in_flight.filter(other_than(index)), ..self }
    }

    /// The state of a pool that has done nothing.
    pub open spec fn idle(window: usize, budget: usize) -> StateView<P> {
        StateView {
            queue: Seq::empty(),
            in_flight: Seq::empty(),
            ready: Seq::empty(),
            ready_bytes: 0,
            generation: 0,
            last_index: None,
            window,
            entry_cap: (window + READY_ENTRY_MARGIN) as usize,
            budget,
        }
    }
}

pub(crate) proof fn lemma_released<P: Payload>(state: StateView<P>, at: int)
    requires
        state.valid(),
        0 <= at < state.ready.len(),
    ensures
        state.released(at).valid(),
        cached_bytes(state.ready) == cached_bytes(state.ready.remove(at)) + entry_bytes(
            state.ready[at].1,
        ),
        state.balanced() ==> state.released(at).balanced(),
    decreases state.ready.len(),
{
    let ready = state.ready;
    assert(in_order(ready.remove(at)));
    lemma_removed_bytes(ready, at);
    lemma_cached_bytes(ready.remove(at));
}

proof fn lemma_cached_bytes<P: Payload>(ready: Seq<(i32, Finished<P>)>)
    ensures
        0 <= cached_bytes(ready),
    decreases ready.len(),
{
    if ready.len() > 0 {
        lemma_cached_bytes(ready.drop_last());
    }
}

proof fn lemma_removed_bytes<P: Payload>(ready: Seq<(i32, Finished<P>)>, at: int)
    requires
        0 <= at < ready.len(),
    ensures
        cached_bytes(ready) == cached_bytes(ready.remove(at)) + entry_bytes(ready[at].1),
    decreases ready.len(),
{
    if at == ready.len() - 1 {
        assert(ready.remove(at) =~= ready.drop_last());
    } else {
        lemma_removed_bytes(ready.drop_last(), at);
        assert(ready.remove(at).drop_last() =~= ready.drop_last().remove(at));
    }
}

proof fn lemma_inserted_bytes<P: Payload>(
    ready: Seq<(i32, Finished<P>)>,
    at: int,
    entry: (i32, Finished<P>),
)
    requires
        0 <= at <= ready.len(),
    ensures
        cached_bytes(ready.insert(at, entry)) == cached_bytes(ready) + entry_bytes(entry.1),
{
    lemma_removed_bytes(ready.insert(at, entry), at);
    assert(ready.insert(at, entry).remove(at) =~= ready);
}

pub(crate) proof fn lemma_place<P: Payload>(ready: Seq<(i32, Finished<P>)>, index: i32)
    requires
        in_order(ready),
    ensures
        0 <= place(ready, index) <= ready.len(),
        forall|at: int| 0 <= at < place(ready, index) ==> (#[trigger] ready[at]).0 < index,
        forall|at: int|
            place(ready, index) <= at < ready.len() ==> (#[trigger] ready[at]).0 >= index,
    decreases ready.len(),
{
    if ready.len() > 0 && ready.last().0 >= index {
        lemma_place(ready.drop_last(), index);
        let last = ready.drop_last();
        assert forall|at: int| 0 <= at < place(ready, index) implies (#[trigger] ready[at]).0
            < index by {
            assert(ready[at] == last[at]);
        }
        assert forall|at: int| place(ready, index) <= at < ready.len() implies (
        #[trigger] ready[at]).0 >= index by {
            if at < ready.len() - 1 {
                assert(ready[at] == last[at]);
            }
        }
    }
}

pub(crate) proof fn lemma_with_ready<P: Payload>(
    state: StateView<P>,
    index: i32,
    result: Finished<P>,
)
    requires
        state.valid(),
        !is_ready(state.ready, index),
    ensures
        state.with_ready(index, result).valid(),
        is_ready(state.with_ready(index, result).ready, index),
        state.balanced() && state.ready_bytes + entry_bytes(result) <= usize::MAX
            ==> state.with_ready(index, result).balanced(),
{
    lemma_place(state.ready, index);
    let at = place(state.ready, index);
    let entry = (index, result);
    let after = state.ready.insert(at, entry);
    assert(after[at] == entry);
    lemma_inserted_bytes(state.ready, at, entry);
    assert forall|one: int, two: int| 0 <= one < two < after.len() implies (
    #[trigger] after[one]).0 < (#[trigger] after[two]).0 by {
        let first = if one < at {
            one
        } else {
            one - 1
        };
        let second = if two < at {
            two
        } else {
            two - 1
        };
        if one != at && two != at {
            assert(after[one] == state.ready[first]);
            assert(after[two] == state.ready[second]);
        } else if one == at {
            assert(after[two] == state.ready[second]);
            assert(state.ready[second].0 != index);
        } else {
            assert(after[one] == state.ready[first]);
        }
    }
}

pub(crate) proof fn lemma_evicted<P: Payload>(state: StateView<P>)
    requires
        state.valid(),
    ensures
        state.evicted().valid(),
        state.balanced() ==> state.evicted().balanced(),
        !state.evicted().crowded(),
        state.evicted().queue == state.queue,
        state.evicted().in_flight == state.in_flight,
        state.evicted().generation == state.generation,
        state.evicted().last_index == state.last_index,
        state.evicted().window == state.window,
        state.evicted().entry_cap == state.entry_cap,
        state.evicted().budget == state.budget,
        state.ready.len() > 0 ==> state.evicted().ready.len() > 0,
        forall|index: i32|
            #[trigger] is_ready(state.evicted().ready, index) ==> is_ready(state.ready, index),
    decreases state.ready.len(),
{
    if state.crowded() {
        lemma_released(state, state.victim());
        lemma_evicted(state.released(state.victim()));
        let left = state.ready.remove(state.victim());
        assert forall|index: i32| #[trigger] is_ready(left, index) implies is_ready(
            state.ready,
            index,
        ) by {
            let at = choose|at: int| 0 <= at < left.len() && (#[trigger] left[at]).0 == index;
            if at < state.victim() {
                assert(state.ready[at] == left[at]);
            } else {
                assert(state.ready[at + 1] == left[at]);
            }
        }
    }
}

/// The frame of the newest request is the last to be dropped from a crowded
/// cache, so it stays.
pub(crate) proof fn lemma_newest_stays<P: Payload>(state: StateView<P>, at: int)
    requires
        state.valid(),
        0 <= at < state.ready.len(),
        state.last_index == Some(state.ready[at].0),
    ensures
        exists|kept: int|
            0 <= kept < state.evicted().ready.len() && #[trigger] state.evicted().ready[kept]
                == state.ready[at],
    decreases state.ready.len(),
{
    if state.crowded() {
        let victim = state.victim();
        let rest = state.released(victim);
        assert(victim != at);
        lemma_released(state, victim);
        let moved = if victim < at {
            at - 1
        } else {
            at
        };
        assert(rest.ready[moved] == state.ready[at]);
        lemma_newest_stays(rest, moved);
    } else {
        assert(state.evicted().ready[at] == state.ready[at]);
    }
}

pub(crate) proof fn lemma_frames_prefix(frames: Seq<i32>, sizes: Seq<usize>, count: int)
    requires
        0 <= count <= frames.len(),
    ensures
        0 <= frames_bytes(frames.take(count), sizes) <= frames_bytes(frames, sizes),
    decreases frames.len(),
{
    if count < frames.len() {
        lemma_frames_prefix(frames.drop_last(), sizes, count);
        assert(frames.drop_last().take(count) =~= frames.take(count));
    } else {
        assert(frames.take(count) =~= frames);
        if frames.len() > 0 {
            lemma_frames_prefix(frames.drop_last(), sizes, count - 1);
            assert(frames.drop_last().take(count - 1) =~= frames.drop_last());
        }
    }
}

/// Decoded size of one frame, zero when the index is out of range.
pub fn frame_size(sizes: &[usize], index: i32) -> (bytes: usize)
    ensures
        bytes == size_at(sizes@, index),
{
    if index >= 0 && (index as usize) < sizes.len() {
        sizes[index as usize]
    } else {
        0
    }
}

/// The cache entry of a frame.
pub(crate) fn find_ready<P: Payload>(ready: &Vec<(i32, Finished<P>)>, index: i32) -> (found: Option<
    usize,
>)
    ensures
        match found {
            Some(at) => at < ready@.len() && ready@[at as int].0 == index && is_ready(
                ready@,
                index,
            ),
            None => !is_ready(ready@, index),
        },
{
    let mut at: usize = 0;
    while at < ready.len()
        invariant
            at <= ready@.len(),
            forall|before: int| 0 <= before < at ==> (#[trigger] ready@[before]).0 != index,
        decreases ready@.len() - at,
    {
        if ready[at].0 == index {
            return Some(at);
        }
        at = at + 1;
    }
    None
}

/// Whether a frame is being decoded.
pub(crate) fn is_in_flight(in_flight: &Vec<i32>, index: i32) -> (is: bool)
    ensures
        is == in_flight@.contains(index),
{
    let mut at: usize = 0;
    while at < in_flight.len()
        invariant
            at <= in_flight@.len(),
            forall|before: int| 0 <= before < at ==> #[trigger] in_flight@[before] != index,
        decreases in_flight@.len() - at,
    {
        if in_flight[at] == index {
            assert(in_flight@[at as int] == index);
            return true;
        }
        at = at + 1;
    }
    false
}

/// Whether a frame is queued.
pub(crate) fn in_queue(queue: &VecDeque<(u64, i32)>, index: i32) -> (is: bool)
    ensures
        is == is_queued(queue@, index),
{
    let mut at: usize = 0;
    while at < queue.len()
        invariant
            at <= queue@.len(),
            forall|before: int| 0 <= before < at ==> (#[trigger] queue@[before]).1 != index,
        decreases queue@.len() - at,
    {
        if queue[at].1 == index {
            assert(queue@[at as int].1 == index);
            return true;
        }
        at = at + 1;
    }
    false
}

/// Leaving frames out of the ones in flight leaves none of them there twice.
proof fn lemma_left_once(frames: Seq<i32>, kept: spec_fn(i32) -> bool)
    requires
        frames.no_duplicates(),
    ensures
        frames.filter(kept).no_duplicates(),
        forall|at: int|
            0 <= at < frames.filter(kept).len() ==> frames.contains(
                #[trigger] frames.filter(kept)[at],
            ),
    decreases frames.len(),
{
    reveal(Seq::filter);
    if frames.len() > 0 {
        let rest = frames.drop_last();
        let left = rest.filter(kept);
        lemma_left_once(rest, kept);
        assert forall|at: int| 0 <= at < left.len() implies frames.contains(#[trigger] left[at])
            && left[at] != frames.last() by {
            assert(rest.contains(left[at]));
            let from = choose|from: int| 0 <= from < rest.len() && rest[from] == left[at];
            assert(frames[from] == left[at]);
        }
        if kept(frames.last()) {
            assert(frames.filter(kept) =~= left.push(frames.last()));
            assert(frames.contains(frames.last()));
        }
    }
}

/// Taking a frame out of the ones in flight keeps a pool valid.
pub(crate) proof fn lemma_landed<P: Payload>(state: StateView<P>, index: i32)
    requires
        state.valid(),
    ensures
        state.landed(index).valid(),
{
    lemma_left_once(state.in_flight, other_than(index));
}

/// Takes a frame out of the ones in flight.
pub(crate) fn land<P: Payload>(state: &mut State<P>, index: i32)
    requires
        old(state)@.valid(),
    ensures
        final(state)@ == old(state)@.landed(index),
        final(state)@.valid(),
{
    let ghost before = state@;
    let ghost kept = other_than(index);
    let mut left: Vec<i32> = Vec::new();
    let mut at: usize = 0;
    while at < state.in_flight.len()
        invariant
            at <= state.in_flight@.len(),
            state@ == before,
            kept == other_than(index),
            left@ == before.in_flight.take(at as int).filter(kept),
        decreases state.in_flight@.len() - at,
    {
        let other: i32 = state.in_flight[at];
        let ghost taken = before.in_flight.take(at as int);
        if other != index {
            left.push(other);
        }
        at = at + 1;
        proof {
            let next = before.in_flight.take(at as int);
            assert(next.drop_last() =~= taken);
            assert(next.last() == other);
            reveal(Seq::filter);
        }
    }
    proof {
        lemma_landed(before, index);
    }
    assert(before.in_flight.take(at as int) =~= before.in_flight);
    state.in_flight = left;
    assert(state@ =~= before.landed(index));
}

/// Marks `index` as being decoded by the caller unless a worker owns it.
pub fn claim<P: Payload>(state: &mut State<P>, index: i32) -> (claimed: bool)
    requires
        old(state)@.valid(),
    ensures
        claimed == !old(state)@.in_flight.contains(index),
        final(state)@ == (if claimed {
            StateView {
                in_flight: old(state)@.in_flight.push(index),
                ..old(state)@.unqueued(index)
            }
        } else {
            old(state)@.unqueued(index)
        }),
        final(state)@.valid(),
        final(state)@.in_flight.contains(index),
        !is_queued(final(state)@.queue, index),
{
    unqueue(state, index);
    proof {
        let kept = not_queued_for(index);
        assert forall|at: int| 0 <= at < state@.queue.len() implies (#[trigger] state@.queue[at]).1
            != index by {
            old(state)@.queue.lemma_filter_pred(kept, at);
        }
    }
    if is_in_flight(&state.in_flight, index) {
        return false;
    }
    state.in_flight.push(index);
    assert(state@.in_flight.last() == index);
    true
}

/// Takes a frame out of the queue.
fn unqueue<P: Payload>(state: &mut State<P>, index: i32)
    requires
        old(state)@.valid(),
    ensures
        final(state)@ == old(state)@.unqueued(index),
        final(state)@.valid(),
{
    let ghost before = state@;
    let ghost kept = not_queued_for(index);
    let mut left: VecDeque<(u64, i32)> = VecDeque::new();
    let mut at: usize = 0;
    while at < state.queue.len()
        invariant
            at <= state.queue@.len(),
            state@ == before,
            before.valid(),
            kept == not_queued_for(index),
            left@ == before.queue.take(at as int).filter(kept),
            queued_once(left@),
            forall|one: int|
                0 <= one < left@.len() ==> exists|from: int|
                    0 <= from < at && (#[trigger] before.queue[from]).1 == (
                    #[trigger] left@[one]).1,
        decreases state.queue@.len() - at,
    {
        let entry = state.queue[at];
        let ghost taken = before.queue.take(at as int);
        let ghost so_far = left@;
        if entry.1 != index {
            left.push_back(entry);
        }
        at = at + 1;
        proof {
            let next = before.queue.take(at as int);
            assert(next.drop_last() =~= taken);
            assert(next.last() == entry);
            reveal(Seq::filter);
            assert(left@ == next.filter(kept));
            assert forall|one: int| 0 <= one < left@.len() implies exists|from: int|
                0 <= from < at && (#[trigger] before.queue[from]).1 == (#[trigger] left@[one]).1 by {
                if one < so_far.len() {
                    assert(left@[one] == so_far[one]);
                    let from = choose|from: int|
                        0 <= from < at - 1 && (#[trigger] before.queue[from]).1 == so_far[one].1;
                    assert(before.queue[from].1 == left@[one].1);
                } else {
                    assert(before.queue[at - 1].1 == left@[one].1);
                }
            }
            assert forall|one: int, two: int| 0 <= one < two < left@.len() implies (
            #[trigger] left@[one]).1 != (#[trigger] left@[two]).1 by {
                assert(left@[one] == so_far[one]);
                if two < so_far.len() {
                    assert(left@[two] == so_far[two]);
                } else {
                    let from = choose|from: int|
                        0 <= from < at - 1 && (#[trigger] before.queue[from]).1 == so_far[one].1;
                    assert(before.queue[from].1 != before.queue[at - 1].1);
                }
            }
        }
    }
    assert(before.queue.take(at as int) =~= before.queue);
    state.queue = left;
    assert(state@ =~= before.unqueued(index));
}

/// Releases the cache entry at `at`, keeping the byte accounting in sync.
fn release_at<P: Payload>(state: &mut State<P>, at: usize)
    requires
        old(state)@.valid(),
        at < old(state)@.ready.len(),
    ensures
        final(state)@ == old(state)@.released(at as int),
        final(state)@.valid(),
{
    proof {
        lemma_released(state@, at as int);
    }
    let ghost before = state@;
    let (_, entry) = state.ready.remove(at);
    if let Ok(payload) = entry {
        let bytes: usize = payload.bytes();
        if state.ready_bytes < bytes {
            state.ready_bytes = 0;
        } else {
            state.ready_bytes = state.ready_bytes - bytes;
        }
    }
    assert(state@ =~= before.released(at as int));
}

/// Releases one cached payload, keeping the byte accounting in sync.
pub fn release<P: Payload>(state: &mut State<P>, index: i32)
    requires
        old(state)@.valid(),
    ensures
        final(state)@.valid(),
        if is_ready(old(state)@.ready, index) {
            exists|at: int|
                0 <= at < old(state)@.ready.len() && (#[trigger] old(state)@.ready[at]).0 == index
                    && final(state)@ == old(state)@.released(at)
        } else {
            final(state)@ == old(state)@
        },
{
    match find_ready(&state.ready, index) {
        Some(at) => {
            let ghost before = state@;
            release_at(state, at);
            assert(before.ready[at as int].0 == index);
        },
        None => {},
    }
}

/// Drops cached payloads until the cache fits the entry and byte budgets.
///
/// Payloads behind the newest request are released first because consumers only
/// move forward. When every cached payload is still ahead of the request, the
/// furthest one is dropped because it is the cheapest to decode again later.
pub fn evict<P: Payload>(state: &mut State<P>)
    requires
        old(state)@.valid(),
    ensures
        final(state)@ == old(state)@.evicted(),
        final(state)@.valid(),
        !final(state)@.crowded(),
{
    let ghost before = state@;
    proof {
        lemma_evicted(before);
    }
    while state.ready.len() > 1 && (state.ready.len() > state.entry_cap || state.ready_bytes
        > state.budget)
        invariant
            state@.valid(),
            state@.evicted() == before.evicted(),
        decreases state@.ready.len(),
    {
        let behind = match state.last_index {
            Some(last) => state.ready[0].0 < last,
            None => false,
        };
        let victim: usize = if behind {
            0
        } else {
            state.ready.len() - 1
        };
        release_at(state, victim);
    }
}

/// Caches a finished payload (or its error) and trims the cache.
pub fn store<P: Payload>(state: &mut State<P>, index: i32, result: Finished<P>)
    requires
        old(state)@.valid(),
    ensures
        final(state)@ == old(state)@.stored(index, result),
        final(state)@.valid(),
{
    if find_ready(&state.ready, index).is_some() {
        return;
    }
    let ghost before = state@;
    proof {
        lemma_with_ready(before, index, result);
        lemma_place(before.ready, index);
    }
    let bytes: usize = match &result {
        Ok(payload) => payload.bytes(),
        Err(_) => 0,
    };
    state.ready_bytes = saturating_sum(state.ready_bytes, bytes);
    let at: usize = place_of(&state.ready, index);
    state.ready.insert(at, (index, result));
    assert(state@ =~= before.with_ready(index, result));
    evict(state);
}

/// Finds where a frame goes in the cache.
fn place_of<P: Payload>(ready: &Vec<(i32, Finished<P>)>, index: i32) -> (at: usize)
    ensures
        at == place(ready@, index),
{
    let mut at: usize = ready.len();
    assert(ready@.take(at as int) =~= ready@);
    while at > 0 && ready[at - 1].0 >= index
        invariant
            at <= ready@.len(),
            place(ready@, index) == place(ready@.take(at as int), index),
        decreases at,
    {
        assert(ready@.take(at as int).drop_last() =~= ready@.take(at - 1));
        at = at - 1;
    }
    at
}

/// Releases frames the consumer has already been handed until `wanted` bytes
/// are free.
///
/// Every frame a second clip has already asked for is behind the newest
/// request, so it can be decoded again if a later graph asks for it a third
/// time. The oldest ones go first because they are the least likely to be asked
/// for again.
pub fn make_room<P: Payload>(state: &mut State<P>, sizes: &[usize], index: i32, wanted: usize)
    requires
        old(state)@.valid(),
    ensures
        final(state)@ == old(state)@.with_room(sizes@, index, wanted, 0),
        final(state)@.valid(),
{
    let ghost before = state@;
    let mut freed: usize = 0;
    while freed < wanted && state.ready.len() > 0 && state.ready[0].0 < index
        invariant
            state@.valid(),
            state@.with_room(sizes@, index, wanted, freed) == before.with_room(
                sizes@,
                index,
                wanted,
                0,
            ),
        decreases state@.ready.len(),
    {
        let victim: i32 = state.ready[0].0;
        let bytes: usize = frame_size(sizes, victim);
        freed = saturating_sum(freed, bytes);
        release_at(state, 0);
    }
}

/// `left + right`, or the largest number there is where that is more.
pub(crate) fn saturating_sum(left: usize, right: usize) -> (sum: usize)
    ensures
        sum == pixel_format::saturated(left + right),
{
    if right > usize::MAX - left {
        usize::MAX
    } else {
        left + right
    }
}

/// Everything the pool holds or has committed to produce: the payloads cached
/// for a consumer, the payloads a worker is building, and the ones still queued.
///
/// Derived from the lists rather than kept as a counter, so it cannot drift when
/// a decode fails, is claimed by a consumer, or is dropped with a generation.
pub fn committed_bytes<P: Payload>(state: &State<P>, sizes: &[usize]) -> (bytes: usize)
    ensures
        bytes == pixel_format::saturated(state@.committed(sizes@)),
{
    let ghost queued = queued_frames(state@.queue);
    let ghost flying = state@.in_flight;
    let mut bytes: usize = state.ready_bytes;
    let mut at: usize = 0;
    while at < state.queue.len()
        invariant
            at <= state.queue@.len(),
            queued == queued_frames(state.queue@),
            bytes == pixel_format::saturated(
                state.ready_bytes + frames_bytes(queued.take(at as int), sizes@),
            ),
        decreases state.queue@.len() - at,
    {
        proof {
            lemma_frames_prefix(queued, sizes@, at as int);
            assert(queued.take(at + 1).drop_last() =~= queued.take(at as int));
        }
        bytes = saturating_sum(bytes, frame_size(sizes, state.queue[at].1));
        at = at + 1;
    }
    assert(queued.take(at as int) =~= queued);
    let mut at: usize = 0;
    while at < state.in_flight.len()
        invariant
            at <= state.in_flight@.len(),
            flying == state.in_flight@,
            bytes == pixel_format::saturated(
                state.ready_bytes + frames_bytes(queued, sizes@) + frames_bytes(
                    flying.take(at as int),
                    sizes@,
                ),
            ),
        decreases state.in_flight@.len() - at,
    {
        proof {
            lemma_frames_prefix(queued, sizes@, 0);
            lemma_frames_prefix(flying, sizes@, at as int);
            assert(flying.take(at + 1).drop_last() =~= flying.take(at as int));
        }
        bytes = saturating_sum(bytes, frame_size(sizes, state.in_flight[at]));
        at = at + 1;
    }
    assert(flying.take(at as int) =~= flying);
    bytes
}

impl<P: Payload> State<P> {
    /// The state of a pool that looks `window` frames ahead and may hold
    /// `budget` bytes.
    pub fn new(window: usize, budget: usize) -> (state: Self)
        requires
            window <= budget::MAX_WINDOW,
        ensures
            state@ == StateView::<P>::idle(window, budget),
            state@.valid(),
            state@.balanced(),
    {
        let state = State {
            queue: VecDeque::new(),
            in_flight: Vec::new(),
            ready: Vec::new(),
            ready_bytes: 0,
            generation: 0,
            last_index: None,
            window,
            entry_cap: window + READY_ENTRY_MARGIN,
            budget,
        };
        assert(state@ =~= StateView::<P>::idle(window, budget));
        state
    }
}

/// Storing a payload leaves the cache within the number of entries and of bytes
/// it may hold, unless it is the only one there is.
pub proof fn a_stored_payload_leaves_the_cache_within_its_bounds<P: Payload>(
    state: StateView<P>,
    index: i32,
    result: Finished<P>,
)
    requires
        state.valid(),
        !state.crowded(),
    ensures
        !state.stored(index, result).crowded(),
        state.stored(index, result).ready.len() > 0,
{
    if !is_ready(state.ready, index) {
        lemma_with_ready(state, index, result);
        lemma_evicted(state.with_ready(index, result));
    } else {
        let at = choose|at: int| 0 <= at < state.ready.len() && (#[trigger] state.ready[at]).0 == index;
        assert(state.ready.len() > at);
    }
}

/// The count of cached bytes stays what the cache holds, whatever is stored.
pub proof fn storing_keeps_the_books_balanced<P: Payload>(
    state: StateView<P>,
    index: i32,
    result: Finished<P>,
)
    requires
        state.valid(),
        state.balanced(),
        state.ready_bytes + entry_bytes(result) <= usize::MAX,
    ensures
        state.stored(index, result).balanced(),
{
    if !is_ready(state.ready, index) {
        lemma_with_ready(state, index, result);
        lemma_evicted(state.with_ready(index, result));
    }
}

/// A payload at or ahead of the newest request is only dropped from a crowded
/// cache when none behind the request is left.
pub proof fn payloads_behind_the_request_are_dropped_first<P: Payload>(
    state: StateView<P>,
    last: i32,
    at: int,
)
    requires
        state.valid(),
        state.crowded(),
        state.last_index == Some(last),
        0 <= at < state.ready.len(),
        state.ready[at].0 < last,
    ensures
        state.ready[state.victim()].0 < last,
        state.ready[state.victim()].0 <= state.ready[at].0,
{
}

/// A pool that has done nothing holds nothing, has no newest request, and may hold four
/// entries more than it looks ahead.
pub proof fn an_idle_pool_holds_nothing<P: Payload>(window: usize, budget: usize)
    requires
        window <= 16,
    ensures
        ({
            let state = StateView::<P>::idle(window, budget);
            &&& state.queue.len() == 0 && state.in_flight.len() == 0 && state.ready.len() == 0
            &&& state.ready_bytes == 0
            &&& state.last_index is None
            &&& state.window == window
            &&& state.entry_cap == window + 4
            &&& state.budget == budget
        }),
{
}

/// Where every entry is ahead of the newest request, a crowded cache drops the one that
/// is furthest from it.
pub proof fn the_furthest_payload_is_dropped_when_none_is_behind<P: Payload>(
    state: StateView<P>,
    at: int,
)
    requires
        state.valid(),
        state.crowded(),
        forall|i: int|
            0 <= i < state.ready.len() ==> match state.last_index {
                Some(last) => (#[trigger] state.ready[i]).0 >= last,
                None => true,
            },
        0 <= at < state.ready.len(),
    ensures
        0 <= state.victim() < state.ready.len(),
        state.ready[at].0 <= state.ready[state.victim()].0,
{
    assert(state.ready[0].0 == state.ready[0].0);
}

/// A cache is crowded when it holds more than one entry, and either more entries or
/// more bytes than it may.
pub proof fn a_cache_is_crowded_over_either_bound<P: Payload>(state: StateView<P>)
    ensures
        state.crowded() == (state.ready.len() >= 2 && (state.ready.len() > state.entry_cap
            || state.ready_bytes > state.budget)),
{
}

/// What is stored is found again under its own frame where nothing has to go: the other
/// entries stay, and the bytes of the cache grow by those of the payload. Storing a
/// frame twice changes nothing.
pub proof fn a_stored_payload_is_found_under_its_frame<P: Payload>(
    state: StateView<P>,
    index: i32,
    result: Finished<P>,
    at: int,
)
    requires
        state.valid(),
    ensures
        is_ready(state.ready, index) ==> state.stored(index, result) == state,
        !is_ready(state.ready, index) && state.ready.len() < state.entry_cap && state.ready_bytes
            + entry_bytes(result) <= state.budget ==> {
            let after = state.stored(index, result);
            &&& after.ready.contains((index, result))
            &&& after.ready.len() == state.ready.len() + 1
            &&& after.ready_bytes == state.ready_bytes + entry_bytes(result)
            &&& 0 <= at < state.ready.len() ==> after.ready.contains(state.ready[at])
        },
        state.stored(index, result).queue == state.queue,
        state.stored(index, result).in_flight == state.in_flight,
        state.stored(index, result).generation == state.generation,
        state.stored(index, result).last_index == state.last_index,
{
    if !is_ready(state.ready, index) {
        lemma_with_ready(state, index, result);
        lemma_evicted(state.with_ready(index, result));
        lemma_place(state.ready, index);
        let after = state.with_ready(index, result);
        let place = place(state.ready, index);
        assert(after.ready[place] == (index, result));
        if 0 <= at < state.ready.len() {
            let moved = if at < place {
                at
            } else {
                at + 1
            };
            assert(after.ready[moved] == state.ready[at]);
        }
    }
}

/// An entry holds the bytes of its payload, and an error holds none. Dropping one gives
/// its bytes back and leaves all the others.
pub proof fn a_dropped_entry_gives_its_bytes_back<P: Payload>(state: StateView<P>, at: int)
    requires
        state.valid(),
        state.balanced(),
        0 <= at < state.ready.len(),
    ensures
        match state.ready[at].1 {
            Ok(payload) => state.released(at).ready_bytes + payload.held() == state.ready_bytes,
            Err(_) => state.released(at).ready_bytes == state.ready_bytes,
        },
        state.released(at).ready.len() == state.ready.len() - 1,
        !is_ready(state.released(at).ready, state.ready[at].0),
{
    lemma_released(state, at);
    lemma_cached_bytes(state.ready.remove(at));
    let left = state.ready.remove(at);
    assert forall|other: int| 0 <= other < left.len() implies (#[trigger] left[other]).0
        != state.ready[at].0 by {
        if other < at {
            assert(left[other] == state.ready[other]);
        } else {
            assert(left[other] == state.ready[other + 1]);
        }
    }
}

/// Room is made from the oldest entry on and no further than needed: only entries
/// behind the request go, and without the last of those that went there was too little.
pub proof fn room_is_made_no_further_than_needed<P: Payload>(
    state: StateView<P>,
    sizes: Seq<usize>,
    index: i32,
    wanted: usize,
    freed: usize,
)
    ensures
        ({
            let after = state.with_room(sizes, index, wanted, freed);
            let gone = state.ready.len() - after.ready.len();
            &&& 0 <= gone <= state.ready.len()
            &&& after.ready == state.ready.skip(gone)
            &&& forall|i: int| 0 <= i < gone ==> (#[trigger] state.ready[i]).0 < index
            &&& freed >= wanted ==> gone == 0
            &&& state.ready.len() > 0 && state.ready[0].0 < index && freed < wanted ==> gone > 0
            &&& gone > 1 ==> freed + size_at(sizes, state.ready[0].0) < wanted
            &&& gone == 1 ==> freed + size_at(sizes, state.ready[0].0) >= wanted
                || after.ready.len() == 0 || after.ready[0].0 >= index
            &&& after.queue == state.queue
            &&& after.in_flight == state.in_flight
        }),
    decreases state.ready.len(),
{
    if !(freed >= wanted || state.ready.len() == 0 || state.ready[0].0 >= index) {
        let next = state.released(0);
        let more = pixel_format::saturated(freed + size_at(sizes, state.ready[0].0)) as usize;
        room_is_made_no_further_than_needed(next, sizes, index, wanted, more);
        let after = state.with_room(sizes, index, wanted, freed);
        let gone = next.ready.len() - after.ready.len();
        assert(next.ready.skip(gone) =~= state.ready.skip(gone + 1));
        assert forall|i: int| 0 <= i < gone + 1 implies (#[trigger] state.ready[i]).0 < index by {
            if i > 0 {
                assert(next.ready[i - 1] == state.ready[i]);
            }
        }
    } else {
        assert(state.ready.skip(0) =~= state.ready);
    }
}

/// A frame has the size that is listed for it, and what the sequence does not have has
/// none. Everything that is cached, being decoded or queued counts against the budget.
pub proof fn everything_a_pool_is_committed_to_counts<P: Payload>(
    state: StateView<P>,
    sizes: Seq<usize>,
    frame: i32,
)
    ensures
        0 <= frame < sizes.len() ==> size_at(sizes, frame) == sizes[frame as int],
        frame < 0 || frame >= sizes.len() ==> size_at(sizes, frame) == 0,
        (StateView { queue: state.queue.push((state.generation, frame)), ..state }).committed(sizes)
            == state.committed(sizes) + size_at(sizes, frame),
        (StateView { in_flight: state.in_flight.push(frame), ..state }).committed(sizes)
            == state.committed(sizes) + size_at(sizes, frame),
        state.queue.len() == 0 && state.in_flight.len() == 0 ==> state.committed(sizes)
            == state.ready_bytes,
{
    let queued = state.queue.push((state.generation, frame));
    assert(queued_frames(queued).drop_last() =~= queued_frames(state.queue));
    assert(queued_frames(queued).last() == frame);
    assert(state.in_flight.push(frame).drop_last() =~= state.in_flight);
    assert(queued_frames(Seq::<(u64, i32)>::empty()).len() == 0);
}

/// Taking a frame out of the queue, or out of those being decoded, takes out that frame
/// and no other.
pub proof fn a_frame_is_taken_out_alone<P: Payload>(state: StateView<P>, index: i32, other: i32)
    ensures
        !is_queued(state.unqueued(index).queue, index),
        other != index ==> is_queued(state.unqueued(index).queue, other) == is_queued(
            state.queue,
            other,
        ),
        !state.landed(index).in_flight.contains(index),
        other != index ==> state.landed(index).in_flight.contains(other)
            == state.in_flight.contains(other),
        state.unqueued(index).ready == state.ready,
        state.unqueued(index).in_flight == state.in_flight,
        state.landed(index).ready == state.ready,
        state.landed(index).queue == state.queue,
{
    lemma_queue_without(state.queue, index);
    lemma_flight_without(state.in_flight, index);
}

proof fn lemma_queue_without(queue: Seq<(u64, i32)>, index: i32)
    ensures
        forall|entry: (u64, i32)| #[trigger]
            queue.filter(not_queued_for(index)).contains(entry) == (queue.contains(entry) && entry.1
                != index),
        forall|other: i32| #[trigger]
            is_queued(queue.filter(not_queued_for(index)), other) == (is_queued(queue, other)
                && other != index),
    decreases queue.len(),
{
    reveal(Seq::filter);
    let left = queue.filter(not_queued_for(index));
    if queue.len() > 0 {
        let rest = queue.drop_last();
        let before = rest.filter(not_queued_for(index));
        lemma_queue_without(rest, index);
        assert forall|entry: (u64, i32)| #[trigger] left.contains(entry) == (queue.contains(entry)
            && entry.1 != index) by {
            if queue.contains(entry) {
                let at = choose|at: int| 0 <= at < queue.len() && queue[at] == entry;
                if at < rest.len() {
                    assert(rest[at] == entry);
                    assert(rest.contains(entry));
                }
            }
            if rest.contains(entry) {
                let at = choose|at: int| 0 <= at < rest.len() && rest[at] == entry;
                assert(queue[at] == entry);
            }
            if before.contains(entry) {
                let at = choose|at: int| 0 <= at < before.len() && before[at] == entry;
                assert(left[at] == entry);
            }
            if left.contains(entry) {
                let at = choose|at: int| 0 <= at < left.len() && left[at] == entry;
                if at < before.len() {
                    assert(before[at] == entry);
                    assert(before.contains(entry));
                } else {
                    assert(entry == queue.last());
                }
            }
            if entry == queue.last() {
                assert(queue[queue.len() - 1] == entry);
                if entry.1 != index {
                    assert(left[left.len() - 1] == entry);
                }
            }
        }
    }
    assert forall|other: i32| #[trigger] is_queued(left, other) == (is_queued(queue, other) && other
        != index) by {
        if is_queued(left, other) {
            let at = choose|at: int| 0 <= at < left.len() && (#[trigger] left[at]).1 == other;
            assert(left.contains(left[at]));
            let from = choose|from: int| 0 <= from < queue.len() && queue[from] == left[at];
            assert(queue[from].1 == other);
        }
        if is_queued(queue, other) && other != index {
            let at = choose|at: int| 0 <= at < queue.len() && (#[trigger] queue[at]).1 == other;
            assert(queue.contains(queue[at]));
            assert(left.contains(queue[at]));
            let to = choose|to: int| 0 <= to < left.len() && left[to] == queue[at];
            assert(left[to].1 == other);
        }
    }
}

proof fn lemma_flight_without(frames: Seq<i32>, index: i32)
    ensures
        forall|other: i32| #[trigger]
            frames.filter(other_than(index)).contains(other) == (frames.contains(other) && other
                != index),
    decreases frames.len(),
{
    reveal(Seq::filter);
    let left = frames.filter(other_than(index));
    if frames.len() > 0 {
        let rest = frames.drop_last();
        let before = rest.filter(other_than(index));
        lemma_flight_without(rest, index);
        assert forall|other: i32| #[trigger] left.contains(other) == (frames.contains(other)
            && other != index) by {
            if frames.contains(other) {
                let at = choose|at: int| 0 <= at < frames.len() && frames[at] == other;
                if at < rest.len() {
                    assert(rest[at] == other);
                    assert(rest.contains(other));
                }
            }
            if rest.contains(other) {
                let at = choose|at: int| 0 <= at < rest.len() && rest[at] == other;
                assert(frames[at] == other);
            }
            if before.contains(other) {
                let at = choose|at: int| 0 <= at < before.len() && before[at] == other;
                assert(left[at] == other);
            }
            if left.contains(other) {
                let at = choose|at: int| 0 <= at < left.len() && left[at] == other;
                if at < before.len() {
                    assert(before[at] == other);
                    assert(before.contains(other));
                } else {
                    assert(other == frames.last());
                }
            }
            if other == frames.last() {
                assert(frames[frames.len() - 1] == other);
                if other != index {
                    assert(left[left.len() - 1] == other);
                }
            }
        }
    }
}

} // verus!

use imgseqs::clip::{expected_bytes, READ_CLIPS};
use imgseqs::decoder::ImageInfo;
use imgseqs::error::ImgSeqError;
use imgseqs::image_types::{ColorType, Orientation};
use imgseqs::pixel::{PixelFormat, Transform};
use imgseqs::prefetch::budget::{pool_window, DEFAULT_BYTE_BUDGET, READY_ENTRY_MARGIN};
use imgseqs::prefetch::plan::{plan, plan_window};
use imgseqs::prefetch::pool::{
    answer, deliver, finish, image_at, next_job, start, still_building, take_over, Answer, Job,
};
use imgseqs::prefetch::state::{claim, committed_bytes, evict, release, store};
use imgseqs::prefetch::{automatic_budget, automatic_workers, Payload, State};

/// A payload that holds a number of bytes.
#[derive(Clone, Debug, PartialEq)]
struct Block(usize);

impl Payload for Block {
    fn held(&self) -> usize {
        self.0
    }

    fn bytes(&self) -> usize {
        self.0
    }
}

/// An image that is never read, to size budgets in tests.
fn synthetic(width: u32, height: u32, color_type: ColorType) -> ImageInfo {
    ImageInfo {
        path: "synthetic".to_string(),
        width,
        height,
        color_type,
        original_color_type: color_type.name().to_string(),
        has_icc_profile: false,
        icc_profile: None,
        cicp: None,
        chroma_location: None,
        orientation: Orientation::NoTransforms,
        transform: Transform::identity(),
        format: PixelFormat::from_color_type(color_type).expect("a supported color type"),
    }
}

fn bytes(image: &ImageInfo) -> usize {
    expected_bytes(&READ_CLIPS, image)
}

/// A scheduler state with an empty cache.
fn state_with(window: usize, budget: usize) -> State<Block> {
    State::new(window, budget)
}

fn queued(state: &State<Block>) -> Vec<i32> {
    state.queue.iter().map(|&(_, index)| index).collect()
}

fn cached(state: &State<Block>) -> Vec<i32> {
    state.ready.iter().map(|entry| entry.0).collect()
}

#[test]
fn automatic_budget_keeps_the_floor_and_follows_the_window() {
    let small = synthetic(1404, 2000, ColorType::Rgb8);
    assert_eq!(
        automatic_budget(&[bytes(&small)], 6),
        DEFAULT_BYTE_BUDGET,
        "payloads that fit the floor do not move it"
    );

    let large = synthetic(3672, 5274, ColorType::Rgb8);
    assert_eq!(bytes(&large), 3672 * 5274 * 3);
    let sizes = [bytes(&large)];
    assert_eq!(
        automatic_budget(&sizes, 6),
        bytes(&large) * 6,
        "a deep window on large payloads raises the budget"
    );
    assert_eq!(
        automatic_budget(&sizes, 0),
        DEFAULT_BYTE_BUDGET,
        "without lookahead only the floor is needed"
    );
}

#[test]
fn the_window_stops_at_the_budget() {
    let sizes = [10, 10, 10, 10, 10, 10];
    let mut state = state_with(4, 25);
    plan_window(&mut state, &sizes, 0);
    assert_eq!(queued(&state), [1, 2], "only the frames that fit are queued");
}

#[test]
fn a_budget_that_fits_the_window_queues_all_of_it() {
    let sizes = [10, 10, 10, 10, 10, 10];
    let mut state = state_with(4, 1024);
    plan_window(&mut state, &sizes, 0);
    assert_eq!(queued(&state), [1, 2, 3, 4]);
}

#[test]
fn a_frame_that_does_not_fit_is_skipped_not_stopped() {
    let sizes = [10, 100, 10, 10];
    let mut state = state_with(3, 25);
    plan_window(&mut state, &sizes, 0);
    assert_eq!(queued(&state), [2, 3], "the large frame is left to the consumer");
}

#[test]
fn delivered_frames_are_dropped_to_keep_the_lookahead_running() {
    let sizes = [10, 10, 10, 10, 10, 10];
    let mut state = state_with(4, 25);
    for index in [0, 1] {
        state.ready.push((index, Ok(Block(10))));
    }
    state.ready_bytes = 20;
    state.last_index = Some(0);

    plan_window(&mut state, &sizes, 1);
    assert_eq!(queued(&state), [2], "the delivered frame made room for one more");
    assert!(
        !cached(&state).contains(&0),
        "a frame the consumer already has is the cheapest to drop"
    );
    assert!(cached(&state).contains(&1), "frames ahead of the request are kept");
}

#[test]
fn a_queued_frame_is_not_queued_again() {
    let sizes = [10, 10, 10, 10];
    let mut state = state_with(3, 1024);
    plan_window(&mut state, &sizes, 0);
    plan_window(&mut state, &sizes, 1);
    assert_eq!(queued(&state), [1, 2, 3], "the frames already queued are not repeated");
}

#[test]
fn committed_bytes_counts_ready_decoding_and_queued() {
    let sizes = [10, 20, 30, 40];
    let mut state = state_with(4, 100);
    state.queue.push_back((0, 1));
    state.in_flight.push(2);
    state.ready_bytes = 40;
    assert_eq!(committed_bytes(&state, &sizes), 20 + 30 + 40);
    // A failed decode is cached without holding a frame of data.
    state.ready.push((0, Err(String::from("boom"))));
    assert_eq!(committed_bytes(&state, &sizes), 90);
}

#[test]
fn half_the_cores_decode_ahead() {
    assert_eq!(automatic_workers(0), 0);
    assert_eq!(automatic_workers(1), 0);
    assert_eq!(automatic_workers(2), 1);
    assert_eq!(automatic_workers(6), 3);
    assert_eq!(automatic_workers(64), 4);
}

#[test]
fn a_pool_looks_two_frames_further_than_it_has_workers() {
    assert_eq!(pool_window(0), 0);
    assert_eq!(pool_window(1), 3);
    assert_eq!(pool_window(14), 16);
    assert_eq!(pool_window(16), 16);
    let pool = start::<Block>(&[10], 99, None);
    assert_eq!(pool.workers, 16);
    assert_eq!(pool.state.window, 16);
    assert_eq!(pool.state.entry_cap, 16 + READY_ENTRY_MARGIN);
    assert_eq!(pool.state.budget, DEFAULT_BYTE_BUDGET);
    let pool = start::<Block>(&[10], 0, Some(7));
    assert_eq!((pool.workers, pool.state.window, pool.state.budget), (0, 0, 7));
}

#[test]
fn only_sequential_requests_queue_frames() {
    let sizes = [10; 20];
    let mut state = state_with(3, 1024);
    plan(&mut state, &sizes, 4);
    assert_eq!(queued(&state), [], "the first request continues none");
    plan(&mut state, &sizes, 5);
    assert_eq!(queued(&state), [6, 7, 8]);
    plan(&mut state, &sizes, 5);
    assert_eq!(queued(&state), [6, 7, 8], "a second clip asks for the same frame");
    let generation = state.generation;
    plan(&mut state, &sizes, 12);
    assert_eq!(queued(&state), []);
    assert_eq!(state.generation, generation + 1);
}

#[test]
fn a_frame_past_the_last_is_not_queued() {
    let sizes = [10, 10, 10];
    let mut state = state_with(8, 1024);
    plan_window(&mut state, &sizes, 1);
    assert_eq!(queued(&state), [2]);
    plan_window(&mut state, &sizes, i32::MAX);
    assert_eq!(queued(&state), [2]);
}

#[test]
fn one_decode_is_shared_by_the_consumers() {
    let mut state = state_with(3, 1024);
    assert!(matches!(answer(&mut state, 0), Answer::Build));
    assert!(matches!(answer(&mut state, 0), Answer::Wait));
    assert!(still_building(&state, 0));
    assert_eq!(deliver(&mut state, 0, Ok(Block(5))).ok(), Some(Block(5)));
    assert!(!still_building(&state, 0));
    assert_eq!(state.ready_bytes, 5);
    match answer(&mut state, 0) {
        Answer::Cached(payload) => assert_eq!(payload, Block(5)),
        _ => panic!("the cached payload is handed out"),
    }
}

#[test]
fn a_failed_decode_is_told_to_both_consumers_and_retried() {
    let mut state = state_with(3, 1024);
    assert!(matches!(answer(&mut state, 0), Answer::Build));
    let failed: Result<Block, ImgSeqError> = Err(ImgSeqError::from_display("no such file"));
    assert!(deliver(&mut state, 0, failed).is_err());
    match answer(&mut state, 0) {
        Answer::Failed(error) => assert_eq!(error.message(), "no such file"),
        _ => panic!("the failure is reported"),
    }
    assert!(matches!(answer(&mut state, 0), Answer::Build), "and then retried");
}

#[test]
fn a_worker_takes_what_is_still_wanted() {
    let mut state = state_with(3, 1024);
    assert_eq!(next_job(&mut state), Job::Idle);
    for entry in [(0, 1), (0, 2), (0, 3)] {
        state.queue.push_back(entry);
    }
    state.queue.push_back((7, 4));
    state.in_flight.push(1);
    state.ready.push((2, Ok(Block(1))));
    assert_eq!(next_job(&mut state), Job::Skip, "another thread decodes it");
    assert_eq!(next_job(&mut state), Job::Skip, "it is cached");
    assert_eq!(next_job(&mut state), Job::Decode(0, 3));
    assert_eq!(next_job(&mut state), Job::Skip, "the requests have moved on");
    finish(&mut state, 0, 3, Ok(Block(2)), false);
    assert_eq!(cached(&state), [2, 3]);
    assert_eq!(state.in_flight, [1]);
}

#[test]
fn a_result_of_an_older_generation_is_discarded() {
    let mut state = state_with(3, 1024);
    state.in_flight.push(3);
    state.generation = 1;
    finish(&mut state, 0, 3, Ok(Block(2)), false);
    assert!(cached(&state).is_empty());
    state.in_flight.push(3);
    finish(&mut state, 1, 3, Ok(Block(2)), true);
    assert!(cached(&state).is_empty(), "a stopped pool caches nothing");
    assert!(state.in_flight.is_empty());
}

#[test]
fn a_claimed_frame_leaves_the_queue() {
    let mut state = state_with(3, 1024);
    state.queue.push_back((0, 1));
    state.queue.push_back((0, 2));
    assert!(claim(&mut state, 1));
    assert_eq!(queued(&state), [2]);
    assert!(!claim(&mut state, 1));
    take_over(&mut state, 1);
    assert!(claim(&mut state, 1));
}

#[test]
fn a_full_cache_drops_what_is_behind_first() {
    let mut state = state_with(0, 25);
    state.last_index = Some(5);
    for index in [6, 4, 7] {
        store(&mut state, index, Ok(Block(10)));
    }
    assert_eq!(cached(&state), [6, 7], "the frame behind the request goes first");
    assert_eq!(state.ready_bytes, 20);
    store(&mut state, 8, Ok(Block(10)));
    assert_eq!(cached(&state), [6, 7], "then the furthest");
    store(&mut state, 6, Ok(Block(99)));
    assert_eq!(state.ready_bytes, 20, "a payload that is there stays");
    release(&mut state, 6);
    release(&mut state, 6);
    assert_eq!((cached(&state), state.ready_bytes), (vec![7], 10));
    state.budget = 1;
    evict(&mut state);
    assert_eq!(cached(&state), [7], "the last one is kept");
}

#[test]
fn the_cache_keeps_to_its_number_of_entries() {
    let mut state = state_with(0, 1024);
    for index in 0..10 {
        store(&mut state, index, Ok(Block(1)));
    }
    assert_eq!(cached(&state), [0, 1, 2, 3]);
}

#[test]
fn a_frame_index_the_sequence_does_not_have_is_reported() {
    let images = vec![synthetic(2, 2, ColorType::L8)];
    assert!(image_at(&images, 0).is_ok());
    for index in [-1, 1] {
        assert_eq!(
            image_at(&images, index).err().expect("out of range").message(),
            format!("requested frame {index}, but the clip has 1 frames")
        );
    }
}

#[test]
fn a_budget_too_small_for_one_frame_still_hands_it_out() {
    let sizes = [100, 100];
    let mut state = state_with(3, 1);
    for index in [0, 1] {
        plan(&mut state, &sizes, index);
        assert_eq!(queued(&state), [], "no frame fits the budget");
        assert!(matches!(answer(&mut state, index), Answer::Build));
        assert_eq!(deliver(&mut state, index, Ok(Block(100))).ok(), Some(Block(100)));
        assert!(
            matches!(answer(&mut state, index), Answer::Cached(Block(100))),
            "a second clip shares the decode of frame {index}"
        );
    }
}

#[test]
fn frames_of_a_variable_sequence_are_kept_apart() {
    let mut state = state_with(3, 1024);
    for (index, bytes) in [(0, 12), (1, 7)] {
        assert!(matches!(answer(&mut state, index), Answer::Build));
        assert!(deliver(&mut state, index, Ok(Block(bytes))).is_ok());
    }
    for (index, bytes) in [(0, 12), (1, 7), (0, 12)] {
        match answer(&mut state, index) {
            Answer::Cached(payload) => assert_eq!(payload, Block(bytes)),
            _ => panic!("frame {index} is cached"),
        }
    }
}

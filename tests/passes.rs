use raytrace::integrator::{next_step, Bounce, PathStep, MAX_DEPTH};
use raytrace::render::{
    after_answer, buffer_row, channel_capacity, render_passes, sample_claimed, Accumulator, Action,
    AfterPass, Pass, Received,
};

#[test]
fn straight_down_miss_shows_background() {
    assert_eq!(next_step(0, Bounce::Missed), PathStep::Background);
    assert_eq!(next_step(MAX_DEPTH - 1, Bounce::Missed), PathStep::Background);
}

#[test]
fn absorbed_path_is_black() {
    assert_eq!(next_step(0, Bounce::Absorbed), PathStep::Black);
    assert_eq!(next_step(17, Bounce::Absorbed), PathStep::Black);
}

#[test]
fn scattered_path_stops_at_the_depth_cap() {
    assert_eq!(MAX_DEPTH, 50);
    assert_eq!(next_step(0, Bounce::Scattered), PathStep::Continue);
    assert_eq!(next_step(48, Bounce::Scattered), PathStep::Continue);
    assert_eq!(next_step(49, Bounce::Scattered), PathStep::Black);
}

#[test]
fn passes_go_from_preview_to_full() {
    let p = render_passes(600, 400, 1000, 15);
    assert_eq!(
        p,
        vec![
            Pass { imgx: 150, imgy: 100, n_samples: 1, n_threads: 1 },
            Pass { imgx: 600, imgy: 400, n_samples: 1, n_threads: 1 },
            Pass { imgx: 600, imgy: 400, n_samples: 1000, n_threads: 15 },
        ]
    );
}

#[test]
fn answer_decides_the_next_pass() {
    assert_eq!(after_answer(0, 3, true), AfterPass::Pass(1));
    assert_eq!(after_answer(1, 3, true), AfterPass::Pass(2));
    assert_eq!(after_answer(2, 3, true), AfterPass::NewScene);
    assert_eq!(after_answer(0, 3, false), AfterPass::NewScene);
}

#[test]
fn workers_share_the_sample_counter() {
    assert_eq!(channel_capacity(15), 45);
    assert_eq!(channel_capacity(1), 3);
    assert!(sample_claimed(0, 1));
    assert!(!sample_claimed(1, 1));
    assert!(sample_claimed(999, 1000));
    assert!(!sample_claimed(1000, 1000));
    assert!(!sample_claimed(0, 0));
}

#[test]
fn rows_are_stored_from_the_top() {
    assert_eq!(buffer_row(0, 400), 399);
    assert_eq!(buffer_row(399, 400), 0);
}

#[test]
fn accumulator_drains_then_snapshots() {
    let mut a = Accumulator::new();
    assert!(a.waits_for_frame());
    assert_eq!(a.step(Received::Frame), Action::Accumulate);
    assert!(!a.waits_for_frame());
    assert_eq!(a.step(Received::Frame), Action::Accumulate);
    assert_eq!(a.step(Received::Timeout), Action::Snapshot);
    assert!(a.waits_for_frame());
    assert_eq!(a.frames, 2);
    assert_eq!(a.step(Received::Timeout), Action::Wait);
    assert_eq!(a.step(Received::Frame), Action::Accumulate);
    assert_eq!(a.step(Received::Closed), Action::Snapshot);
    assert_eq!(a.step(Received::Closed), Action::Finish);
    assert_eq!(a.frames, 3);
}

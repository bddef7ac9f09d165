use std::collections::VecDeque;
use std::sync::atomic::{AtomicUsize, Ordering};

use glazer::debug::{debug_time_micros, debug_time_millis, debug_time_nanos};
use glazer::platform::{
    fill_output, plan_window_event, queue_samples, samples_to_render, EventPlan, FnPtrs,
    FrameSize, HotReloading, ReloadError, WindowEventKind, SAMPLE_HEAD,
};

static CALLS: AtomicUsize = AtomicUsize::new(0);

fn input_a(n: usize) {
    CALLS.store(100 + n, Ordering::SeqCst);
}

fn input_b(n: usize) {
    CALLS.store(200 + n, Ordering::SeqCst);
}

fn update_a(n: usize) {
    CALLS.store(300 + n, Ordering::SeqCst);
}

fn update_b(n: usize) {
    CALLS.store(400 + n, Ordering::SeqCst);
}

#[test]
fn reload_is_due_only_for_a_newer_library() {
    let mut reloading = HotReloading::from_path_at(Some("target/debug/libgame.so"), 100);
    assert_eq!(reloading.path(), Some("target/debug/libgame.so"));
    assert!(!reloading.reload_due(None));
    assert!(!reloading.reload_due(Some(99)));
    assert!(!reloading.reload_due(Some(100)));
    assert!(reloading.reload_due(Some(101)));
    assert!(!reloading.reload_due(Some(101)));
    assert!(reloading.reload_due(Some(150)));
}

#[test]
fn times_before_the_epoch_are_ordered_too() {
    let mut reloading = HotReloading::from_path_at(Some("lib.so"), -100);
    assert!(!reloading.reload_due(Some(-150)));
    assert!(!reloading.reload_due(Some(-100)));
    assert!(reloading.reload_due(Some(-10)));
    assert!(reloading.reload_due(Some(5)));
    assert!(!reloading.reload_due(Some(-1)));
}

#[test]
fn without_a_path_nothing_is_reloaded() {
    let mut reloading = HotReloading::from_path_at(None, 0);
    assert_eq!(reloading.path(), None);
    assert!(!reloading.reload_due(Some(5)));
    let mut reloading = HotReloading::from_path(None);
    assert!(!reloading.reload_due(Some(i128::MAX)));
}

#[test]
fn install_replaces_functions_in_order() {
    type F = fn(usize);
    let mut fns: FnPtrs<F, F> = FnPtrs::new(input_a as F, update_a as F, Some("lib.so"));
    assert_eq!(fns.reload_path(), Some("lib.so"));

    assert_eq!(fns.install(false, Some(update_b as F), Some(input_b as F)), Err(ReloadError::OpenFailed));
    fns.update_and_render(1);
    assert_eq!(CALLS.load(Ordering::SeqCst), 301);

    assert_eq!(fns.install(true, None, Some(input_b as F)), Err(ReloadError::MissingUpdateAndRender));
    fns.handle_input(2);
    assert_eq!(CALLS.load(Ordering::SeqCst), 102);

    assert_eq!(fns.install(true, Some(update_b as F), None), Err(ReloadError::MissingHandleInput));
    fns.update_and_render(3);
    assert_eq!(CALLS.load(Ordering::SeqCst), 403);
    fns.handle_input(4);
    assert_eq!(CALLS.load(Ordering::SeqCst), 104);

    assert_eq!(fns.install(true, Some(update_a as F), Some(input_b as F)), Ok(()));
    fns.handle_input(5);
    assert_eq!(CALLS.load(Ordering::SeqCst), 205);
    fns.update_and_render(6);
    assert_eq!(CALLS.load(Ordering::SeqCst), 306);
}

#[test]
fn fn_ptrs_reload_when_the_library_is_newer() {
    type F = fn(usize);
    let mut fns: FnPtrs<F, F> = FnPtrs::new(input_a as F, update_a as F, None);
    assert!(!fns.reload(Some(i128::MAX)));
    let mut fns: FnPtrs<F, F> = FnPtrs::new(input_a as F, update_a as F, Some("lib.so"));
    assert!(!fns.reload(None));
    assert!(fns.reload(Some(i128::MAX)));
    assert!(!fns.reload(Some(i128::MAX)));
}

#[test]
fn samples_are_requested_while_the_queue_is_short() {
    assert_eq!(SAMPLE_HEAD, 1024 * 5);
    assert_eq!(samples_to_render(0), 5120);
    assert_eq!(samples_to_render(5119), 5120);
    assert_eq!(samples_to_render(5120), 0);
    assert_eq!(samples_to_render(100_000), 0);
}

#[test]
fn output_takes_what_is_queued() {
    let mut queue: VecDeque<i32> = VecDeque::from(vec![1, 2]);
    let mut out = [7, 7, 7];
    fill_output(&mut out, &mut queue);
    assert_eq!(out, [1, 2, 7]);
    assert!(queue.is_empty());

    let mut queue: VecDeque<i32> = VecDeque::from(vec![1, 2, 3]);
    let mut out = [0, 0];
    fill_output(&mut out, &mut queue);
    assert_eq!(out, [1, 2]);
    assert_eq!(queue, VecDeque::from(vec![3]));
}

#[test]
fn rendered_samples_are_queued_in_order() {
    let mut queue: VecDeque<i32> = VecDeque::from(vec![1]);
    queue_samples(&mut queue, &[2, 3]);
    queue_samples(&mut queue, &[]);
    assert_eq!(queue, VecDeque::from(vec![1, 2, 3]));
}

#[test]
fn window_events() {
    let mut size = FrameSize { width: 10, height: 20 };
    let plan = plan_window_event(&mut size, true, true, WindowEventKind::CloseRequested);
    assert_eq!(plan, EventPlan { exit: true, resize: false, render: false, forward: true });

    let plan = plan_window_event(&mut size, true, true, WindowEventKind::Resized { width: 30, height: 40 });
    assert_eq!(plan, EventPlan { exit: false, resize: true, render: false, forward: true });
    assert_eq!(size, FrameSize { width: 30, height: 40 });

    let plan = plan_window_event(&mut size, true, true, WindowEventKind::Resized { width: 0, height: 40 });
    assert!(!plan.resize);
    assert_eq!(size, FrameSize { width: 30, height: 40 });

    let plan = plan_window_event(&mut size, true, false, WindowEventKind::Resized { width: 5, height: 5 });
    assert_eq!(plan, EventPlan { exit: false, resize: false, render: false, forward: false });
    assert_eq!(size, FrameSize { width: 30, height: 40 });

    let plan = plan_window_event(&mut size, true, true, WindowEventKind::RedrawRequested);
    assert_eq!(plan, EventPlan { exit: false, resize: false, render: true, forward: true });

    let plan = plan_window_event(&mut size, false, true, WindowEventKind::RedrawRequested);
    assert_eq!(plan, EventPlan { exit: false, resize: false, render: false, forward: false });

    let plan = plan_window_event(&mut size, true, true, WindowEventKind::Other);
    assert_eq!(plan, EventPlan { exit: false, resize: false, render: false, forward: true });
}

#[test]
fn timing_passes_the_result_through() {
    let (_, r) = debug_time_millis(|| 42);
    assert_eq!(r, 42);
    let (_, r) = debug_time_micros(|| "done");
    assert_eq!(r, "done");
    let (_, r) = debug_time_nanos(|| vec![1, 2]);
    assert_eq!(r, vec![1, 2]);
}

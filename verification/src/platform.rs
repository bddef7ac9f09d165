//! The decisions of the platform layer: when to reload the game's code, which
//! functions a reload installs, how audio samples move between the game and
//! the output device, and what each window event leads to.

use vstd::prelude::*;
use std::collections::VecDeque;
use crate::clock::{duration_nanos, since_epoch, system_time_now, time_error_duration};

verus! {

/// Where the game's code is reloaded from, and the modification time (in
/// nanoseconds from the Unix epoch, negative before it) of the version
/// loaded last.
pub struct HotReloading {
    path: Option<String>,
    loaded: i128,
}

impl HotReloading {
    /// The path the game's code is reloaded from, if any.
    pub closed spec fn path_view(&self) -> Option<Seq<char>> {
        match self.path {
            Some(p) => Some(p@),
            None => None,
        }
    }

    /// The modification time of the version loaded last.
    pub closed spec fn loaded_at(&self) -> i128 {
        self.loaded
    }

    /// Reloading from `path` (none: never reload), counting the version on
    /// disk at time `now` as already loaded.
    pub fn from_path_at(path: Option<&str>, now: i128) -> (r: Self)
        ensures
            r.path_view() == match path {
                Some(p) => Some(p@),
                None => None::<Seq<char>>,
            },
            r.loaded_at() == now,
    {
        let path = match path {
            Some(p) => Some(p.to_owned()),
            None => None,
        };
        HotReloading { path, loaded: now }
    }

    /// Reloading from `path` (none: never reload), counting the version on
    /// disk now as already loaded. The load time is the system clock's
    /// reading in nanoseconds from the epoch, so it lies within the longest
    /// duration there is (`u64::MAX` seconds and 999,999,999 nanoseconds)
    /// of the epoch.
    pub fn from_path(path: Option<&str>) -> (r: Self)
        ensures
            r.path_view() == match path {
                Some(p) => Some(p@),
                None => None::<Seq<char>>,
            },
            -(0xffff_ffff_ffff_ffff * 1_000_000_000 + 999_999_999) <= r.loaded_at()
                <= 0xffff_ffff_ffff_ffff * 1_000_000_000 + 999_999_999,
    {
        let now = system_time_now();
        let nanos: i128 = match since_epoch(&now) {
            Ok(after) => duration_nanos(&after) as i128,
            Err(e) => -(duration_nanos(&time_error_duration(&e)) as i128),
        };
        Self::from_path_at(path, nanos)
    }

    /// The path to reload from, if any.
    pub fn path(&self) -> (r: Option<&str>)
        ensures
            match r {
                Some(p) => self.path_view() == Some(p@),
                None => self.path_view() is None,
            },
    {
        match &self.path {
            Some(p) => Some(p.as_str()),
            None => None,
        }
    }

    /// Whether a version modified at `modified` (none: unknown) is due to be
    /// loaded: there is a path to reload from, and it is strictly newer than
    /// the version loaded last. When it is, it counts as loaded from now on.
    pub fn reload_due(&mut self, modified: Option<i128>) -> (due: bool)
        ensures
            due == (old(self).path_view() is Some && modified is Some && modified.unwrap()
                > old(self).loaded_at()),
            final(self).path_view() == old(self).path_view(),
            final(self).loaded_at() == if due {
                modified.unwrap()
            } else {
                old(self).loaded_at()
            },
    {
        if self.path.is_none() {
            return false;
        }
        match modified {
            Some(m) => {
                if m > self.loaded {
                    self.loaded = m;
                    true
                } else {
                    false
                }
            },
            None => false,
        }
    }
}

/// Why a reload left some of the game's functions as they were.
#[derive(Debug, Clone, Copy, PartialEq, Eq)]
pub enum ReloadError {
    /// The copied library could not be opened; nothing was replaced.
    OpenFailed,
    /// The library has no `update_and_render`; nothing was replaced.
    MissingUpdateAndRender,
    /// The library has no `handle_input`; only `update_and_render` was replaced.
    MissingHandleInput,
}

/// The game's entry points, and where to reload them from.
pub struct FnPtrs<I, U> {
    reloading: HotReloading,
    handle_input: I,
    update_and_render: U,
}

impl<I, U> FnPtrs<I, U> {
    /// The function that input events are handed to.
    pub closed spec fn input_fn(&self) -> I {
        self.handle_input
    }

    /// The function called once per frame.
    pub closed spec fn update_fn(&self) -> U {
        self.update_and_render
    }

    /// Where the functions are reloaded from.
    pub closed spec fn reloading_state(&self) -> HotReloading {
        self.reloading
    }

    /// The entry points `handle_input` and `update_and_render`, reloaded from
    /// `path` when it is given.
    pub fn new(handle_input: I, update_and_render: U, path: Option<&str>) -> (r: Self)
        ensures
            r.input_fn() == handle_input,
            r.update_fn() == update_and_render,
            r.reloading_state().path_view() == match path {
                Some(p) => Some(p@),
                None => None::<Seq<char>>,
            },
            -(0xffff_ffff_ffff_ffff * 1_000_000_000 + 999_999_999) <= r.reloading_state().loaded_at()
                <= 0xffff_ffff_ffff_ffff * 1_000_000_000 + 999_999_999,
    {
        FnPtrs {
            reloading: HotReloading::from_path(path),
            handle_input,
            update_and_render,
        }
    }

    /// The path the functions are reloaded from, if any.
    pub fn reload_path(&self) -> (r: Option<&str>)
        ensures
            match r {
                Some(p) => self.reloading_state().path_view() == Some(p@),
                None => self.reloading_state().path_view() is None,
            },
    {
        self.reloading.path()
    }

    /// Decides whether to reload the functions from the library last modified
    /// at `modified` (none: unknown): it is due when there is a path and the
    /// library is newer than the one loaded last (see
    /// `HotReloading::reload_due`). When it is, the caller opens it and hands
    /// what it found to `install`; the functions stay as they are until then.
    pub fn reload(&mut self, modified: Option<i128>) -> (due: bool)
        ensures
            due == (old(self).reloading_state().path_view() is Some && modified is Some
                && modified.unwrap() > old(self).reloading_state().loaded_at()),
            final(self).reloading_state().path_view() == old(self).reloading_state().path_view(),
            final(self).reloading_state().loaded_at() == if due {
                modified.unwrap()
            } else {
                old(self).reloading_state().loaded_at()
            },
            final(self).input_fn() == old(self).input_fn(),
            final(self).update_fn() == old(self).update_fn(),
    {
        self.reloading.reload_due(modified)
    }

    /// Installs the functions found in a freshly loaded library: `opened`
    /// tells whether it could be opened, `update_and_render` and
    /// `handle_input` are the symbols found in it. `update_and_render` is
    /// looked at first; `handle_input` is installed only along with it.
    pub fn install(&mut self, opened: bool, update_and_render: Option<U>, handle_input: Option<I>) -> (r: Result<(), ReloadError>)
        ensures
            final(self).reloading_state() == old(self).reloading_state(),
            !opened ==> r == Err::<(), ReloadError>(ReloadError::OpenFailed)
                && final(self).update_fn() == old(self).update_fn()
                && final(self).input_fn() == old(self).input_fn(),
            opened && update_and_render is None ==> r == Err::<(), ReloadError>(ReloadError::MissingUpdateAndRender)
                && final(self).update_fn() == old(self).update_fn()
                && final(self).input_fn() == old(self).input_fn(),
            opened && update_and_render is Some && handle_input is None ==> r == Err::<(), ReloadError>(ReloadError::MissingHandleInput)
                && final(self).update_fn() == update_and_render.unwrap()
                && final(self).input_fn() == old(self).input_fn(),
            opened && update_and_render is Some && handle_input is Some ==> r == Ok::<(), ReloadError>(())
                && final(self).update_fn() == update_and_render.unwrap()
                && final(self).input_fn() == handle_input.unwrap(),
    {
        if !opened {
            return Err(ReloadError::OpenFailed);
        }
        match update_and_render {
            Some(u) => {
                self.update_and_render = u;
                match handle_input {
                    Some(h) => {
                        self.handle_input = h;
                        Ok(())
                    },
                    None => Err(ReloadError::MissingHandleInput),
                }
            },
            None => Err(ReloadError::MissingUpdateAndRender),
        }
    }

    /// Hands `input` to the game's `handle_input`.
    pub fn handle_input<In>(&self, input: In)
        where I: Fn(In),
        requires
            self.input_fn().requires((input,)),
        ensures
            self.input_fn().ensures((input,), ()),
    {
        (self.handle_input)(input)
    }

    /// Hands a frame's `input` to the game's `update_and_render`.
    pub fn update_and_render<In>(&self, input: In)
        where U: Fn(In),
        requires
            self.update_fn().requires((input,)),
        ensures
            self.update_fn().ensures((input,), ()),
    {
        (self.update_and_render)(input)
    }
}

/// The most samples the game is asked for in one frame.
pub const SAMPLE_HEAD: usize = 5120;

/// The number of samples the game is asked to render in a frame, given the
/// number `buffered` still waiting for the output device: a full head while
/// fewer than a head are buffered, none otherwise.
pub fn samples_to_render(buffered: usize) -> (n: usize)
    ensures
        n == if buffered < SAMPLE_HEAD {
            SAMPLE_HEAD
        } else {
            0
        },
{
    if buffered < SAMPLE_HEAD {
        SAMPLE_HEAD
    } else {
        0
    }
}

/// Moves buffered samples to the output device's buffer `out`: as many as
/// both hold, from the front of `queue`. The rest of `out` is left as it was.
pub fn fill_output<T: Copy>(out: &mut [T], queue: &mut VecDeque<T>)
    ensures
        ({
            let m = if old(out)@.len() <= old(queue)@.len() {
                old(out)@.len()
            } else {
                old(queue)@.len()
            };
            &&& final(out)@ == old(queue)@.take(m as int) + old(out)@.skip(m as int)
            &&& final(queue)@ == old(queue)@.skip(m as int)
        }),
{
    let ghost out0 = out@;
    let ghost queue0 = queue@;
    let len = out.len();
    let buffered = queue.len();
    let m = if len <= buffered {
        len
    } else {
        buffered
    };
    let mut i: usize = 0;
    while i < m
        invariant
            i <= m,
            m <= len,
            m <= queue0.len(),
            len == out0.len(),
            out@.len() == out0.len(),
            queue@ == queue0.skip(i as int),
            forall|k: int| 0 <= k < i ==> out@[k] == queue0[k],
            forall|k: int| i <= k < out0.len() ==> out@[k] == out0[k],
        decreases m - i,
    {
        match queue.pop_front() {
            Some(sample) => {
                out[i] = sample;
            },
            None => {
                assert(false);
            },
        }
        i = i + 1;
        assert(queue@ =~= queue0.skip(i as int));
    }
    assert(out@ =~= queue0.take(m as int) + out0.skip(m as int));
}

/// Appends the samples the game rendered to the queue for the output device.
pub fn queue_samples<T: Copy>(queue: &mut VecDeque<T>, samples: &[T])
    ensures
        final(queue)@ == old(queue)@ + samples@,
{
    let ghost queue0 = queue@;
    let n = samples.len();
    let mut i: usize = 0;
    while i < n
        invariant
            i <= n,
            n == samples@.len(),
            queue@ == queue0 + samples@.take(i as int),
        decreases n - i,
    {
        queue.push_back(samples[i]);
        i = i + 1;
        assert(queue@ =~= queue0 + samples@.take(i as int));
    }
    assert(samples@.take(n as int) =~= samples@);
}

/// The window events the platform layer tells apart.
#[derive(Debug, Clone, Copy, PartialEq, Eq)]
pub enum WindowEventKind {
    CloseRequested,
    Resized { width: u32, height: u32 },
    RedrawRequested,
    Other,
}

/// The size of the frame the game renders.
#[derive(Debug, Clone, Copy, PartialEq, Eq)]
pub struct FrameSize {
    pub width: usize,
    pub height: usize,
}

/// What the platform layer does for one window event.
#[derive(Debug, Clone, Copy, PartialEq, Eq)]
pub struct EventPlan {
    /// Leave the event loop.
    pub exit: bool,
    /// Resize the surface to the new frame size.
    pub resize: bool,
    /// Render and present a frame.
    pub render: bool,
    /// Hand the event to the game's `handle_input`.
    pub forward: bool,
}

/// Decides what a window event leads to, given whether the window and the
/// graphics surface exist; a resize to a non-empty size with a surface
/// updates `size`.
pub fn plan_window_event(size: &mut FrameSize, has_window: bool, has_gfx: bool, event: WindowEventKind) -> (plan: EventPlan)
    ensures
        plan.exit == (event == WindowEventKind::CloseRequested),
        plan.resize == (has_gfx && (event matches WindowEventKind::Resized { width, height } && width > 0 && height > 0)),
        plan.render == (event == WindowEventKind::RedrawRequested && has_window && has_gfx),
        plan.forward == (has_window && has_gfx),
        *final(size) == match event {
            WindowEventKind::Resized { width, height } => if plan.resize {
                FrameSize { width: width as usize, height: height as usize }
            } else {
                *old(size)
            },
            _ => *old(size),
        },
{
    let mut plan = EventPlan { exit: false, resize: false, render: false, forward: false };
    match event {
        WindowEventKind::CloseRequested => {
            plan.exit = true;
        },
        WindowEventKind::Resized { width, height } => {
            if has_gfx && width > 0 && height > 0 {
                size.width = width as usize;
                size.height = height as usize;
                plan.resize = true;
            }
        },
        WindowEventKind::RedrawRequested => {
            if !(has_window && has_gfx) {
                return plan;
            }
            plan.render = true;
        },
        WindowEventKind::Other => {},
    }
    plan.forward = has_window && has_gfx;
    plan
}

} // verus!

//! When a captured window has changed its size for good.

use vstd::prelude::*;

use crate::media;
use crate::media::{nanos_since, CaptureSettings, CaptureSettingsView};
use crate::text;

verus! {

pub const WINDOW_RESIZE_SAFETY_POLL_INTERVAL_NANOS: u64 = 1_000_000_000;

/// How long a polled size has to stand before it counts.
pub const WINDOW_RESIZE_SAFETY_SETTLE_TIME_NANOS: u64 = 200_000_000;

pub const WINDOW_RESIZE_EVENT_QUIET_TIME_NANOS: u64 = 120_000_000;

pub const WINDOW_RESIZE_FRAME_GRACE_NANOS: u64 = 40_000_000;

/// The number of attempts that follow one another quickly.
pub const WINDOW_RESIZE_RESTART_ATTEMPTS: usize = 3;

pub const WINDOW_RESIZE_RETRY_DELAY_NANOS: u64 = 150_000_000;

pub const WINDOW_RESIZE_RECOVERY_RETRY_DELAY_NANOS: u64 = 2_000_000_000;

#[derive(Clone, Copy, Debug, PartialEq, Eq, Structural)]
pub enum WindowResizeEvent {
    LocationChange,
    MoveSizeEnd,
}

impl WindowResizeEvent {
    /// How long no other event may follow until the resize counts as done.
    pub fn quiet_time(self) -> (r: u64)
        ensures
            r == match self {
                WindowResizeEvent::LocationChange => WINDOW_RESIZE_EVENT_QUIET_TIME_NANOS,
                WindowResizeEvent::MoveSizeEnd => WINDOW_RESIZE_FRAME_GRACE_NANOS,
            },
    {
        match self {
            WindowResizeEvent::LocationChange => WINDOW_RESIZE_EVENT_QUIET_TIME_NANOS,
            WindowResizeEvent::MoveSizeEnd => WINDOW_RESIZE_FRAME_GRACE_NANOS,
        }
    }
}

#[derive(Clone, Copy, Debug, PartialEq, Eq, Structural)]
pub struct WindowSourceIdentity {
    pub index: usize,
    pub native_id: Option<u64>,
}

#[derive(Clone, Copy, Debug, PartialEq, Eq, Structural)]
pub struct Dimensions {
    pub width: u32,
    pub height: u32,
}

/// Reports a new size once, when it has settled.
#[derive(Clone, Copy, Debug, PartialEq, Eq, Structural)]
pub struct WindowResizeDebouncer {
    pub source: Option<WindowSourceIdentity>,
    pub candidate: Option<Dimensions>,
    pub candidate_since: Option<u64>,
    pub emitted: Option<Dimensions>,
}

pub open spec fn is_new_size(current: Dimensions, observed: Dimensions) -> bool {
    observed.width >= 2 && observed.height >= 2 && observed != current
}

pub open spec fn idle_debouncer(source: Option<WindowSourceIdentity>) -> WindowResizeDebouncer {
    WindowResizeDebouncer { source, candidate: None, candidate_since: None, emitted: None }
}

impl WindowResizeDebouncer {
    pub open spec fn tracks(self, source: WindowSourceIdentity, observed: Dimensions) -> bool {
        self.source == Some(source) && self.candidate == Some(observed)
    }

    pub open spec fn reporting(self, observed: Dimensions) -> (Self, Option<Dimensions>) {
        if self.emitted == Some(observed) {
            (self, None)
        } else {
            (WindowResizeDebouncer { emitted: Some(observed), ..self }, Some(observed))
        }
    }

    /// A polled size is reported once it has stood for the settle time.
    pub open spec fn after_poll(
        self,
        source: WindowSourceIdentity,
        current: Dimensions,
        observed: Dimensions,
        now: u64,
    ) -> (Self, Option<Dimensions>) {
        if !is_new_size(current, observed) {
            (idle_debouncer(Some(source)), None)
        } else if !self.tracks(source, observed) {
            (
                WindowResizeDebouncer {
                    source: Some(source),
                    candidate: Some(observed),
                    candidate_since: Some(now),
                    emitted: None,
                },
                None,
            )
        } else if media::timing::elapsed(
            now,
            match self.candidate_since {
                Some(since) => since,
                None => now,
            },
        ) < WINDOW_RESIZE_SAFETY_SETTLE_TIME_NANOS {
            (self, None)
        } else {
            self.reporting(observed)
        }
    }

    /// A size that an event calls settled is reported at once.
    pub open spec fn after_event(
        self,
        source: WindowSourceIdentity,
        current: Dimensions,
        observed: Dimensions,
    ) -> (Self, Option<Dimensions>) {
        if !is_new_size(current, observed) {
            (idle_debouncer(Some(source)), None)
        } else if !self.tracks(source, observed) {
            (
                WindowResizeDebouncer {
                    source: Some(source),
                    candidate: Some(observed),
                    candidate_since: None,
                    emitted: Some(observed),
                },
                Some(observed),
            )
        } else {
            self.reporting(observed)
        }
    }

    pub fn new() -> (r: Self)
        ensures
            r == idle_debouncer(None),
    {
        WindowResizeDebouncer {
            source: None,
            candidate: None,
            candidate_since: None,
            emitted: None,
        }
    }

    pub fn reset(&mut self)
        ensures
            *final(self) == idle_debouncer(None),
    {
        *self = WindowResizeDebouncer::new();
    }

    fn track(
        &mut self,
        source: WindowSourceIdentity,
        candidate: Option<Dimensions>,
        since: Option<u64>,
    )
        ensures
            *final(self) == (WindowResizeDebouncer {
                source: Some(source),
                candidate,
                candidate_since: since,
                emitted: None,
            }),
    {
        self.source = Some(source);
        self.candidate = candidate;
        self.candidate_since = since;
        self.emitted = None;
    }

    fn is_tracking(&self, source: WindowSourceIdentity, observed: Dimensions) -> (r: bool)
        ensures
            r == self.tracks(source, observed),
    {
        let same_source = match self.source {
            Some(known) => known == source,
            None => false,
        };
        let same_size = match self.candidate {
            Some(candidate) => candidate == observed,
            None => false,
        };
        same_source && same_size
    }

    fn report(&mut self, observed: Dimensions) -> (r: Option<Dimensions>)
        ensures
            (*final(self), r) == old(self).reporting(observed),
    {
        let already = match self.emitted {
            Some(emitted) => emitted == observed,
            None => false,
        };
        if already {
            return None;
        }
        self.emitted = Some(observed);
        Some(observed)
    }

    pub fn observe(
        &mut self,
        source: WindowSourceIdentity,
        current: Dimensions,
        observed: Dimensions,
        now: u64,
    ) -> (r: Option<Dimensions>)
        ensures
            (*final(self), r) == old(self).after_poll(source, current, observed, now),
    {
        if observed.width < 2 || observed.height < 2 || observed == current {
            self.track(source, None, None);
            return None;
        }
        if !self.is_tracking(source, observed) {
            self.track(source, Some(observed), Some(now));
            return None;
        }
        let since = match self.candidate_since {
            Some(since) => since,
            None => now,
        };
        if nanos_since(now, since) < WINDOW_RESIZE_SAFETY_SETTLE_TIME_NANOS {
            return None;
        }
        self.report(observed)
    }

    pub fn observe_settled(
        &mut self,
        source: WindowSourceIdentity,
        current: Dimensions,
        observed: Dimensions,
    ) -> (r: Option<Dimensions>)
        ensures
            (*final(self), r) == old(self).after_event(source, current, observed),
    {
        if observed.width < 2 || observed.height < 2 || observed == current {
            self.track(source, None, None);
            return None;
        }
        if !self.is_tracking(source, observed) {
            self.track(source, Some(observed), None);
        }
        self.report(observed)
    }
}

/// A reported size is not reported again while the window keeps it.
pub proof fn lemma_size_is_reported_once(
    debouncer: WindowResizeDebouncer,
    source: WindowSourceIdentity,
    current: Dimensions,
    observed: Dimensions,
    now: u64,
    later: u64,
)
    ensures
        ({
            let (after, reported) = debouncer.after_poll(source, current, observed, now);
            reported is Some ==> after.after_poll(source, current, observed, later) == (
                after,
                None::<Dimensions>,
            ) && after.after_event(source, current, observed) == (after, None::<Dimensions>)
        }),
        ({
            let (after, reported) = debouncer.after_event(source, current, observed);
            is_new_size(current, observed) ==> after.after_event(source, current, observed) == (
                after,
                None::<Dimensions>,
            ) && after.after_poll(source, current, observed, later) == (after, None::<Dimensions>)
        }),
{
}

/// Only the size that was observed is ever reported, and only where it differs from the current
/// one.
pub proof fn lemma_reported_size_is_new(
    debouncer: WindowResizeDebouncer,
    source: WindowSourceIdentity,
    current: Dimensions,
    observed: Dimensions,
    now: u64,
)
    ensures
        debouncer.after_poll(source, current, observed, now).1 matches Some(size) ==> size
            == observed && is_new_size(current, observed),
        debouncer.after_event(source, current, observed).1 matches Some(size) ==> size == observed
            && is_new_size(current, observed),
{
}

/// How long to wait after a failed attempt: a little longer each time at first, then a fixed time.
pub fn window_resize_retry_delay(attempt: usize) -> (r: u64)
    ensures
        r == if attempt < WINDOW_RESIZE_RESTART_ATTEMPTS {
            WINDOW_RESIZE_RETRY_DELAY_NANOS * attempt
        } else {
            WINDOW_RESIZE_RECOVERY_RETRY_DELAY_NANOS as int
        },
{
    if attempt < WINDOW_RESIZE_RESTART_ATTEMPTS {
        WINDOW_RESIZE_RETRY_DELAY_NANOS * attempt as u64
    } else {
        WINDOW_RESIZE_RECOVERY_RETRY_DELAY_NANOS
    }
}

/// Whether a failed attempt is worth a warning.
pub fn attempt_is_notable(attempt: usize) -> (r: bool)
    ensures
        r == (attempt <= WINDOW_RESIZE_RESTART_ATTEMPTS || attempt % 10 == 0),
{
    attempt <= WINDOW_RESIZE_RESTART_ATTEMPTS || attempt % 10 == 0
}

pub open spec fn identity_of(settings: CaptureSettingsView) -> WindowSourceIdentity {
    WindowSourceIdentity { index: settings.source_index, native_id: settings.source_native_id }
}

pub fn source_identity(settings: &CaptureSettings) -> (r: WindowSourceIdentity)
    ensures
        r == identity_of(settings@),
{
    WindowSourceIdentity { index: settings.source_index, native_id: settings.source_native_id }
}

/// What becomes of the watcher of a window's events.
#[derive(Clone, Copy, Debug, PartialEq, Eq, Structural)]
pub enum WatcherChange {
    Remove,
    Keep,
    Start(WindowSourceIdentity),
}

/// Only a captured window is watched, and always the one that is captured.
pub fn sync_window_resize_watcher(
    settings: &CaptureSettings,
    watched: Option<WindowSourceIdentity>,
    watcher_runs: bool,
) -> (r: WatcherChange)
    ensures
        r == if settings.source_kind@ != "window"@ {
            WatcherChange::Remove
        } else if watched == Some(identity_of(settings@)) && watcher_runs {
            WatcherChange::Keep
        } else {
            WatcherChange::Start(identity_of(settings@))
        },
{
    if !text::text_eq(settings.source_kind.as_str(), "window") {
        return WatcherChange::Remove;
    }
    let source = source_identity(settings);
    let same = match watched {
        Some(known) => known == source,
        None => false,
    };
    if same && watcher_runs {
        WatcherChange::Keep
    } else {
        WatcherChange::Start(source)
    }
}

/// The sizes that a running capture knows: that of its frames and that which it saw last.
#[derive(Clone, Copy, Debug, PartialEq, Eq, Structural)]
pub struct CaptureDimensions {
    pub source: Dimensions,
    pub observed: Dimensions,
}

pub open spec fn live_size(live: Option<Dimensions>, capture: CaptureDimensions) -> Dimensions {
    match live {
        Some(size) => size,
        None => capture.observed,
    }
}

/// Whether a resize of the captured window is looked for.
pub open spec fn watches_window(
    stream_enabled: bool,
    settings: CaptureSettingsView,
    minimized: bool,
) -> bool {
    &&& stream_enabled
    &&& settings.source_kind == "window"@
    &&& !(settings.source_native_id is Some && minimized)
}

/// Looks for a new size of the captured window. `minimized` says so of the window with the native
/// number of the settings; `live` is the window's own size, where it can be asked.
pub fn observe_window_resize(
    debouncer: &mut WindowResizeDebouncer,
    stream_enabled: bool,
    settings: &CaptureSettings,
    minimized: bool,
    capture: Option<CaptureDimensions>,
    live: Option<Dimensions>,
    event_settled: bool,
    now: u64,
) -> (r: Option<Dimensions>)
    ensures
        (*final(debouncer), r) == (match capture {
            Some(capture) if watches_window(stream_enabled, settings@, minimized) => if event_settled {
                old(debouncer).after_event(
                    identity_of(settings@),
                    capture.source,
                    live_size(live, capture),
                )
            } else {
                old(debouncer).after_poll(
                    identity_of(settings@),
                    capture.source,
                    live_size(live, capture),
                    now,
                )
            },
            _ => (idle_debouncer(None), None),
        }),
{
    if !stream_enabled || !text::text_eq(settings.source_kind.as_str(), "window") || (
    settings.source_native_id.is_some() && minimized) {
        debouncer.reset();
        return None;
    }
    match capture {
        None => {
            debouncer.reset();
            None
        },
        Some(capture) => {
            let source = source_identity(settings);
            let observed = match live {
                Some(size) => size,
                None => capture.observed,
            };
            if event_settled {
                debouncer.observe_settled(source, capture.source, observed)
            } else {
                debouncer.observe(source, capture.source, observed, now)
            }
        },
    }
}

/// What is to be done about a request to capture a window anew in another size.
#[derive(Clone, Copy, Debug, PartialEq, Eq, Structural)]
pub enum RestartDecision {
    Ignore,
    CaptureUnavailable,
    Restart(Dimensions),
}

impl RestartDecision {
    pub fn failure(self) -> (r: Option<&'static str>)
        ensures
            match r {
                Some(message) => self == RestartDecision::CaptureUnavailable && message@
                    == "shared capture is unavailable during window resize"@,
                None => self != RestartDecision::CaptureUnavailable,
            },
    {
        match self {
            RestartDecision::CaptureUnavailable => Some(
                "shared capture is unavailable during window resize",
            ),
            _ => None,
        }
    }
}

/// Whether a request to capture a window anew still stands: the stream runs, the same window is
/// captured, and it has the requested size, which the capture has not. The size of the frames so
/// far is returned.
pub fn prepare_window_capture_restart(
    stream_enabled: bool,
    settings: &CaptureSettings,
    requested_source: WindowSourceIdentity,
    requested: Dimensions,
    minimized: bool,
    capture: Option<CaptureDimensions>,
    live: Option<Dimensions>,
) -> (r: RestartDecision)
    ensures
        r == if !watches_window(stream_enabled, settings@, minimized) || identity_of(settings@)
            != requested_source {
            RestartDecision::Ignore
        } else {
            match capture {
                None => RestartDecision::CaptureUnavailable,
                Some(capture) => if capture.source == requested || live_size(live, capture)
                    != requested {
                    RestartDecision::Ignore
                } else {
                    RestartDecision::Restart(capture.source)
                },
            }
        },
{
    if !stream_enabled || !text::text_eq(settings.source_kind.as_str(), "window")
        || source_identity(settings) != requested_source {
        return RestartDecision::Ignore;
    }
    if requested_source.native_id.is_some() && minimized {
        return RestartDecision::Ignore;
    }
    match capture {
        None => RestartDecision::CaptureUnavailable,
        Some(capture) => {
            if capture.source == requested {
                return RestartDecision::Ignore;
            }
            let size = match live {
                Some(size) => size,
                None => capture.observed,
            };
            if size != requested {
                RestartDecision::Ignore
            } else {
                RestartDecision::Restart(capture.source)
            }
        },
    }
}

/// A size that is polled is reported once it has been seen unchanged for 200 ms, and not before; one
/// that is told by an event is reported at once.
pub proof fn lemma_sizes_settle(
    debouncer: WindowResizeDebouncer,
    source: WindowSourceIdentity,
    current: Dimensions,
    observed: Dimensions,
    now: u64,
    later: u64,
)
    requires
        observed != current,
        observed.width >= 2,
        observed.height >= 2,
        now <= later,
        debouncer.candidate != Some(observed) || debouncer.source != Some(source),
    ensures
        ({
            let (seen, first) = debouncer.after_poll(source, current, observed, now);
            let (_, second) = seen.after_poll(source, current, observed, later);
            &&& first is None
            &&& second == if later - now >= 200_000_000 {
                Some(observed)
            } else {
                None
            }
        }),
        debouncer.after_event(source, current, observed).1 == Some(observed),
        debouncer.after_poll(source, current, current, now).1 is None,
        debouncer.after_event(source, current, current).1 is None,
{
}

/// A window is watched only while the stream is on and the window is not minimized.
pub proof fn lemma_watched_windows(stream_enabled: bool, settings: CaptureSettingsView, minimized: bool)
    ensures
        watches_window(stream_enabled, settings, minimized) ==> stream_enabled
            && settings.source_kind == "window"@,
        settings.source_native_id is Some && minimized ==> !watches_window(
            stream_enabled,
            settings,
            minimized,
        ),
        stream_enabled && settings.source_kind == "window"@ && !minimized ==> watches_window(
            stream_enabled,
            settings,
            minimized,
        ),
{
}

} // verus!

//! The reader of a window that the compositor captures.
//!
//! The compositor delivers a surface when the window changes. The reader turns that into frames of
//! a fixed size at a steady rate: it repeats the last surface while nothing changes, keeps it while
//! the window is minimized, and fits one of another size into the frame until the capture is
//! restarted.

use std::sync::Arc;

use vstd::prelude::*;

use crate::exact;
use crate::float;
use crate::float::{Float, Precision};
use crate::preview;
use crate::preview::{place_in_source, push_pixel};
use crate::shared_capture::{CaptureFormat, CaptureView, SharedCapture};
use crate::window_resize::Dimensions;

verus! {

/// How long the compositor may take for its first surface.
pub const WGC_FIRST_FRAME_TIMEOUT_NANOS: u64 = 750_000_000;

/// A side of the source after scaling, within the frame.
pub open spec fn fitted_side(side: nat, limit: nat, factor: Float) -> nat {
    let pixels = float::rounded(float::product(float::of_nat(Precision::Double, side), factor));
    if pixels < 1 {
        1
    } else if pixels > limit {
        limit
    } else {
        pixels
    }
}

/// The factor by which a source fits into a frame, in double precision.
pub open spec fn fit_factor(source: Dimensions, output: Dimensions) -> Float {
    let double = |n: nat| float::of_nat(Precision::Double, n);
    preview::smaller(
        float::quotient(double(output.width as nat), double(source.width as nat)),
        float::quotient(double(output.height as nat), double(source.height as nat)),
    )
}

/// Whether a frame of another size can be fitted.
pub open spec fn can_fit(length: nat, source: Dimensions, output: Dimensions) -> bool {
    &&& source.width > 0 && source.height > 0
    &&& output.width > 0 && output.height > 0
    &&& source.width * source.height * 4 <= usize::MAX
    &&& output.width * output.height * 4 <= usize::MAX
    &&& length == source.width * source.height * 4
}

/// A byte of the frame: the source in the middle, black and opaque around it.
pub open spec fn fitted_byte(
    pixels: Seq<u8>,
    source: Dimensions,
    output: Dimensions,
    k: int,
) -> u8 {
    let factor = fit_factor(source, output);
    let width = fitted_side(source.width as nat, output.width as nat, factor) as int;
    let height = fitted_side(source.height as nat, output.height as nat, factor) as int;
    let x = (k / 4) % output.width as int - (output.width - width) / 2;
    let y = (k / 4) / output.width as int - (output.height - height) / 2;
    if 0 <= x < width && 0 <= y < height {
        preview::pixel_of(pixels, source.width as int)(
            preview::source_place(x, source.width as int, width),
            preview::source_place(y, source.height as int, height),
        )[k % 4]
    } else if k % 4 == 3 {
        255
    } else {
        0
    }
}

pub open spec fn fitted(pixels: Seq<u8>, source: Dimensions, output: Dimensions) -> Seq<u8> {
    Seq::new(
        (output.width * output.height * 4) as nat,
        |k: int| fitted_byte(pixels, source, output, k),
    )
}

fn fit_side(side: u32, limit: u32, factor: Float) -> (r: usize)
    requires
        factor.wf(),
        factor.precision == Precision::Double,
        factor.within(1000),
        limit > 0,
    ensures
        r == fitted_side(side as nat, limit as nat, factor),
        1 <= r <= limit,
{
    let pixels = float::rounded_to(
        float::multiply(float::integer(Precision::Double, side as u64), factor),
        u64::MAX,
    );
    if pixels < 1 {
        1
    } else if pixels > limit as u64 {
        limit as usize
    } else {
        pixels as usize
    }
}

fn fit(source: Dimensions, output: Dimensions) -> (r: Float)
    requires
        source.width > 0,
        source.height > 0,
    ensures
        r == fit_factor(source, output),
        r.wf(),
        r.precision == Precision::Double,
        r.within(1000),
{
    let across = float::divide(
        float::integer(Precision::Double, output.width as u64),
        float::integer(Precision::Double, source.width as u64),
    );
    let down = float::divide(
        float::integer(Precision::Double, output.height as u64),
        float::integer(Precision::Double, source.height as u64),
    );
    if float::is_less(down, across) {
        down
    } else {
        across
    }
}

/// Fits a picture into a frame of another size without stretching it.
pub fn resize_rgba(pixels: &Vec<u8>, source: Dimensions, output: Dimensions) -> (r: Option<Vec<u8>>)
    ensures
        match r {
            Some(bytes) => can_fit(pixels@.len(), source, output) && bytes@ == fitted(
                pixels@,
                source,
                output,
            ),
            None => !can_fit(pixels@.len(), source, output),
        },
{
    assert(0 <= source.width * source.height) by (nonlinear_arith);
    assert(0 <= output.width * output.height) by (nonlinear_arith);
    let source_width = source.width as usize;
    let source_height = source.height as usize;
    let output_width = output.width as usize;
    let output_height = output.height as usize;
    let source_len = match source_width.checked_mul(source_height) {
        Some(area) => area.checked_mul(4),
        None => None,
    };
    let output_area = match output_width.checked_mul(output_height) {
        Some(area) => match area.checked_mul(4) {
            Some(_) => Some(area),
            None => None,
        },
        None => None,
    };
    let (expected, count): (usize, usize) = match (source_len, output_area) {
        (Some(expected), Some(count)) => (expected, count),
        _ => {
            return None;
        },
    };
    if source_width == 0 || source_height == 0 || output_width == 0 || output_height == 0
        || pixels.len() != expected {
        return None;
    }
    let factor = fit(source, output);
    let width = fit_side(source.width, output.width, factor);
    let height = fit_side(source.height, output.height, factor);
    let offset_x: usize = (output_width - width) / 2;
    let offset_y: usize = (output_height - height) / 2;
    let ghost goal = fitted(pixels@, source, output);
    let mut out: Vec<u8> = Vec::new();
    let mut p: usize = 0;
    while p < count
        invariant
            p <= count,
            count == output_width * output_height,
            count * 4 <= usize::MAX,
            count * 4 == goal.len(),
            source_width == source.width,
            source_height == source.height,
            output_width == output.width,
            output_height == output.height,
            can_fit(pixels@.len(), source, output),
            factor == fit_factor(source, output),
            width == fitted_side(source.width as nat, output.width as nat, factor),
            height == fitted_side(source.height as nat, output.height as nat, factor),
            1 <= width <= output_width,
            1 <= height <= output_height,
            offset_x == (output_width - width) / 2,
            offset_y == (output_height - height) / 2,
            goal == fitted(pixels@, source, output),
            out@.len() == 4 * p,
            forall|k: int| 0 <= k < 4 * p ==> #[trigger] out@[k] == goal[k],
        decreases count - p,
    {
        proof {
            preview::lemma_row(p as int, output_width as int, output_height as int);
        }
        let x: usize = p % output_width;
        let y: usize = p / output_width;
        let ghost before = out@;
        if offset_x <= x && x - offset_x < width && offset_y <= y && y - offset_y < height {
            let sx = place_in_source(x - offset_x, source_width, width);
            let sy = place_in_source(y - offset_y, source_height, height);
            push_pixel(pixels, source_width, source_height, sx, sy, &mut out);
            let ghost bytes = preview::pixel_of(pixels@, source_width as int)(sx as int, sy as int);
            assert forall|k: int| 0 <= k < 4 * (p + 1) implies #[trigger] out@[k] == goal[k] by {
                if k >= 4 * p {
                    assert(k / 4 == p && k % 4 == k - 4 * p);
                    assert(out@[k] == bytes[k - 4 * p]);
                } else {
                    assert(out@[k] == before[k]);
                }
            }
        } else {
            out.push(0);
            out.push(0);
            out.push(0);
            out.push(255);
            assert forall|k: int| 0 <= k < 4 * (p + 1) implies #[trigger] out@[k] == goal[k] by {
                if k >= 4 * p {
                    assert(k / 4 == p && k % 4 == k - 4 * p);
                } else {
                    assert(out@[k] == before[k]);
                }
            }
        }
        p += 1;
    }
    assert(out@ =~= goal);
    Some(out)
}

/// Whether a surface was queued while the window was minimized: it has not the size that the window
/// has again.
pub open spec fn is_stale(
    was_minimized: bool,
    current: Option<Dimensions>,
    surface: Dimensions,
) -> bool {
    was_minimized && current is Some && current->0 != surface
}

pub fn restored_surface_is_stale(
    was_minimized: bool,
    current_dimensions: Option<Dimensions>,
    frame_dimensions: Dimensions,
) -> (r: bool)
    ensures
        r == is_stale(was_minimized, current_dimensions, frame_dimensions),
{
    match current_dimensions {
        Some(current) => was_minimized && current != frame_dimensions,
        None => false,
    }
}

/// The bytes of a frame and when its surface was captured.
#[derive(Debug)]
pub struct CapturedWindowFrame {
    pub data: Arc<Vec<u8>>,
    pub captured_at_unix_nanos: u64,
}

/// A surface as the compositor delivers it.
#[derive(Debug)]
pub struct WindowFrame {
    pub width: u32,
    pub height: u32,
    pub source: Dimensions,
    pub pixels: Vec<u8>,
}

/// A surface brought into the format of the frames.
#[derive(Debug)]
pub struct Candidate {
    pub frame: CapturedWindowFrame,
    pub source: Dimensions,
}

/// What the compositor delivered, if anything.
#[derive(Debug)]
pub enum WindowUpdate {
    Surface(Candidate),
    /// A surface of another size, with the size of the window.
    OtherSize(Dimensions),
    Resized(Dimensions),
    Nothing,
    Failed(String),
}

pub open spec fn frame_matches(format: CaptureFormat, frame: WindowFrame) -> bool {
    frame.width == format.width && frame.height == format.height
}

/// Takes a surface of the frames' size as it is.
pub fn exact_candidate(format: CaptureFormat, frame: WindowFrame, timestamp: u64) -> (r: WindowUpdate)
    ensures
        if frame_matches(format, frame) {
            r matches WindowUpdate::Surface(candidate) && candidate.frame.data@ == frame.pixels@
                && candidate.frame.captured_at_unix_nanos == timestamp && candidate.source
                == frame.source
        } else {
            r == WindowUpdate::OtherSize(frame.source)
        },
{
    if frame.width == format.width && frame.height == format.height {
        WindowUpdate::Surface(
            Candidate {
                frame: CapturedWindowFrame {
                    data: Arc::new(frame.pixels),
                    captured_at_unix_nanos: timestamp,
                },
                source: frame.source,
            },
        )
    } else {
        WindowUpdate::OtherSize(frame.source)
    }
}

/// Takes a surface of any size that can be fitted; one that cannot is as good as none.
pub fn fitted_candidate(format: CaptureFormat, frame: WindowFrame, timestamp: u64) -> (r: WindowUpdate)
    ensures
        ({
            let source = Dimensions { width: frame.width, height: frame.height };
            let output = Dimensions { width: format.width, height: format.height };
            if frame_matches(format, frame) {
                r matches WindowUpdate::Surface(candidate) && candidate.frame.data@ == frame.pixels@
                    && candidate.frame.captured_at_unix_nanos == timestamp && candidate.source
                    == frame.source
            } else if can_fit(frame.pixels@.len(), source, output) {
                r matches WindowUpdate::Surface(candidate) && candidate.frame.data@ == fitted(
                    frame.pixels@,
                    source,
                    output,
                ) && candidate.frame.captured_at_unix_nanos == timestamp && candidate.source
                    == frame.source
            } else {
                r == WindowUpdate::OtherSize(frame.source)
            }
        }),
{
    if frame.width == format.width && frame.height == format.height {
        return exact_candidate(format, frame, timestamp);
    }
    let resized = resize_rgba(
        &frame.pixels,
        Dimensions { width: frame.width, height: frame.height },
        Dimensions { width: format.width, height: format.height },
    );
    match resized {
        Some(pixels) => WindowUpdate::Surface(
            Candidate {
                frame: CapturedWindowFrame {
                    data: Arc::new(pixels),
                    captured_at_unix_nanos: timestamp,
                },
                source: frame.source,
            },
        ),
        None => WindowUpdate::OtherSize(frame.source),
    }
}

/// A reader before its first surface.
#[derive(Clone, Copy, Debug, PartialEq, Eq, Structural)]
pub struct StartingReader {
    pub format: CaptureFormat,
    pub generation: u64,
}

/// What a reader does before its first surface.
#[derive(Clone, Copy, Debug, PartialEq, Eq, Structural)]
pub enum StartupStep {
    /// The reader was replaced; it ends without a word.
    Quit,
    /// The compositor does not deliver; the capture has failed.
    GiveUp,
    /// Nothing to see while the window is minimized.
    Sleep,
    /// Wait for the compositor.
    Wait,
}

/// A reader with the last surface.
#[derive(Debug)]
pub struct WindowReader {
    pub format: CaptureFormat,
    pub generation: u64,
    pub latest: CapturedWindowFrame,
    pub was_minimized: bool,
}

/// What came of the first surface.
#[derive(Debug)]
pub enum FirstSurface {
    Again,
    GiveUp,
    Running(WindowReader),
}

/// What a running reader does.
#[derive(Clone, Copy, Debug, PartialEq, Eq, Structural)]
pub enum RunningStep {
    Quit,
    /// The last surface was repeated; drain the compositor and wait for the next frame's time.
    Repeated,
    /// Wait for the compositor.
    Wait,
}

impl StartingReader {
    /// A reader of a session whose surfaces have the size of the frames. Without such a session
    /// there is none.
    pub fn begin(format: CaptureFormat, generation: u64, session: Option<Dimensions>) -> (r: Option<
        Self,
    >)
        ensures
            r == if session == Some(Dimensions { width: format.width, height: format.height }) {
                Some(StartingReader { format, generation })
            } else {
                None
            },
    {
        match session {
            Some(dimensions) => if dimensions.width == format.width && dimensions.height
                == format.height {
                Some(StartingReader { format, generation })
            } else {
                None
            },
            None => None,
        }
    }

    /// What to do next. The time for the first surface is limited.
    pub fn step(&self, capture: &SharedCapture, timed_out: bool, minimized: bool) -> (r: StartupStep)
        ensures
            r == if timed_out {
                StartupStep::GiveUp
            } else if !capture@.is_current(self.generation) {
                StartupStep::Quit
            } else if minimized {
                StartupStep::Sleep
            } else {
                StartupStep::Wait
            },
    {
        if timed_out {
            StartupStep::GiveUp
        } else if !capture.accepts(self.generation) {
            StartupStep::Quit
        } else if minimized {
            StartupStep::Sleep
        } else {
            StartupStep::Wait
        }
    }

    /// What the first surface does to the capture: one of the right size is published at once,
    /// because a window that does not change delivers no other.
    pub open spec fn first_surface(self, capture: CaptureView, update: WindowUpdate, minimized: bool) -> CaptureView {
        if minimized {
            capture
        } else {
            match update {
                WindowUpdate::Surface(candidate) => CaptureView {
                    backend: "windows-graphics-capture"@,
                    ..capture.observing(self.generation, candidate.source)
                }.published_by(
                    self.generation,
                    self.format,
                    candidate.frame.data,
                    candidate.frame.captured_at_unix_nanos,
                ),
                WindowUpdate::OtherSize(source) => capture.observing(self.generation, source),
                WindowUpdate::Resized(source) => capture.observing(self.generation, source),
                _ => capture,
            }
        }
    }

    /// Takes the first surface. One that came while the window is minimized does not count.
    pub fn on_update(
        self,
        capture: &mut SharedCapture,
        update: WindowUpdate,
        minimized: bool,
        closed: bool,
    ) -> (r: FirstSurface)
        requires
            old(capture)@.latest.sequence < u64::MAX,
        ensures
            final(capture)@ == self.first_surface(old(capture)@, update, minimized),
            if minimized {
                r is Again
            } else {
                match update {
                    WindowUpdate::Surface(candidate) => r == FirstSurface::Running(
                        WindowReader {
                            format: self.format,
                            generation: self.generation,
                            latest: candidate.frame,
                            was_minimized: false,
                        },
                    ),
                    WindowUpdate::Nothing => if closed {
                        r is GiveUp
                    } else {
                        r is Again
                    },
                    _ => r is GiveUp,
                }
            },
    {
        if minimized {
            return FirstSurface::Again;
        }
        match update {
            WindowUpdate::Surface(candidate) => {
                capture.record_observed_source_dimensions(self.generation, candidate.source);
                capture.set_backend("windows-graphics-capture");
                let frame = candidate.frame;
                let _ = capture.publish_frame_at_for_generation(
                    self.format,
                    frame.data.clone(),
                    frame.captured_at_unix_nanos,
                    self.generation,
                );
                FirstSurface::Running(
                    WindowReader {
                        format: self.format,
                        generation: self.generation,
                        latest: frame,
                        was_minimized: false,
                    },
                )
            },
            WindowUpdate::OtherSize(source) => {
                capture.record_observed_source_dimensions(self.generation, source);
                FirstSurface::GiveUp
            },
            WindowUpdate::Resized(dimensions) => {
                capture.record_observed_source_dimensions(self.generation, dimensions);
                FirstSurface::GiveUp
            },
            WindowUpdate::Nothing => {
                if closed {
                    FirstSurface::GiveUp
                } else {
                    FirstSurface::Again
                }
            },
            WindowUpdate::Failed(_) => FirstSurface::GiveUp,
        }
    }
}

/// Reports that the compositor does not deliver.
pub fn report_not_ready(capture: &mut SharedCapture, generation: u64)
    ensures
        final(capture)@ == old(capture)@.finished_by(
            generation,
            Some("Windows Graphics Capture did not become ready"@),
        ),
{
    capture.finish_reader_for_generation(
        generation,
        Some("Windows Graphics Capture did not become ready".to_owned()),
    );
}

pub open spec fn with_closed_window(capture: CaptureView, generation: u64) -> CaptureView {
    capture.finished_by(generation, Some("selected capture window closed"@))
}

fn report_closed(capture: &mut SharedCapture, generation: u64)
    ensures
        final(capture)@ == with_closed_window(old(capture)@, generation),
{
    capture.finish_reader_for_generation(
        generation,
        Some("selected capture window closed".to_owned()),
    );
}

impl WindowReader {
    /// The last surface as a new frame. It is as fresh as its publication: the pixels have not
    /// changed since.
    pub open spec fn repeated(self, capture: CaptureView, timestamp: u64) -> CaptureView {
        capture.published_by(self.generation, self.format, self.latest.data, timestamp)
    }

    fn publish_repeat(&self, capture: &mut SharedCapture, timestamp: u64)
        requires
            old(capture)@.latest.sequence < u64::MAX,
        ensures
            final(capture)@ == self.repeated(old(capture)@, timestamp),
    {
        let _ = capture.publish_frame_at_for_generation(
            self.format,
            self.latest.data.clone(),
            timestamp,
            self.generation,
        );
    }

    /// What to do next. `window_exists` says so of the window with the native number, if the source
    /// has one.
    pub fn step(
        &mut self,
        capture: &mut SharedCapture,
        window_exists: Option<bool>,
        minimized: bool,
        timestamp: u64,
    ) -> (r: RunningStep)
        requires
            old(capture)@.latest.sequence < u64::MAX,
        ensures
            r == if !old(capture)@.is_current(old(self).generation) || window_exists == Some(false) {
                RunningStep::Quit
            } else if minimized {
                RunningStep::Repeated
            } else {
                RunningStep::Wait
            },
            final(capture)@ == if r == RunningStep::Quit {
                with_closed_window(old(capture)@, old(self).generation)
            } else if r == RunningStep::Repeated {
                old(self).repeated(old(capture)@, timestamp)
            } else {
                old(capture)@
            },
            *final(self) == (WindowReader {
                was_minimized: old(self).was_minimized || r == RunningStep::Repeated,
                ..*old(self)
            }),
    {
        if !capture.accepts(self.generation) {
            return RunningStep::Quit;
        }
        let gone = match window_exists {
            Some(exists) => !exists,
            None => false,
        };
        if gone {
            report_closed(capture, self.generation);
            return RunningStep::Quit;
        }
        if minimized {
            self.publish_repeat(capture, timestamp);
            self.was_minimized = true;
            return RunningStep::Repeated;
        }
        RunningStep::Wait
    }

    /// Whether an update ends the reader.
    pub open spec fn ends(update: WindowUpdate, closed: bool) -> bool {
        match update {
            WindowUpdate::Nothing => closed,
            WindowUpdate::Failed(_) => true,
            _ => false,
        }
    }

    /// Whether an update brings a surface that is to be shown.
    pub open spec fn shows(
        self,
        update: WindowUpdate,
        minimized: bool,
        current: Option<Dimensions>,
    ) -> bool {
        !minimized && match update {
            WindowUpdate::Surface(candidate) => !is_stale(
                self.was_minimized,
                current,
                candidate.source,
            ),
            _ => false,
        }
    }

    /// What an update does to the capture.
    pub open spec fn updated_capture(
        self,
        capture: CaptureView,
        update: WindowUpdate,
        minimized: bool,
        closed: bool,
        current: Option<Dimensions>,
        timestamp: u64,
    ) -> CaptureView {
        match update {
            WindowUpdate::Nothing if closed => with_closed_window(capture, self.generation),
            WindowUpdate::Failed(error) => capture.finished_by(self.generation, Some(error@)),
            WindowUpdate::Resized(dimensions) => self.repeated(
                capture.observing(self.generation, dimensions),
                timestamp,
            ),
            WindowUpdate::Surface(candidate) => if self.shows(update, minimized, current) {
                capture.observing(self.generation, candidate.source).published_by(
                    self.generation,
                    self.format,
                    candidate.frame.data,
                    candidate.frame.captured_at_unix_nanos,
                )
            } else {
                self.repeated(capture, timestamp)
            },
            _ => self.repeated(capture, timestamp),
        }
    }

    /// What an update does to the reader.
    pub open spec fn updated(
        self,
        update: WindowUpdate,
        minimized: bool,
        closed: bool,
        current: Option<Dimensions>,
    ) -> WindowReader {
        if Self::ends(update, closed) {
            self
        } else if minimized {
            WindowReader { was_minimized: true, ..self }
        } else {
            match update {
                WindowUpdate::Surface(candidate) => if self.shows(update, minimized, current) {
                    WindowReader { latest: candidate.frame, was_minimized: false, ..self }
                } else {
                    self
                },
                _ => self,
            }
        }
    }

    /// Takes what the compositor delivered; says whether the reader goes on. `minimized` is looked
    /// up afterwards: the window may have been minimized meanwhile, and then the surface does not
    /// count. `current` is the size of the window, where it can be asked.
    pub fn on_update(
        &mut self,
        capture: &mut SharedCapture,
        update: WindowUpdate,
        minimized: bool,
        closed: bool,
        current: Option<Dimensions>,
        timestamp: u64,
    ) -> (r: bool)
        requires
            old(capture)@.latest.sequence < u64::MAX,
        ensures
            r == !WindowReader::ends(update, closed),
            final(capture)@ == old(self).updated_capture(
                old(capture)@,
                update,
                minimized,
                closed,
                current,
                timestamp,
            ),
            *final(self) == old(self).updated(update, minimized, closed, current),
    {
        match update {
            WindowUpdate::Nothing => {
                if closed {
                    report_closed(capture, self.generation);
                    return false;
                }
                if minimized {
                    self.was_minimized = true;
                }
                self.publish_repeat(capture, timestamp);
            },
            WindowUpdate::Failed(error) => {
                capture.finish_reader_for_generation(self.generation, Some(error));
                return false;
            },
            WindowUpdate::Resized(dimensions) => {
                capture.record_observed_source_dimensions(self.generation, dimensions);
                if minimized {
                    self.was_minimized = true;
                }
                self.publish_repeat(capture, timestamp);
            },
            WindowUpdate::OtherSize(_) => {
                if minimized {
                    self.was_minimized = true;
                }
                self.publish_repeat(capture, timestamp);
            },
            WindowUpdate::Surface(candidate) => {
                if minimized {
                    self.was_minimized = true;
                    self.publish_repeat(capture, timestamp);
                } else if restored_surface_is_stale(
                    self.was_minimized,
                    current,
                    candidate.source,
                ) {
                    self.publish_repeat(capture, timestamp);
                } else {
                    capture.record_observed_source_dimensions(self.generation, candidate.source);
                    let frame = candidate.frame;
                    let _ = capture.publish_frame_at_for_generation(
                        self.format,
                        frame.data.clone(),
                        frame.captured_at_unix_nanos,
                        self.generation,
                    );
                    self.latest = frame;
                    self.was_minimized = false;
                }
            },
        }
        true
    }
}

/// While the reader goes on, every update publishes exactly one frame, of the frames' own format:
/// encoders see a steady rate and a fixed size, whatever the window does.
pub proof fn lemma_steady_frames(
    reader: WindowReader,
    capture: CaptureView,
    update: WindowUpdate,
    minimized: bool,
    closed: bool,
    current: Option<Dimensions>,
    timestamp: u64,
)
    requires
        capture.is_current(reader.generation),
        capture.latest.sequence < u64::MAX,
        !WindowReader::ends(update, closed),
    ensures
        ({
            let after = reader.updated_capture(
                capture,
                update,
                minimized,
                closed,
                current,
                timestamp,
            );
            &&& after.latest.sequence == capture.latest.sequence + 1
            &&& after.latest.frame is Some
            &&& after.latest.frame->0.width == reader.format.width
            &&& after.latest.frame->0.height == reader.format.height
            &&& after.latest.frame->0.data == reader.updated(
                update,
                minimized,
                closed,
                current,
            ).latest.data
        }),
{
}

/// A surface that comes while the window is minimized, or was queued while it was, is never shown.
pub proof fn lemma_minimized_surfaces_are_not_shown(
    reader: WindowReader,
    candidate: Candidate,
    minimized: bool,
    closed: bool,
    current: Dimensions,
)
    requires
        minimized || (reader.was_minimized && current != candidate.source),
    ensures
        reader.updated(
            WindowUpdate::Surface(candidate),
            minimized,
            closed,
            Some(current),
        ).latest == reader.latest,
{
}

proof fn lemma_double_quotient(max: nat, side: nat)
    requires
        0 < max < 0x1_0000_0000,
        0 < side < 0x1_0000_0000,
    ensures
        ({
            let q = float::quotient(
                float::of_nat(Precision::Double, max),
                float::of_nat(Precision::Double, side),
            );
            &&& q.wf()
            &&& q.precision == Precision::Double
            &&& q.within(1000)
            &&& q.significand > 0
            &&& exact::keeps_within(q, max * 0x10_0000_0000_0001, side * 0x10_0000_0000_0000)
            &&& exact::reaches(q, max * 0xf_ffff_ffff_ffff, side * 0x10_0000_0000_0000)
        }),
{
    let a = float::of_nat(Precision::Double, max);
    let b = float::of_nat(Precision::Double, side);
    exact::lemma_integer_is_exact(max);
    exact::lemma_integer_is_exact(side);
    float::lemma_ratio_is_normal(max, 1);
    float::lemma_ratio_is_normal(side, 1);
    exact::lemma_quotient_of_integers(a, max, b, side);
    let s = a.significand as nat;
    let d = b.significand as nat;
    let e = a.exponent - b.exponent;
    float::lemma_single_quotient_is_normal(a, b);
    let q = float::quotient(a, b);
    float::lemma_rounding_error(s, d, e);
    exact::lemma_scaled(s, d, e, max, side, 0, 0x10_0000_0000_0001, 0x10_0000_0000_0000);
    exact::lemma_scaled(max, side, 0, s, d, e, 0xf_ffff_ffff_ffff, 0x10_0000_0000_0000);
    exact::lemma_transitive(
        q.significand as nat,
        1,
        q.exponent as int,
        s * 0x10_0000_0000_0001,
        d * 0x10_0000_0000_0000,
        e,
        max * 0x10_0000_0000_0001,
        side * 0x10_0000_0000_0000,
        0,
    );
    exact::lemma_transitive(
        max * 0xf_ffff_ffff_ffff,
        side * 0x10_0000_0000_0000,
        0,
        s * 0xf_ffff_ffff_ffff,
        d * 0x10_0000_0000_0000,
        e,
        q.significand as nat,
        1,
        q.exponent as int,
    );
}

/// A side that is scaled by the quotient of the room and itself fills the room.
proof fn lemma_fitted_side_fills(side: nat, max: nat)
    requires
        0 < max < 0x1_0000_0000,
        0 < side < 0x1_0000_0000,
    ensures
        fitted_side(
            side,
            max,
            float::quotient(
                float::of_nat(Precision::Double, max),
                float::of_nat(Precision::Double, side),
            ),
        ) == max,
{
    vstd::arithmetic::power2::lemma2_to64();
    let n = float::of_nat(Precision::Double, side);
    let q = float::quotient(float::of_nat(Precision::Double, max), n);
    exact::lemma_integer_is_exact(side);
    float::lemma_ratio_is_normal(side, 1);
    lemma_double_quotient(max, side);
    float::lemma_significands(n, q);
    let p = float::product(n, q);
    let k = q.significand as nat;
    let f = q.exponent as int;
    let s = (n.significand * k) as nat;
    let e = n.exponent + f;
    exact::lemma_multiplied(
        n,
        side,
        k,
        f,
        max * 0x10_0000_0000_0001,
        side * 0x10_0000_0000_0000,
    );
    exact::lemma_multiplied(n, side, k, f, max * 0xf_ffff_ffff_ffff, side * 0x10_0000_0000_0000);
    float::lemma_rounding_error(s, 1, e);
    let v = p.significand as nat;
    let g = p.exponent as int;
    let up = side * (max * 0x10_0000_0000_0001);
    let down = side * (max * 0xf_ffff_ffff_ffff);
    let wide = side * 0x10_0000_0000_0000;
    exact::lemma_scaled(s, 1, e, up, wide, 0, 0x10_0000_0000_0001, 0x10_0000_0000_0000);
    exact::lemma_scaled(down, wide, 0, s, 1, e, 0xf_ffff_ffff_ffff, 0x10_0000_0000_0000);
    exact::lemma_transitive(
        v,
        1,
        g,
        s * 0x10_0000_0000_0001,
        1 * 0x10_0000_0000_0000,
        e,
        up * 0x10_0000_0000_0001,
        wide * 0x10_0000_0000_0000,
        0,
    );
    exact::lemma_transitive(
        down * 0xf_ffff_ffff_ffff,
        wide * 0x10_0000_0000_0000,
        0,
        s * 0xf_ffff_ffff_ffff,
        1 * 0x10_0000_0000_0000,
        e,
        v,
        1,
        g,
    );
    // Twice the product lies strictly between two odd numbers around twice the room.
    let m = max as int;
    let w = side as int;
    let wm = w * m;
    assert(up == wm * 0x10_0000_0000_0001 && down == wm * 0xf_ffff_ffff_ffff) by (nonlinear_arith)
        requires
            up == w * (m * 0x10_0000_0000_0001),
            down == w * (m * 0xf_ffff_ffff_ffff),
            wm == w * m,
    ;
    assert(wm < w * 0x1_0000_0000) by (nonlinear_arith)
        requires
            wm == w * m,
            m < 0x1_0000_0000,
            w > 0,
    ;
    exact::lemma_rounds_to_at_least(p, max);
    exact::lemma_rounds_to_at_least(p, max + 1);
    let odd = (2 * max - 1) as nat;
    let next = (2 * max + 1) as nat;
    assert(odd * (wide * 0x10_0000_0000_0000) <= (down * 0xf_ffff_ffff_ffff) * 2) by (nonlinear_arith)
        requires
            odd == 2 * m - 1,
            wide == w * 0x10_0000_0000_0000,
            down == wm * 0xf_ffff_ffff_ffff,
            wm == w * m,
            wm < w * 0x1_0000_0000,
            w > 0,
    ;
    assert((up * 0x10_0000_0000_0001) * 2 < next * (wide * 0x10_0000_0000_0000)) by (nonlinear_arith)
        requires
            next == 2 * m + 1,
            wide == w * 0x10_0000_0000_0000,
            up == wm * 0x10_0000_0000_0001,
            wm == w * m,
            wm < w * 0x1_0000_0000,
            w > 0,
    ;
    exact::lemma_fractions(p, odd, 2, down * 0xf_ffff_ffff_ffff, wide * 0x10_0000_0000_0000);
    exact::lemma_fractions(p, up * 0x10_0000_0000_0001, wide * 0x10_0000_0000_0000, next, 2);
}

/// A surface that is fitted into a frame fills it in one direction and exceeds it in none.
pub proof fn lemma_fitted_surface_fills_the_frame(source: Dimensions, output: Dimensions)
    requires
        source.width > 0 && source.height > 0,
        output.width > 0 && output.height > 0,
    ensures
        ({
            let factor = fit_factor(source, output);
            let width = fitted_side(source.width as nat, output.width as nat, factor);
            let height = fitted_side(source.height as nat, output.height as nat, factor);
            &&& 0 < width <= output.width
            &&& 0 < height <= output.height
            &&& width == output.width || height == output.height
            &&& source.width == source.height && output.width == output.height ==> width
                == output.width && height == output.height
            &&& source == output ==> width == output.width && height == output.height
        }),
{
    lemma_fitted_side_fills(source.width as nat, output.width as nat);
    lemma_fitted_side_fills(source.height as nat, output.height as nat);
    if source == output {
        let w = source.width as nat;
        let h = source.height as nat;
        let across = float::quotient(
            float::of_nat(Precision::Double, w),
            float::of_nat(Precision::Double, w),
        );
        let down = float::quotient(
            float::of_nat(Precision::Double, h),
            float::of_nat(Precision::Double, h),
        );
        lemma_double_quotient(w, w);
        lemma_double_quotient(h, h);
        lemma_quotients_of_equals(w, h);
        lemma_quotients_of_equals(h, w);
        lemma_smaller_factor(w, w, across, down);
        lemma_smaller_factor(h, h, down, across);
    }
}

/// Of two numbers that are divided by themselves, neither quotient is the greater one.
proof fn lemma_quotients_of_equals(m: nat, n: nat)
    requires
        0 < m < 0x1_0000_0000,
        0 < n < 0x1_0000_0000,
    ensures
        float::at_most(
            float::quotient(
                float::of_nat(Precision::Double, m),
                float::of_nat(Precision::Double, m),
            ),
            float::quotient(
                float::of_nat(Precision::Double, n),
                float::of_nat(Precision::Double, n),
            ),
        ),
{
    let a = float::of_nat(Precision::Double, m);
    let b = float::of_nat(Precision::Double, n);
    float::lemma_ratio_is_normal(m, 1);
    float::lemma_ratio_is_normal(n, 1);
    let s = a.significand as nat;
    let t = b.significand as nat;
    vstd::arithmetic::power2::lemma2_to64();
    exact::lemma_common_base(s, s, 0, t, t, 0, 0);
    assert(s * 1 * t <= t * 1 * s) by (nonlinear_arith);
    float::lemma_rounding_keeps_order(Precision::Double, s, s, 0, t, t, 0);
}

proof fn lemma_smaller_factor(side: nat, limit: nat, a: Float, b: Float)
    requires
        0 < side < 0x1_0000_0000,
        a.wf(),
        b.wf(),
        a.precision == Precision::Double,
        b.precision == Precision::Double,
        a.within(1000),
        b.within(1000),
        float::at_most(a, b),
    ensures
        fitted_side(side, limit, a) <= fitted_side(side, limit, b) || limit == 0,
{
    let n = float::of_nat(Precision::Double, side);
    float::lemma_ratio_is_normal(side, 1);
    float::lemma_products_keep_order(a, b, n);
    float::lemma_product_commutes(a, n);
    float::lemma_product_commutes(b, n);
    exact::lemma_rounded_keeps_order(float::product(n, a), float::product(n, b));
}

/// A surface of the size of the frame is shown as it is.
pub proof fn lemma_surface_of_the_same_size_is_kept(pixels: Seq<u8>, size: Dimensions)
    requires
        can_fit(pixels.len(), size, size),
    ensures
        fitted(pixels, size, size) == pixels,
{
    lemma_fitted_surface_fills_the_frame(size, size);
    let w = size.width as int;
    let h = size.height as int;
    assert forall|k: int| 0 <= k < pixels.len() implies #[trigger] fitted(pixels, size, size)[k]
        == pixels[k] by {
        let x = (k / 4) % w;
        let y = (k / 4) / w;
        let place = k / 4;
        let total = w * h;
        assert(0 <= place < total);
        assert(0 <= x < w && 0 <= y < h && y * w + x == place) by (nonlinear_arith)
            requires
                x == place % w,
                y == place / w,
                w > 0,
                0 <= place < total,
                total == w * h,
        ;
        preview::lemma_pixels_keep_their_place(x, w, w);
        preview::lemma_pixels_keep_their_place(y, h, h);
        assert(preview::pixel_of(pixels, w)(x, y) == pixels.subrange(
            (y * w + x) * 4,
            (y * w + x) * 4 + 4,
        ));
    }
    assert(fitted(pixels, size, size) =~= pixels);
}

/// What a fitted surface leaves free is black and opaque, as wide on the one side as on the other but
/// for one pixel.
pub proof fn lemma_surface_is_in_the_middle(
    pixels: Seq<u8>,
    source: Dimensions,
    output: Dimensions,
    x: int,
    y: int,
)
    requires
        can_fit(pixels.len(), source, output),
        0 <= x < output.width,
        0 <= y < output.height,
    ensures
        ({
            let factor = fit_factor(source, output);
            let width = fitted_side(source.width as nat, output.width as nat, factor);
            let height = fitted_side(source.height as nat, output.height as nat, factor);
            let shown = fitted(pixels, source, output);
            let at = 4 * (y * output.width + x);
            let left = (output.width - width) / 2;
            let top = (output.height - height) / 2;
            &&& 0 <= at && at + 4 <= shown.len()
            &&& shown[at + 3] == 255 || (left <= x < left + width && top <= y < top + height)
            &&& !(left <= x < left + width && top <= y < top + height) ==> shown[at] == 0
                && shown[at + 1] == 0 && shown[at + 2] == 0
            &&& 0 <= (output.width - left - width) - left <= 1
            &&& 0 <= (output.height - top - height) - top <= 1
        }),
{
    lemma_fitted_surface_fills_the_frame(source, output);
    let w = output.width as int;
    let h = output.height as int;
    let place = y * w + x;
    preview::lemma_pixel_bounds(x, y, w, h);
    assert(place / w == y && place % w == x) by (nonlinear_arith)
        requires
            place == y * w + x,
            0 <= x < w,
    ;
    assert(w * h * 4 == 4 * (w * h)) by (nonlinear_arith);
    let shown = fitted(pixels, source, output);
    assert forall|j: int| 0 <= j < 4 implies #[trigger] shown[4 * place + j] == fitted_byte(
        pixels,
        source,
        output,
        4 * place + j,
    ) && (4 * place + j) / 4 == place && (4 * place + j) % 4 == j by {}
    assert(shown[4 * place + 0] == fitted_byte(pixels, source, output, 4 * place + 0));
}

/// The first surface of a window that is in sight is published as it is; while the window is
/// minimized nothing is.
pub proof fn lemma_first_surface_is_published(
    waiting: StartingReader,
    capture: CaptureView,
    candidate: Candidate,
)
    requires
        capture.is_current(waiting.generation),
        capture.latest.sequence < u64::MAX,
    ensures
        waiting.first_surface(capture, WindowUpdate::Surface(candidate), true) == capture,
        ({
            let after = waiting.first_surface(capture, WindowUpdate::Surface(candidate), false);
            &&& after.latest.sequence == capture.latest.sequence + 1
            &&& after.latest.frame is Some
            &&& after.latest.frame->0.data == candidate.frame.data
            &&& after.backend == "windows-graphics-capture"@
        }),
{
}

} // verus!

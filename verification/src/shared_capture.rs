//! The shared capture: one raw source that every encoder reads from.
//!
//! A capture holds only its latest frame. A reader that cannot keep up skips to the newest one
//! instead of falling behind. Producers are numbered by generations: one that has been replaced can
//! neither publish a frame nor report a failure any more.

use std::sync::Arc;

use vstd::prelude::*;
use vstd::string::*;

use crate::capture::{CaptureError, CaptureErrorView};
use crate::config;
use crate::config::clone_optional;
use crate::control;
use crate::control::following_revision;
use crate::media;
use crate::media::{push_size, push_string, push_strs, CaptureSettings, CaptureSettingsView};
use crate::text;
use crate::window_resize::Dimensions;

verus! {

/// How long a new producer may take for its first frame.
pub const STARTUP_FRAME_TIMEOUT_NANOS: u64 = 5_000_000_000;

/// How long a producer may take to stop.
pub const READER_STOP_TIMEOUT_NANOS: u64 = 2_000_000_000;

/// Pixel representation of a frame published to the encoders.
#[derive(Clone, Copy, Debug, PartialEq, Eq, Structural)]
pub enum SourcePixelFormat {
    Yuv420p,
    Bgra,
}

impl SourcePixelFormat {
    pub open spec fn spec_name(self) -> Seq<char> {
        match self {
            SourcePixelFormat::Yuv420p => "yuv420p"@,
            SourcePixelFormat::Bgra => "bgra"@,
        }
    }

    pub fn ffmpeg_name(self) -> (r: &'static str)
        ensures
            r@ == self.spec_name(),
    {
        match self {
            SourcePixelFormat::Yuv420p => "yuv420p",
            SourcePixelFormat::Bgra => "bgra",
        }
    }

    /// The bytes of a frame.
    pub fn frame_size(self, width: u32, height: u32) -> (r: Result<usize, SharedCaptureError>)
        ensures
            match self {
                SourcePixelFormat::Yuv420p => r == yuv420p_bytes(width, height),
                SourcePixelFormat::Bgra => r == packed_bytes(width, height),
            },
    {
        match self {
            SourcePixelFormat::Yuv420p => yuv420p_frame_size(width, height),
            SourcePixelFormat::Bgra => packed_frame_size(width, height),
        }
    }
}

/// A complete raw frame of the shared capture.
#[derive(Debug)]
pub struct SourceFrame {
    pub width: u32,
    pub height: u32,
    pub pixel_format: SourcePixelFormat,
    /// Wall-clock time of the capture, by which a rendered frame is traced back to its source.
    pub captured_at_unix_nanos: u64,
    /// Raw bytes in the pixel format.
    pub data: Arc<Vec<u8>>,
}

impl Clone for SourceFrame {
    fn clone(&self) -> (r: Self)
        ensures
            r == *self,
    {
        SourceFrame {
            width: self.width,
            height: self.height,
            pixel_format: self.pixel_format,
            captured_at_unix_nanos: self.captured_at_unix_nanos,
            data: self.data.clone(),
        }
    }
}

/// Why a capture cannot run.
#[derive(Clone, Copy, Debug, PartialEq, Eq, Structural)]
pub enum SharedCaptureError {
    FrameSizeOverflow,
    Yuv420pSizeOverflow,
    BgraSizeOverflow,
    SmallDimensions,
    SmallWindow,
    MinimizedWindow,
    AlreadyStopped,
    StoppedMeanwhile,
}

impl SharedCaptureError {
    pub open spec fn text(self) -> Seq<char> {
        match self {
            SharedCaptureError::FrameSizeOverflow =>
                "shared capture dimensions overflow frame size"@,
            SharedCaptureError::Yuv420pSizeOverflow =>
                "shared capture dimensions overflow YUV420P frame size"@,
            SharedCaptureError::BgraSizeOverflow =>
                "shared capture dimensions overflow BGRA frame size"@,
            SharedCaptureError::SmallDimensions =>
                "shared capture dimensions must be at least 2x2 and even"@,
            SharedCaptureError::SmallWindow =>
                "Windows Graphics Capture dimensions must be at least 2x2"@,
            SharedCaptureError::MinimizedWindow =>
                "selected window is minimized; restore it before starting capture"@,
            SharedCaptureError::AlreadyStopped => "shared capture has already stopped"@,
            SharedCaptureError::StoppedMeanwhile =>
                "shared capture stopped while its producer was restarting"@,
        }
    }

    pub fn message(self) -> (r: &'static str)
        ensures
            r@ == self.text(),
    {
        match self {
            SharedCaptureError::FrameSizeOverflow =>
                "shared capture dimensions overflow frame size",
            SharedCaptureError::Yuv420pSizeOverflow =>
                "shared capture dimensions overflow YUV420P frame size",
            SharedCaptureError::BgraSizeOverflow =>
                "shared capture dimensions overflow BGRA frame size",
            SharedCaptureError::SmallDimensions =>
                "shared capture dimensions must be at least 2x2 and even",
            SharedCaptureError::SmallWindow =>
                "Windows Graphics Capture dimensions must be at least 2x2",
            SharedCaptureError::MinimizedWindow =>
                "selected window is minimized; restore it before starting capture",
            SharedCaptureError::AlreadyStopped => "shared capture has already stopped",
            SharedCaptureError::StoppedMeanwhile =>
                "shared capture stopped while its producer was restarting",
        }
    }
}

pub open spec fn yuv420p_bytes(width: u32, height: u32) -> Result<usize, SharedCaptureError> {
    let pixels = width as int * height as int;
    if pixels > usize::MAX {
        Err(SharedCaptureError::FrameSizeOverflow)
    } else if pixels * 3 > usize::MAX {
        Err(SharedCaptureError::Yuv420pSizeOverflow)
    } else {
        Ok((pixels * 3 / 2) as usize)
    }
}

/// A frame with a byte and a half for each pixel.
pub fn yuv420p_frame_size(width: u32, height: u32) -> (r: Result<usize, SharedCaptureError>)
    ensures
        r == yuv420p_bytes(width, height),
{
    match (width as usize).checked_mul(height as usize) {
        Some(pixels) => match pixels.checked_mul(3) {
            Some(bytes) => Ok(bytes / 2),
            None => Err(SharedCaptureError::Yuv420pSizeOverflow),
        },
        None => Err(SharedCaptureError::FrameSizeOverflow),
    }
}

pub open spec fn packed_bytes(width: u32, height: u32) -> Result<usize, SharedCaptureError> {
    let pixels = width as int * height as int;
    if pixels * 4 > usize::MAX {
        Err(SharedCaptureError::BgraSizeOverflow)
    } else {
        Ok((pixels * 4) as usize)
    }
}

/// A frame with four bytes for each pixel.
pub fn packed_frame_size(width: u32, height: u32) -> (r: Result<usize, SharedCaptureError>)
    ensures
        r == packed_bytes(width, height),
{
    assert(0 <= width as int * height as int) by (nonlinear_arith);
    match (width as usize).checked_mul(height as usize) {
        Some(pixels) => match pixels.checked_mul(4) {
            Some(bytes) => Ok(bytes),
            None => Err(SharedCaptureError::BgraSizeOverflow),
        },
        None => Err(SharedCaptureError::BgraSizeOverflow),
    }
}

/// The format of the frames that a producer publishes.
#[derive(Clone, Copy, Debug, PartialEq, Eq, Structural)]
pub struct CaptureFormat {
    pub width: u32,
    pub height: u32,
    pub fps: u32,
    pub pixel_format: SourcePixelFormat,
}

/// Two dimensions in one number.
pub open spec fn packed(dimensions: Dimensions) -> u64 {
    (dimensions.width * 0x1_0000_0000 + dimensions.height) as u64
}

pub open spec fn unpacked(packed: u64) -> Dimensions {
    Dimensions {
        width: (packed / 0x1_0000_0000) as u32,
        height: (packed % 0x1_0000_0000) as u32,
    }
}

pub fn pack_dimensions(dimensions: Dimensions) -> (r: u64)
    ensures
        r == packed(dimensions),
{
    dimensions.width as u64 * 0x1_0000_0000 + dimensions.height as u64
}

pub fn unpack_dimensions(dimensions: u64) -> (r: Dimensions)
    ensures
        r == unpacked(dimensions),
{
    Dimensions {
        width: (dimensions / 0x1_0000_0000) as u32,
        height: (dimensions % 0x1_0000_0000) as u32,
    }
}

/// Packed dimensions are found again.
pub proof fn lemma_dimensions_round_trip(dimensions: Dimensions)
    ensures
        unpacked(packed(dimensions)) == dimensions,
{
}

/// The size of the source that a producer saw last.
#[derive(Clone, Copy, Debug, PartialEq, Eq, Structural)]
pub struct ObservedSourceDimensions {
    pub generation: u64,
    pub packed: u64,
}

/// The latest frame and whether more will come.
#[derive(Debug)]
pub struct LatestFrame {
    pub sequence: u64,
    pub frame: Option<SourceFrame>,
    pub ended: bool,
    pub failure: Option<String>,
}

#[verifier::ext_equal]
pub struct LatestView {
    pub sequence: u64,
    pub frame: Option<SourceFrame>,
    pub ended: bool,
    pub failure: Option<Seq<char>>,
}

impl View for LatestFrame {
    type V = LatestView;

    open spec fn view(&self) -> LatestView {
        LatestView {
            sequence: self.sequence,
            frame: self.frame,
            ended: self.ended,
            failure: config::optional_text(self.failure),
        }
    }
}

/// A capture: what its producer publishes and which producer that is.
#[derive(Debug)]
pub struct SharedCapture {
    pub format: CaptureFormat,
    pub observed: ObservedSourceDimensions,
    pub backend: &'static str,
    pub stopped: bool,
    pub generation: u64,
    pub latest: LatestFrame,
}

#[verifier::ext_equal]
pub struct CaptureView {
    pub format: CaptureFormat,
    pub observed: ObservedSourceDimensions,
    pub backend: Seq<char>,
    pub stopped: bool,
    pub generation: u64,
    pub latest: LatestView,
}

impl View for SharedCapture {
    type V = CaptureView;

    open spec fn view(&self) -> CaptureView {
        CaptureView {
            format: self.format,
            observed: self.observed,
            backend: self.backend@,
            stopped: self.stopped,
            generation: self.generation,
            latest: self.latest@,
        }
    }
}

impl CaptureView {
    /// Whether a producer is the current one of a capture that runs.
    pub open spec fn is_current(self, generation: u64) -> bool {
        !self.stopped && self.generation == generation
    }

    pub open spec fn published(self, format: CaptureFormat, data: Arc<Vec<u8>>, at: u64) -> CaptureView {
        CaptureView {
            latest: LatestView {
                sequence: (self.latest.sequence + 1) as u64,
                frame: Some(
                    SourceFrame {
                        width: format.width,
                        height: format.height,
                        pixel_format: format.pixel_format,
                        captured_at_unix_nanos: at,
                        data,
                    },
                ),
                ..self.latest
            },
            ..self
        }
    }

    /// A frame of a producer; one of a producer that was replaced is ignored.
    pub open spec fn published_by(
        self,
        generation: u64,
        format: CaptureFormat,
        data: Arc<Vec<u8>>,
        at: u64,
    ) -> CaptureView {
        if self.is_current(generation) {
            self.published(format, data, at)
        } else {
            self
        }
    }

    pub open spec fn finished(self, failure: Option<Seq<char>>) -> CaptureView {
        CaptureView { latest: LatestView { ended: true, failure, ..self.latest }, ..self }
    }

    pub open spec fn finished_by(self, generation: u64, failure: Option<Seq<char>>) -> CaptureView {
        if self.is_current(generation) {
            self.finished(failure)
        } else {
            self
        }
    }

    /// The producer so far is replaced.
    pub open spec fn advanced(self) -> CaptureView {
        let generation = control::next_revision(self.generation);
        CaptureView {
            generation,
            observed: ObservedSourceDimensions { generation, ..self.observed },
            ..self
        }
    }

    pub open spec fn observing(self, generation: u64, dimensions: Dimensions) -> CaptureView {
        if self.observed.generation == generation {
            CaptureView {
                observed: ObservedSourceDimensions { packed: packed(dimensions), ..self.observed },
                ..self
            }
        } else {
            self
        }
    }

    pub open spec fn reformatted(self, format: CaptureFormat) -> CaptureView {
        CaptureView {
            format,
            observed: ObservedSourceDimensions {
                generation: self.generation,
                packed: packed(Dimensions { width: format.width, height: format.height }),
            },
            ..self
        }
    }

    pub open spec fn producing(self, backend: Option<Seq<char>>) -> CaptureView {
        CaptureView {
            backend: match backend {
                Some(backend) => backend,
                None => self.backend,
            },
            latest: LatestView { ended: false, failure: None, ..self.latest },
            ..self
        }
    }
}

/// Whether a new producer has delivered.
#[derive(Debug)]
pub enum FirstFrame {
    Waiting,
    Ready,
    Failed(String),
}

impl SharedCapture {
    /// A capture whose first producer is about to start.
    pub fn new(format: CaptureFormat) -> (r: Self)
        ensures
            r@ == (CaptureView {
                format,
                observed: ObservedSourceDimensions {
                    generation: 1,
                    packed: packed(Dimensions { width: format.width, height: format.height }),
                },
                backend: "starting"@,
                stopped: false,
                generation: 1,
                latest: LatestView { sequence: 0, frame: None, ended: false, failure: None },
            }),
    {
        SharedCapture {
            format,
            observed: ObservedSourceDimensions {
                generation: 1,
                packed: pack_dimensions(
                    Dimensions { width: format.width, height: format.height },
                ),
            },
            backend: "starting",
            stopped: false,
            generation: 1,
            latest: LatestFrame { sequence: 0, frame: None, ended: false, failure: None },
        }
    }

    /// A producer starts; the way it captures is known at once only for FFmpeg.
    pub fn begin_producer(&mut self, backend: Option<&'static str>)
        ensures
            final(self)@ == old(self)@.producing(
                match backend {
                    Some(backend) => Some(backend@),
                    None => None,
                },
            ),
    {
        if let Some(backend) = backend {
            self.backend = backend;
        }
        self.latest.ended = false;
        self.latest.failure = None;
    }

    pub fn set_backend(&mut self, backend: &'static str)
        ensures
            final(self)@ == (CaptureView { backend: backend@, ..old(self)@ }),
    {
        self.backend = backend;
    }

    /// A reader that waits for the next frame. Replacement encoders must not take a frame of the
    /// source before.
    pub fn subscribe(&self) -> (r: SourceSubscription)
        ensures
            r.seen_sequence == self@.latest.sequence,
    {
        SourceSubscription { seen_sequence: self.latest.sequence }
    }

    /// A reader that takes the current frame first. A window that does not change may not deliver
    /// another one for long.
    pub fn subscribe_including_latest(&self) -> (r: SourceSubscription)
        ensures
            r.seen_sequence == if self@.latest.sequence == 0 {
                0
            } else {
                self@.latest.sequence - 1
            },
    {
        SourceSubscription { seen_sequence: self.latest.sequence.saturating_sub(1) }
    }

    pub fn latest_frame_snapshot(&self) -> (r: Option<SourceFrame>)
        ensures
            r == self@.latest.frame,
    {
        match &self.latest.frame {
            Some(frame) => Some(frame.clone()),
            None => None,
        }
    }

    pub fn source_dimensions(&self) -> (r: Dimensions)
        ensures
            r == (Dimensions { width: self@.format.width, height: self@.format.height }),
    {
        Dimensions { width: self.format.width, height: self.format.height }
    }

    pub fn observed_source_dimensions(&self) -> (r: Dimensions)
        ensures
            r == unpacked(self@.observed.packed),
    {
        unpack_dimensions(self.observed.packed)
    }

    pub fn source_fps(&self) -> (r: u32)
        ensures
            r == self@.format.fps,
    {
        self.format.fps
    }

    pub fn source_pixel_format(&self) -> (r: SourcePixelFormat)
        ensures
            r == self@.format.pixel_format,
    {
        self.format.pixel_format
    }

    pub fn backend_name(&self) -> (r: &'static str)
        ensures
            r@ == self@.backend,
    {
        self.backend
    }

    pub fn failure(&self) -> (r: Option<String>)
        ensures
            config::optional_text(r) == self@.latest.failure,
    {
        clone_optional(&self.latest.failure)
    }

    /// Whether a producer is the current one of a capture that runs.
    pub fn accepts(&self, generation: u64) -> (r: bool)
        ensures
            r == self@.is_current(generation),
    {
        !self.stopped && self.generation == generation
    }

    /// Publishes a frame of a producer, unless that producer was replaced; says whether it did.
    pub fn publish_frame_at_for_generation(
        &mut self,
        format: CaptureFormat,
        data: Arc<Vec<u8>>,
        captured_at_unix_nanos: u64,
        generation: u64,
    ) -> (r: bool)
        requires
            old(self)@.latest.sequence < u64::MAX,
        ensures
            final(self)@ == old(self)@.published_by(
                generation,
                format,
                data,
                captured_at_unix_nanos,
            ),
            r == old(self)@.is_current(generation),
    {
        if !self.accepts(generation) {
            return false;
        }
        self.latest.sequence += 1;
        self.latest.frame = Some(
            SourceFrame {
                width: format.width,
                height: format.height,
                pixel_format: format.pixel_format,
                captured_at_unix_nanos,
                data,
            },
        );
        true
    }

    /// No more frames will come.
    pub fn finish_reader(&mut self, failure: Option<String>)
        ensures
            final(self)@ == old(self)@.finished(config::optional_text(failure)),
    {
        self.latest.ended = true;
        self.latest.failure = failure;
    }

    /// A producer has ended; one that was replaced is ignored.
    pub fn finish_reader_for_generation(&mut self, generation: u64, failure: Option<String>)
        ensures
            final(self)@ == old(self)@.finished_by(generation, config::optional_text(failure)),
    {
        if self.accepts(generation) {
            self.finish_reader(failure);
        }
    }

    /// Takes note of the size of the source, if its producer is the current one.
    pub fn record_observed_source_dimensions(&mut self, generation: u64, dimensions: Dimensions)
        ensures
            final(self)@ == old(self)@.observing(generation, dimensions),
    {
        if self.observed.generation == generation {
            self.observed.packed = pack_dimensions(dimensions);
        }
    }

    /// Replaces the producer so far.
    pub fn advance_capture_generation(&mut self) -> (r: u64)
        ensures
            final(self)@ == old(self)@.advanced(),
            r == final(self)@.generation,
    {
        self.generation = following_revision(self.generation);
        self.observed.generation = self.generation;
        self.generation
    }

    /// Makes the capture end at once: its producer can publish nothing more.
    pub fn request_stop(&mut self)
        ensures
            final(self)@ == (CaptureView { stopped: true, ..old(self)@ }).advanced().finished(None),
    {
        self.stopped = true;
        let _ = self.advance_capture_generation();
        self.finish_reader(None);
    }

    /// Ends the capture. The end is made known only once.
    pub fn stop(&mut self)
        ensures
            ({
                let stopped = CaptureView { stopped: true, ..old(self)@ }.advanced();
                final(self)@ == if old(self)@.stopped {
                    stopped
                } else {
                    stopped.finished(None)
                }
            }),
    {
        let first_stop = !self.stopped;
        self.stopped = true;
        let _ = self.advance_capture_generation();
        if first_stop {
            self.finish_reader(None);
        }
    }

    /// Begins a restart: the producer so far is replaced. What is returned is the number of the
    /// latest frame, which the new producer has to exceed.
    pub fn begin_restart(&mut self) -> (r: Result<u64, SharedCaptureError>)
        ensures
            if old(self)@.stopped {
                r == Err::<u64, SharedCaptureError>(SharedCaptureError::AlreadyStopped)
                    && final(self)@ == old(self)@
            } else {
                r == Ok::<u64, SharedCaptureError>(old(self)@.latest.sequence) && final(self)@
                    == old(self)@.advanced()
            },
    {
        if self.stopped {
            return Err(SharedCaptureError::AlreadyStopped);
        }
        let _ = self.advance_capture_generation();
        Ok(self.latest.sequence)
    }

    /// Takes the format of the next producer, unless the capture was stopped meanwhile.
    pub fn take_format(&mut self, format: CaptureFormat) -> (r: Result<(), SharedCaptureError>)
        ensures
            if old(self)@.stopped {
                r == Err::<(), SharedCaptureError>(SharedCaptureError::StoppedMeanwhile)
                    && final(self)@ == old(self)@
            } else {
                r == Ok::<(), SharedCaptureError>(()) && final(self)@ == old(self)@.reformatted(
                    format,
                )
            },
    {
        if self.stopped {
            return Err(SharedCaptureError::StoppedMeanwhile);
        }
        self.format = format;
        self.observed = ObservedSourceDimensions {
            generation: self.generation,
            packed: pack_dimensions(Dimensions { width: format.width, height: format.height }),
        };
        Ok(())
    }

    /// Whether a new producer has delivered a frame behind the given one.
    pub fn wait_for_new_frame(&self, previous_sequence: u64, timed_out: bool) -> (r: FirstFrame)
        ensures
            if self@.latest.ended {
                r is Failed && r->Failed_0@ == match self@.latest.failure {
                    Some(failure) => failure,
                    None => "capture producer stopped before a frame was available"@,
                }
            } else if self@.latest.sequence > previous_sequence && self@.latest.frame is Some {
                r is Ready
            } else if timed_out {
                r is Failed && r->Failed_0@
                    == "capture producer did not produce a frame within 5 seconds"@
            } else {
                r is Waiting
            },
    {
        if self.latest.ended {
            return FirstFrame::Failed(
                match &self.latest.failure {
                    Some(failure) => failure.clone(),
                    None => "capture producer stopped before a frame was available".to_owned(),
                },
            );
        }
        if self.latest.sequence > previous_sequence && self.latest.frame.is_some() {
            return FirstFrame::Ready;
        }
        if timed_out {
            FirstFrame::Failed(
                "capture producer did not produce a frame within 5 seconds".to_owned(),
            )
        } else {
            FirstFrame::Waiting
        }
    }

    /// What is reported of a capture that delivered no first frame.
    pub fn startup_failure(&self) -> (r: String)
        ensures
            r@ == "shared FFmpeg capture did not produce an initial frame (backend="@
                + self@.backend + ", expected="@ + media::plan::size_text(
                self@.format.width,
                self@.format.height,
            ) + ", observed="@ + media::plan::size_text(
                unpacked(self@.observed.packed).width,
                unpacked(self@.observed.packed).height,
            ) + ")"@,
    {
        let observed = self.observed_source_dimensions();
        let mut s = text::joined(
            "shared FFmpeg capture did not produce an initial frame (backend=",
            self.backend,
        );
        s.append(", expected=");
        push_size(&mut s, self.format.width, self.format.height);
        s.append(", observed=");
        push_size(&mut s, observed.width, observed.height);
        s.append(")");
        s
    }
}

/// What is reported when FFmpeg's output could not be read.
pub fn read_failure(ended: bool, error: &str) -> (r: String)
    ensures
        r@ == if ended {
            "FFmpeg ended before a complete raw frame was available"@
        } else {
            error@
        },
{
    if ended {
        "FFmpeg ended before a complete raw frame was available".to_owned()
    } else {
        error.to_owned()
    }
}

/// How long a producer rests after a frame that it took less than a frame's time for.
pub fn rest_after_frame(frame_nanos: u64, elapsed_nanos: u64) -> (r: u64)
    ensures
        r == if elapsed_nanos < frame_nanos {
            frame_nanos - elapsed_nanos
        } else {
            0
        },
{
    if elapsed_nanos < frame_nanos {
        frame_nanos - elapsed_nanos
    } else {
        0
    }
}

/// A reader of a capture: the number of the last frame that it took.
#[derive(Clone, Copy, Debug, PartialEq, Eq, Structural)]
pub struct SourceSubscription {
    pub seen_sequence: u64,
}

/// What a reader finds.
#[derive(Debug)]
pub enum Received {
    /// Nothing new yet.
    Waiting,
    Frame(SourceFrame),
    /// The capture has ended.
    Ended,
    Failed(String),
}

pub enum ReceivedView {
    Waiting,
    Frame(SourceFrame),
    Ended,
    Failed(Seq<char>),
}

impl View for Received {
    type V = ReceivedView;

    open spec fn view(&self) -> ReceivedView {
        match self {
            Received::Waiting => ReceivedView::Waiting,
            Received::Frame(frame) => ReceivedView::Frame(*frame),
            Received::Ended => ReceivedView::Ended,
            Received::Failed(failure) => ReceivedView::Failed(failure@),
        }
    }
}

impl SourceSubscription {
    /// A newer frame goes before the end of the capture, and is taken only once.
    pub open spec fn received(self, latest: LatestView) -> (SourceSubscription, ReceivedView) {
        if latest.sequence > self.seen_sequence {
            (
                SourceSubscription { seen_sequence: latest.sequence },
                match latest.frame {
                    Some(frame) => ReceivedView::Frame(frame),
                    None => ReceivedView::Ended,
                },
            )
        } else if !latest.ended {
            (self, ReceivedView::Waiting)
        } else {
            (
                self,
                match latest.failure {
                    Some(failure) => ReceivedView::Failed(
                        "shared FFmpeg capture failed: "@ + failure,
                    ),
                    None => ReceivedView::Ended,
                },
            )
        }
    }

    /// Takes the newest frame, if the reader has not seen it.
    pub fn recv(&mut self, capture: &SharedCapture) -> (r: Received)
        ensures
            (*final(self), r@) == old(self).received(capture@.latest),
    {
        if capture.latest.sequence > self.seen_sequence {
            self.seen_sequence = capture.latest.sequence;
            return match &capture.latest.frame {
                Some(frame) => Received::Frame(frame.clone()),
                None => Received::Ended,
            };
        }
        if !capture.latest.ended {
            return Received::Waiting;
        }
        match &capture.latest.failure {
            Some(failure) => Received::Failed(
                text::joined("shared FFmpeg capture failed: ", failure.as_str()),
            ),
            None => Received::Ended,
        }
    }
}

/// A producer that was replaced changes nothing any more, neither by a frame nor by its end.
pub proof fn lemma_replaced_producer_is_ignored(
    v: CaptureView,
    generation: u64,
    format: CaptureFormat,
    data: Arc<Vec<u8>>,
    at: u64,
    failure: Option<Seq<char>>,
    dimensions: Dimensions,
)
    requires
        v.generation == generation,
        v.observed.generation == generation,
    ensures
        v.advanced().published_by(generation, format, data, at) == v.advanced(),
        v.advanced().finished_by(generation, failure) == v.advanced(),
        v.advanced().observing(generation, dimensions) == v.advanced(),
{
}

/// A new reader waits for the next frame; one that is to take the current frame gets it; and either
/// gets only the newest of several.
pub proof fn lemma_readers_take_the_newest(
    v: CaptureView,
    format: CaptureFormat,
    first: Arc<Vec<u8>>,
    second: Arc<Vec<u8>>,
    at: u64,
)
    requires
        v.latest.sequence < u64::MAX - 2,
        !v.latest.ended,
    ensures
        ({
            let one = v.published(format, first, at);
            let two = one.published(format, second, at);
            let late = SourceSubscription { seen_sequence: one.latest.sequence };
            let early = SourceSubscription { seen_sequence: v.latest.sequence };
            &&& late.received(one.latest).1 is Waiting
            &&& late.received(two.latest).1 == ReceivedView::Frame(two.latest.frame->0)
            &&& early.received(one.latest).1 == ReceivedView::Frame(one.latest.frame->0)
            &&& early.received(two.latest).1 == ReceivedView::Frame(two.latest.frame->0)
            &&& early.received(two.latest).0.received(two.latest).1 is Waiting
        }),
{
}

/// Holds the running capture, if there is one. A capture is a number that the program gives it.
#[derive(Clone, Copy, Debug, PartialEq, Eq, Structural)]
pub struct CaptureSlot {
    pub running: Option<u64>,
}

impl CaptureSlot {
    pub fn new() -> (r: Self)
        ensures
            r.running is None,
    {
        CaptureSlot { running: None }
    }

    pub fn current(&self) -> (r: Option<u64>)
        ensures
            r == self.running,
    {
        self.running
    }

    /// Takes a capture in, unless there is one.
    pub fn install(&mut self, capture: u64) -> (r: Result<(), &'static str>)
        ensures
            match r {
                Ok(()) => old(self).running is None && final(self).running == Some(capture),
                Err(message) => old(self).running is Some && *final(self) == *old(self) && message@
                    == "shared capture is already running"@,
            },
    {
        if self.running.is_some() {
            return Err("shared capture is already running");
        }
        self.running = Some(capture);
        Ok(())
    }

    pub fn take(&mut self) -> (r: Option<u64>)
        ensures
            r == old(self).running,
            final(self).running is None,
    {
        let running = self.running;
        self.running = None;
        running
    }
}

pub open spec fn at_least_two(n: u32) -> u32 {
    if n < 2 {
        2
    } else {
        n
    }
}

/// The size of the frames of a source, of even sides. A given height keeps the source's shape.
pub open spec fn target_size(settings: CaptureSettingsView, source: Dimensions) -> Result<
    Dimensions,
    SharedCaptureError,
> {
    let source_width = at_least_two(source.width);
    let source_height = at_least_two(source.height);
    let (width, height) = if settings.source_kind == "test"@ {
        media::pattern_dimensions(settings)
    } else {
        match settings.output_height {
            Some(height) => (
                ((source_width * height / source_height as int) % 0x1_0000_0000) as u32,
                height,
            ),
            None => (source_width, source_height),
        }
    };
    let even = Dimensions {
        width: (width / 2 * 2) as u32,
        height: (height / 2 * 2) as u32,
    };
    if even.width < 2 || even.height < 2 {
        Err(SharedCaptureError::SmallDimensions)
    } else {
        Ok(even)
    }
}

pub fn target_dimensions_from_source(settings: &CaptureSettings, source: Dimensions) -> (r: Result<
    Dimensions,
    SharedCaptureError,
>)
    ensures
        r == target_size(settings@, source),
{
    let source_width: u32 = if source.width < 2 {
        2
    } else {
        source.width
    };
    let source_height: u32 = if source.height < 2 {
        2
    } else {
        source.height
    };
    let (width, height) = if text::text_eq(settings.source_kind.as_str(), "test") {
        settings.test_pattern_dimensions()
    } else {
        match settings.output_height {
            Some(height) => {
                assert(source_width as int * height as int <= 0xffff_ffff * 0xffff_ffff)
                    by (nonlinear_arith)
                    requires
                        0 <= source_width <= 0xffff_ffff,
                        0 <= height <= 0xffff_ffff,
                ;
                let scaled: u64 = source_width as u64 * height as u64 / source_height as u64;
                ((scaled % 0x1_0000_0000) as u32, height)
            },
            None => (source_width, source_height),
        }
    };
    let width: u32 = width / 2 * 2;
    let height: u32 = height / 2 * 2;
    if width < 2 || height < 2 {
        return Err(SharedCaptureError::SmallDimensions);
    }
    Ok(Dimensions { width, height })
}

/// Why the format of a source cannot be told.
#[derive(Debug)]
pub enum FormatError {
    Source(CaptureError),
    Capture(SharedCaptureError),
}

pub enum FormatErrorView {
    Source(CaptureErrorView),
    Capture(SharedCaptureError),
}

impl View for FormatError {
    type V = FormatErrorView;

    open spec fn view(&self) -> FormatErrorView {
        match self {
            FormatError::Source(e) => FormatErrorView::Source(e@),
            FormatError::Capture(e) => FormatErrorView::Capture(*e),
        }
    }
}

impl FormatError {
    pub fn message(&self) -> (r: String)
        ensures
            r@ == match self@ {
                FormatErrorView::Source(e) => e.text(),
                FormatErrorView::Capture(e) => e.text(),
            },
    {
        match self {
            FormatError::Source(e) => e.message(),
            FormatError::Capture(e) => e.message().to_owned(),
        }
    }
}

pub open spec fn dimensions_view(r: Result<Dimensions, CaptureError>) -> Result<
    Dimensions,
    CaptureErrorView,
> {
    match r {
        Ok(dimensions) => Ok(dimensions),
        Err(e) => Err(e@),
    }
}

/// The format of a source. A window of Windows is captured by the compositor in its own size;
/// everything else by FFmpeg. `source` is what the platform says of the size of the source.
pub open spec fn format_of(
    settings: CaptureSettingsView,
    is_windows: bool,
    minimized: bool,
    source: Result<Dimensions, CaptureErrorView>,
) -> Result<CaptureFormat, FormatErrorView> {
    let wanted = config::value_or(settings.output_fps, settings.fps);
    let fps = if wanted < 1 {
        1
    } else {
        wanted
    };
    if is_windows && settings.source_kind == "window"@ {
        if settings.source_native_id is Some && minimized {
            Err(FormatErrorView::Capture(SharedCaptureError::MinimizedWindow))
        } else {
            match source {
                Err(e) => Err(FormatErrorView::Source(e)),
                Ok(size) => if size.width < 2 || size.height < 2 {
                    Err(FormatErrorView::Capture(SharedCaptureError::SmallWindow))
                } else {
                    Ok(
                        CaptureFormat {
                            width: size.width,
                            height: size.height,
                            fps,
                            pixel_format: SourcePixelFormat::Bgra,
                        },
                    )
                },
            }
        }
    } else {
        let known = if settings.source_kind == "test"@ {
            Ok(
                Dimensions {
                    width: at_least_two(settings.width),
                    height: at_least_two(settings.height),
                },
            )
        } else {
            source
        };
        match known {
            Err(e) => Err(FormatErrorView::Source(e)),
            Ok(size) => match target_size(settings, size) {
                Err(e) => Err(FormatErrorView::Capture(e)),
                Ok(target) => Ok(
                    CaptureFormat {
                        width: target.width,
                        height: target.height,
                        fps,
                        pixel_format: SourcePixelFormat::Yuv420p,
                    },
                ),
            },
        }
    }
}

/// The size of the frames of a source that FFmpeg reads.
pub fn target_dimensions(settings: &CaptureSettings, source: Result<Dimensions, CaptureError>) -> (r:
    Result<Dimensions, FormatError>)
    ensures
        match r {
            Ok(size) => if settings.source_kind@ == "test"@ {
                target_size(
                    settings@,
                    Dimensions {
                        width: at_least_two(settings.width),
                        height: at_least_two(settings.height),
                    },
                ) == Ok::<Dimensions, SharedCaptureError>(size)
            } else {
                source is Ok && target_size(settings@, source->Ok_0) == Ok::<
                    Dimensions,
                    SharedCaptureError,
                >(size)
            },
            Err(e) => if settings.source_kind@ == "test"@ {
                e@ is Capture && target_size(
                    settings@,
                    Dimensions {
                        width: at_least_two(settings.width),
                        height: at_least_two(settings.height),
                    },
                ) == Err::<Dimensions, SharedCaptureError>(e@->Capture_0)
            } else {
                match source {
                    Err(cause) => e@ == FormatErrorView::Source(cause@),
                    Ok(size) => e@ is Capture && target_size(settings@, size) == Err::<
                        Dimensions,
                        SharedCaptureError,
                    >(e@->Capture_0),
                }
            },
        },
{
    let known = if text::text_eq(settings.source_kind.as_str(), "test") {
        Dimensions {
            width: if settings.width < 2 {
                2
            } else {
                settings.width
            },
            height: if settings.height < 2 {
                2
            } else {
                settings.height
            },
        }
    } else {
        match source {
            Ok(size) => size,
            Err(e) => {
                return Err(FormatError::Source(e));
            },
        }
    };
    match target_dimensions_from_source(settings, known) {
        Ok(target) => Ok(target),
        Err(e) => Err(FormatError::Capture(e)),
    }
}

pub fn target_format(
    settings: &CaptureSettings,
    is_windows: bool,
    minimized: bool,
    source: Result<Dimensions, CaptureError>,
) -> (r: Result<CaptureFormat, FormatError>)
    ensures
        match r {
            Ok(format) => format_of(settings@, is_windows, minimized, dimensions_view(source)) == Ok::<
                CaptureFormat,
                FormatErrorView,
            >(format),
            Err(e) => format_of(settings@, is_windows, minimized, dimensions_view(source)) == Err::<
                CaptureFormat,
                FormatErrorView,
            >(e@),
        },
{
    let wanted: u32 = match settings.output_fps {
        Some(fps) => fps,
        None => settings.fps,
    };
    let fps: u32 = if wanted < 1 {
        1
    } else {
        wanted
    };
    if is_windows && text::text_eq(settings.source_kind.as_str(), "window") {
        if settings.source_native_id.is_some() && minimized {
            return Err(FormatError::Capture(SharedCaptureError::MinimizedWindow));
        }
        return match source {
            Err(e) => Err(FormatError::Source(e)),
            Ok(size) => if size.width < 2 || size.height < 2 {
                Err(FormatError::Capture(SharedCaptureError::SmallWindow))
            } else {
                Ok(
                    CaptureFormat {
                        width: size.width,
                        height: size.height,
                        fps,
                        pixel_format: SourcePixelFormat::Bgra,
                    },
                )
            },
        };
    }
    match target_dimensions(settings, source) {
        Ok(target) => Ok(
            CaptureFormat {
                width: target.width,
                height: target.height,
                fps,
                pixel_format: SourcePixelFormat::Yuv420p,
            },
        ),
        Err(e) => Err(e),
    }
}

/// Frames that FFmpeg captures have even sides of at least two pixels.
pub proof fn lemma_target_is_even(settings: CaptureSettingsView, source: Dimensions)
    ensures
        target_size(settings, source) matches Ok(size) ==> size.width >= 2 && size.height >= 2
            && size.width % 2 == 0 && size.height % 2 == 0,
{
}

/// The filter that brings a source of any size onto a canvas without stretching it.
pub open spec fn canvas_filter(width: u32, height: u32) -> Seq<char> {
    let size = text::decimal(width as nat) + ":"@ + text::decimal(height as nat);
    "scale="@ + size + ":force_original_aspect_ratio=decrease:flags=fast_bilinear,pad="@ + size
        + ":(ow-iw)/2:(oh-ih)/2:color=black,setsar=1"@
}

pub fn raw_capture_filter(width: u32, height: u32) -> (r: String)
    ensures
        r@ == canvas_filter(width, height),
{
    let mut size = text::around_number("", width as u64, ":");
    text::push_decimal(&mut size, height as u64);
    proof {
        reveal_strlit("");
    }
    assert(size@ =~= text::decimal(width as nat) + ":"@ + text::decimal(height as nat));
    let mut s = text::joined("scale=", size.as_str());
    s.append(":force_original_aspect_ratio=decrease:flags=fast_bilinear,pad=");
    s.append(size.as_str());
    s.append(":(ow-iw)/2:(oh-ih)/2:color=black,setsar=1");
    s
}

pub open spec fn bounded(n: u32, low: u32, high: u32) -> u32 {
    if n < low {
        low
    } else if n > high {
        high
    } else {
        n
    }
}

fn clamp(n: u32, low: u32, high: u32) -> (r: u32)
    ensures
        r == bounded(n, low, high),
{
    if n < low {
        low
    } else if n > high {
        high
    } else {
        n
    }
}

/// The filter that marks the test pattern while its tone sounds.
pub open spec fn marker_filter(height: u32) -> Seq<char> {
    let size = text::decimal(bounded((height / 8) as u32, 24, 160) as nat);
    let margin = text::decimal(bounded((height / 40) as u32, 8, 32) as nat);
    "drawbox=x="@ + margin + ":y="@ + margin + ":w="@ + size + ":h="@ + size
        + ":color=lime@0.9:t=fill:enable=lt(mod(time(0)\\,2)\\,1)"@
}

fn tone_marker(height: u32) -> (r: String)
    ensures
        r@ == marker_filter(height),
{
    let size = text::decimal_string(clamp(height / 8, 24, 160) as u64);
    let margin = text::decimal_string(clamp(height / 40, 8, 32) as u64);
    let mut s = text::joined("drawbox=x=", margin.as_str());
    s.append(":y=");
    s.append(margin.as_str());
    s.append(":w=");
    s.append(size.as_str());
    s.append(":h=");
    s.append(size.as_str());
    s.append(":color=lime@0.9:t=fill:enable=lt(mod(time(0)\\,2)\\,1)");
    s
}

/// The arguments by which FFmpeg captures. `input` are those by which it reads the source.
pub open spec fn capture_args(
    settings: CaptureSettingsView,
    width: u32,
    height: u32,
    fps: u32,
    input: Seq<Seq<char>>,
) -> Seq<Seq<char>> {
    let is_test = settings.source_kind == "test"@;
    let source = if is_test {
        seq![
            "-hide_banner"@,
            "-loglevel"@,
            "error"@,
            "-f"@,
            "lavfi"@,
            "-i"@,
            "testsrc2=size="@ + media::plan::size_text(width, height) + ":rate="@ + text::decimal(
                fps as nat,
            ),
        ]
    } else {
        input
    };
    let filter = if is_test && settings.audio_mode == "test"@ {
        seq!["-vf"@, marker_filter(height)]
    } else if !is_test {
        seq!["-vf"@, canvas_filter(width, height)]
    } else {
        Seq::empty()
    };
    source + seq!["-an"@] + filter + seq![
        "-pix_fmt"@,
        "yuv420p"@,
        "-f"@,
        "rawvideo"@,
        "pipe:1"@,
    ]
}

pub fn ffmpeg_args(
    settings: &CaptureSettings,
    width: u32,
    height: u32,
    fps: u32,
    input: Vec<String>,
) -> (r: Vec<String>)
    ensures
        config::texts(r@) == capture_args(settings@, width, height, fps, config::texts(input@)),
{
    let ghost given = config::texts(input@);
    let is_test = text::text_eq(settings.source_kind.as_str(), "test");
    let mut args: Vec<String> = if is_test {
        let mut args: Vec<String> = Vec::new();
        push_strs(&mut args, vec!["-hide_banner", "-loglevel", "error", "-f", "lavfi", "-i"]);
        let mut source = "testsrc2=size=".to_owned();
        push_size(&mut source, width, height);
        source.append(":rate=");
        text::push_decimal(&mut source, fps as u64);
        push_string(&mut args, source);
        args
    } else {
        input
    };
    push_strs(&mut args, vec!["-an"]);
    if is_test {
        if text::text_eq(settings.audio_mode.as_str(), "test") {
            push_strs(&mut args, vec!["-vf"]);
            push_string(&mut args, tone_marker(height));
        }
    } else {
        push_strs(&mut args, vec!["-vf"]);
        push_string(&mut args, raw_capture_filter(width, height));
    }
    push_strs(&mut args, vec!["-pix_fmt", "yuv420p", "-f", "rawvideo", "pipe:1"]);
    assert(config::texts(args@) =~= capture_args(settings@, width, height, fps, given));
    args
}

/// A capture keeps the shape of its source: it has the wanted height, made even, and no more than two
/// columns fewer than the shape asks for. Without a wanted height it keeps the size, made even.
pub proof fn lemma_capture_keeps_the_shape(settings: CaptureSettingsView, source: Dimensions)
    requires
        settings.source_kind != "test"@,
        source.width >= 2,
        source.height >= 2,
    ensures
        settings.output_height matches Some(height) ==> height >= 2 && source.width * height
            >= 2 * source.height && source.width * height < 0x1_0000_0000 * source.height ==> ({
            let size = target_size(settings, source);
            &&& size is Ok
            &&& size->Ok_0.height <= height < size->Ok_0.height + 2
            &&& size->Ok_0.width * source.height <= source.width * height
            &&& source.width * height < (size->Ok_0.width + 2) * source.height
        }),
        settings.output_height is None ==> ({
            let size = target_size(settings, source);
            &&& size is Ok
            &&& size->Ok_0.width <= source.width < size->Ok_0.width + 2
            &&& size->Ok_0.height <= source.height < size->Ok_0.height + 2
        }),
{
    if let Some(height) = settings.output_height {
        let a = source.width * height;
        let b = source.height as int;
        if height >= 2 && a >= 2 * b && a < 0x1_0000_0000 * b {
            let q = a / b;
            assert(q * b <= a < (q + 1) * b && 2 <= q < 0x1_0000_0000) by (nonlinear_arith)
                requires
                    q == a / b,
                    b > 0,
                    2 * b <= a,
                    a < 0x1_0000_0000 * b,
            ;
            let w = q / 2 * 2;
            assert(w * b <= q * b && (q + 1) * b <= (w + 2) * b) by (nonlinear_arith)
                requires
                    w <= q,
                    q + 1 <= w + 2,
                    b > 0,
            ;
        }
    }
}

/// The filter that fills a canvas names its size twice: once to scale into, once to pad to.
pub proof fn lemma_canvas_has_its_size(width: u32, height: u32)
    ensures
        ({
            let filter = canvas_filter(width, height);
            &&& "scale="@.is_prefix_of(filter)
            &&& text::split_once_seq(filter.skip(6), ':') matches Some((across, rest))
                && media::plan::denotes(across, width) && (text::split_once_seq(rest, ':') matches Some(
                (down, _),
            ) && media::plan::denotes(down, height))
            &&& exists|i: int|
                0 <= i <= filter.len() && ({
                    let back = #[trigger] filter.skip(i);
                    &&& ",pad="@.is_prefix_of(back)
                    &&& text::split_once_seq(back.skip(5), ':') matches Some((across, rest))
                        && media::plan::denotes(across, width) && (text::split_once_seq(rest, ':') matches Some(
                        (down, _),
                    ) && media::plan::denotes(down, height))
                })
        }),
{
    reveal_strlit("scale=");
    reveal_strlit(":");
    reveal_strlit(",pad=");
    reveal_strlit(":force_original_aspect_ratio=decrease:flags=fast_bilinear,pad=");
    reveal_strlit(":(ow-iw)/2:(oh-ih)/2:color=black,setsar=1");
    let w = text::decimal(width as nat);
    let h = text::decimal(height as nat);
    let filter = canvas_filter(width, height);
    let middle = ":force_original_aspect_ratio=decrease:flags=fast_bilinear,pad="@;
    let end = ":(ow-iw)/2:(oh-ih)/2:color=black,setsar=1"@;
    text::lemma_decimal_round_trip(width as nat, u32::MAX as nat);
    text::lemma_decimal_round_trip(height as nat, u32::MAX as nat);
    media::plan::lemma_decimal_has_no(width as nat, ':');
    media::plan::lemma_decimal_has_no(height as nat, ':');
    assert("scale="@ =~= filter.take(6));
    let size = w.push(':') + h;
    let tail = size + end;
    let after_width = h + middle + tail;
    assert(filter.skip(6) =~= w.push(':') + after_width);
    text::lemma_split(w, ':', after_width);
    let after_height = middle.skip(1) + tail;
    assert(after_width =~= h.push(':') + after_height);
    text::lemma_split(h, ':', after_height);
    let at = 6 + size.len() + middle.len() - 5;
    let back = filter.skip(at);
    assert(back =~= ",pad="@ + tail);
    assert(",pad="@ =~= back.take(5));
    let rest = h + end;
    assert(back.skip(5) =~= w.push(':') + rest);
    text::lemma_split(w, ':', rest);
    assert(rest =~= h.push(':') + end.skip(1));
    text::lemma_split(h, ':', end.skip(1));
}

/// A window is captured on Windows as it is, in BGRA; everything else is brought to an even size in
/// YUV. The rate is what the settings ask for, but at least one frame a second.
pub proof fn lemma_capture_formats(
    settings: CaptureSettingsView,
    is_windows: bool,
    minimized: bool,
    source: Dimensions,
)
    ensures
        format_of(settings, is_windows, minimized, Ok(source)) matches Ok(format) ==> {
            &&& format.fps >= 1
            &&& config::value_or(settings.output_fps, settings.fps) >= 1 ==> format.fps
                == config::value_or(settings.output_fps, settings.fps)
            &&& is_windows && settings.source_kind == "window"@ ==> format.pixel_format
                == SourcePixelFormat::Bgra && format.width == source.width && format.height
                == source.height
            &&& !is_windows || settings.source_kind != "window"@ ==> format.pixel_format
                == SourcePixelFormat::Yuv420p && format.width % 2 == 0 && format.height % 2 == 0
        },
        is_windows && settings.source_kind == "window"@ && settings.source_native_id is Some
            && minimized ==> format_of(settings, is_windows, minimized, Ok(source)) is Err,
        is_windows && settings.source_kind == "window"@ && !minimized && source.width >= 2
            && source.height >= 2 ==> format_of(settings, is_windows, minimized, Ok(source)) is Ok,
{
}

/// A reader gets the frame that was published last, as it was published: its bytes, its size, its
/// format and its time.
pub proof fn lemma_published_frame_arrives(
    v: CaptureView,
    generation: u64,
    format: CaptureFormat,
    data: Arc<Vec<u8>>,
    at: u64,
    reader: SourceSubscription,
)
    requires
        v.is_current(generation),
        v.latest.sequence < u64::MAX,
        reader.seen_sequence <= v.latest.sequence,
    ensures
        ({
            let after = v.published_by(generation, format, data, at);
            let (seen, received) = reader.received(after.latest);
            &&& received == ReceivedView::Frame(
                SourceFrame {
                    width: format.width,
                    height: format.height,
                    pixel_format: format.pixel_format,
                    captured_at_unix_nanos: at,
                    data,
                },
            )
            &&& !after.latest.ended ==> seen.received(after.latest).1 is Waiting
        }),
{
}

/// A capture that ended is told as a failure where it had one.
pub proof fn lemma_ended_capture_is_told(v: CaptureView, generation: u64, failure: Option<Seq<char>>)
    requires
        v.is_current(generation),
    ensures
        ({
            let after = v.finished_by(generation, failure);
            let reader = SourceSubscription { seen_sequence: v.latest.sequence };
            reader.received(after.latest).1 == match failure {
                Some(failure) => ReceivedView::Failed("shared FFmpeg capture failed: "@ + failure),
                None => ReceivedView::Ended,
            }
        }),
{
}

/// A capture program is asked for raw YUV frames on its output, and, unless it draws the test pattern
/// itself, for the whole canvas.
pub proof fn lemma_capture_is_told_what_it_needs(
    settings: CaptureSettingsView,
    width: u32,
    height: u32,
    fps: u32,
    input: Seq<Seq<char>>,
)
    ensures
        ({
            let args = capture_args(settings, width, height, fps, input);
            let n = args.len();
            &&& n >= 6
            &&& args.subrange(n - 5, n as int) == seq![
                "-pix_fmt"@,
                "yuv420p"@,
                "-f"@,
                "rawvideo"@,
                "pipe:1"@,
            ]
            &&& settings.source_kind != "test"@ ==> args.take(input.len() as int) == input
                && media::plan::has_option(
                args,
                input.len() as int,
                "-vf"@,
                |a: Seq<char>| a == canvas_filter(width, height),
            )
            &&& settings.source_kind == "test"@ ==> media::plan::has_option(
                args,
                0,
                "-i"@,
                |a: Seq<char>|
                    "testsrc2=size="@.is_prefix_of(a) && (text::split_once_seq(a.skip(14), ':') matches Some(
                        (size, rate),
                    ) && media::plan::denotes_size(size, width, height) && "rate="@.is_prefix_of(rate)
                        && media::plan::denotes(rate.skip(5), fps)),
            )
        }),
{
    reveal_strlit("testsrc2=size=");
    reveal_strlit(":rate=");
    reveal_strlit("rate=");
    reveal_strlit("x");
    let args = capture_args(settings, width, height, fps, input);
    let n = args.len();
    let tail = seq!["-pix_fmt"@, "yuv420p"@, "-f"@, "rawvideo"@, "pipe:1"@];
    assert(args.subrange(n - 5, n as int) =~= tail);
    if settings.source_kind == "test"@ {
        let size = media::plan::size_text(width, height);
        let rate = text::decimal(fps as nat);
        let a = "testsrc2=size="@ + size + ":rate="@ + rate;
        assert(args[5] == "-i"@ && args[6] == a);
        media::plan::lemma_size_text(width, height);
        media::plan::lemma_decimal_has_no(width as nat, ':');
        media::plan::lemma_decimal_has_no(height as nat, ':');
        assert forall|i: int| 0 <= i < size.len() implies size[i] != ':' by {
            let w = text::decimal(width as nat);
            if i < w.len() {
                assert(size[i] == w[i]);
            } else if i > w.len() {
                assert(size[i] == text::decimal(height as nat)[i - w.len() - 1]);
            }
        }
        assert("testsrc2=size="@ =~= a.take(14));
        let back = "rate="@ + rate;
        assert(a.skip(14) =~= size.push(':') + back);
        text::lemma_split(size, ':', back);
        assert("rate="@ =~= back.take(5));
        assert(back.skip(5) =~= rate);
        text::lemma_decimal_round_trip(fps as nat, u32::MAX as nat);
    } else {
        assert(args.take(input.len() as int) =~= input);
        let k = input.len() as int + 1;
        assert(args[k] == "-vf"@ && args[k + 1] == canvas_filter(width, height));
    }
}

} // verus!

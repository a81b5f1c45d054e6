//! The time that frames spend in an encoder, and the pace at which they leave it.

use std::collections::VecDeque;

use vstd::prelude::*;

use crate::media::{EncoderPlan, MediaError};
use crate::shared_capture::{SourceFrame, SourcePixelFormat};

verus! {

pub const MAX_ENCODED_FRAME_AGE_NANOS: u64 = 250_000_000;

pub const ENCODER_BACKLOG_RESTART_AGE_NANOS: u64 = 750_000_000;

pub const ENCODER_BACKLOG_RESTART_FRAMES: u32 = 8;

pub const ENCODER_TIMING_QUEUE_LIMIT: usize = 120;

/// The time from `earlier` to `now`, or zero where `earlier` lies ahead.
pub open spec fn elapsed(now: u64, earlier: u64) -> u64 {
    if now >= earlier {
        (now - earlier) as u64
    } else {
        0
    }
}

pub fn nanos_since(now: u64, earlier: u64) -> (r: u64)
    ensures
        r == elapsed(now, earlier),
{
    if now >= earlier {
        now - earlier
    } else {
        0
    }
}

/// The successor of a counter that starts again at zero.
pub open spec fn next_count(n: u64) -> u64 {
    if n == u64::MAX {
        0
    } else {
        (n + 1) as u64
    }
}

pub fn counted(n: u64) -> (r: u64)
    ensures
        r == next_count(n),
{
    if n == u64::MAX {
        0
    } else {
        n + 1
    }
}

/// What the encoder input checks and paces.
#[derive(Clone, Copy, Debug)]
pub struct EncoderInput {
    pub width: u32,
    pub height: u32,
    pub pixel_format: SourcePixelFormat,
    pub frame_size: usize,
    pub interval_nanos: u64,
    pub next_input_at: u64,
}

impl EncoderInput {
    pub fn new(plan: &EncoderPlan, interval_nanos: u64, now: u64) -> (r: Self)
        ensures
            r == (EncoderInput {
                width: plan.width,
                height: plan.height,
                pixel_format: plan.pixel_format,
                frame_size: plan.frame_size,
                interval_nanos,
                next_input_at: now,
            }),
    {
        EncoderInput {
            width: plan.width,
            height: plan.height,
            pixel_format: plan.pixel_format,
            frame_size: plan.frame_size,
            interval_nanos,
            next_input_at: now,
        }
    }

    /// Whether a frame is written now: not before the next frame is due, and only in the format
    /// that the encoder was started for.
    pub open spec fn admission(self, frame: SourceFrame, now: u64) -> Result<bool, MediaError> {
        if now < self.next_input_at {
            Ok(false)
        } else if frame.width != self.width || frame.height != self.height {
            Err(
                MediaError::FrameDimensions {
                    width: self.width,
                    height: self.height,
                    frame_width: frame.width,
                    frame_height: frame.height,
                },
            )
        } else if frame.pixel_format != self.pixel_format {
            Err(
                MediaError::FrameFormat {
                    declared: self.pixel_format,
                    delivered: frame.pixel_format,
                },
            )
        } else if frame.data@.len() != self.frame_size {
            Err(
                MediaError::FrameBytes {
                    found: frame.data@.len() as usize,
                    expected: self.frame_size,
                    width: self.width,
                    height: self.height,
                    pixel_format: self.pixel_format,
                },
            )
        } else {
            Ok(true)
        }
    }

    pub fn accepts(&self, frame: &SourceFrame, now: u64) -> (r: Result<bool, MediaError>)
        ensures
            r == self.admission(*frame, now),
    {
        if now < self.next_input_at {
            return Ok(false);
        }
        if frame.width != self.width || frame.height != self.height {
            return Err(
                MediaError::FrameDimensions {
                    width: self.width,
                    height: self.height,
                    frame_width: frame.width,
                    frame_height: frame.height,
                },
            );
        }
        if frame.pixel_format != self.pixel_format {
            return Err(
                MediaError::FrameFormat {
                    declared: self.pixel_format,
                    delivered: frame.pixel_format,
                },
            );
        }
        let found: usize = frame.data.len();
        if found != self.frame_size {
            return Err(
                MediaError::FrameBytes {
                    found,
                    expected: self.frame_size,
                    width: self.width,
                    height: self.height,
                    pixel_format: self.pixel_format,
                },
            );
        }
        Ok(true)
    }

    /// Notes that a frame admitted at `now` was written.
    pub fn written(&mut self, now: u64)
        requires
            now + old(self).interval_nanos <= u64::MAX,
        ensures
            *final(self) == (EncoderInput {
                next_input_at: (now + old(self).interval_nanos) as u64,
                ..*old(self)
            }),
    {
        self.next_input_at = now + self.interval_nanos;
    }
}

/// When a frame went into the encoder.
#[derive(Clone, Copy, Debug, PartialEq, Eq, Structural)]
pub struct SubmittedFrameTiming {
    pub captured_at: u64,
    pub capture_time_unix_nanos: u64,
}

/// When a frame came out of the encoder, and which captured frame it is.
#[derive(Clone, Copy, Debug, PartialEq, Eq, Structural)]
pub struct EncodedFrameTiming {
    pub stale: bool,
    pub age_nanos: Option<u64>,
    pub capture_time_unix_nanos: Option<u64>,
    pub encoder_delay_ms: Option<u64>,
}

/// Frames inside the encoder, oldest first.
#[derive(Debug)]
pub struct EncoderTiming {
    pub submitted_frames: VecDeque<SubmittedFrameTiming>,
    pub encoder_delay_ms: u64,
    pub stale_encoded_frames: u64,
}

/// The last `n` elements of a sequence.
pub open spec fn last_of<T>(s: Seq<T>, n: int) -> Seq<T> {
    if s.len() <= n {
        s
    } else {
        s.skip(s.len() - n)
    }
}

impl EncoderTiming {
    pub fn new() -> (r: Self)
        ensures
            r.submitted_frames@ == Seq::<SubmittedFrameTiming>::empty(),
            r.encoder_delay_ms == 0,
            r.stale_encoded_frames == 0,
    {
        EncoderTiming {
            submitted_frames: VecDeque::new(),
            encoder_delay_ms: 0,
            stale_encoded_frames: 0,
        }
    }

    /// Notes a frame that is about to be written to the encoder.
    pub fn record_input(&mut self, captured_at: u64, captured_at_unix_nanos: u64)
        ensures
            final(self).submitted_frames@ == last_of(
                old(self).submitted_frames@,
                ENCODER_TIMING_QUEUE_LIMIT - 1,
            ).push(
                SubmittedFrameTiming {
                    captured_at,
                    capture_time_unix_nanos: captured_at_unix_nanos,
                },
            ),
            final(self).submitted_frames@.len() <= ENCODER_TIMING_QUEUE_LIMIT,
            final(self).encoder_delay_ms == old(self).encoder_delay_ms,
            final(self).stale_encoded_frames == old(self).stale_encoded_frames,
    {
        while self.submitted_frames.len() >= ENCODER_TIMING_QUEUE_LIMIT
            invariant
                last_of(self.submitted_frames@, ENCODER_TIMING_QUEUE_LIMIT - 1) == last_of(
                    old(self).submitted_frames@,
                    ENCODER_TIMING_QUEUE_LIMIT - 1,
                ),
                self.encoder_delay_ms == old(self).encoder_delay_ms,
                self.stale_encoded_frames == old(self).stale_encoded_frames,
            decreases self.submitted_frames@.len(),
        {
            let ghost before = self.submitted_frames@;
            let _ = self.submitted_frames.pop_front();
            assert(last_of(self.submitted_frames@, ENCODER_TIMING_QUEUE_LIMIT - 1) =~= last_of(
                before,
                ENCODER_TIMING_QUEUE_LIMIT - 1,
            ));
        }
        self.submitted_frames.push_back(
            SubmittedFrameTiming { captured_at, capture_time_unix_nanos: captured_at_unix_nanos },
        );
    }

    /// Takes back the last frame with the given capture time, which was not written after all.
    pub fn discard_input(&mut self, captured_at_unix_nanos: u64)
        ensures
            final(self).encoder_delay_ms == old(self).encoder_delay_ms,
            final(self).stale_encoded_frames == old(self).stale_encoded_frames,
            ({
                let frames = old(self).submitted_frames@;
                let left = final(self).submitted_frames@;
                ||| left == frames && forall|j: int|
                    0 <= j < frames.len() ==> #[trigger] frames[j].capture_time_unix_nanos
                        != captured_at_unix_nanos
                ||| exists|i: int|
                    0 <= i < frames.len() && #[trigger] frames[i].capture_time_unix_nanos
                        == captured_at_unix_nanos && left == frames.remove(i) && forall|j: int|
                        i < j < frames.len() ==> #[trigger] frames[j].capture_time_unix_nanos
                            != captured_at_unix_nanos
            }),
    {
        let mut i: usize = self.submitted_frames.len();
        while i > 0
            invariant
                i <= self.submitted_frames@.len(),
                *self == *old(self),
                forall|j: int|
                    i <= j < self.submitted_frames@.len()
                        ==> #[trigger] self.submitted_frames@[j].capture_time_unix_nanos
                        != captured_at_unix_nanos,
            decreases i,
        {
            i -= 1;
            if self.submitted_frames[i].capture_time_unix_nanos == captured_at_unix_nanos {
                let ghost frames = self.submitted_frames@;
                let _ = self.submitted_frames.remove(i);
                assert(frames[i as int].capture_time_unix_nanos == captured_at_unix_nanos);
                return;
            }
        }
    }

    /// Takes the oldest submitted frame for an encoded one, and tells whether it is already too
    /// old to be sent.
    pub fn encoded_frame_timing(&mut self, now: u64) -> (r: EncodedFrameTiming)
        ensures
            old(self).submitted_frames@.len() == 0 ==> {
                &&& final(self).submitted_frames@ == old(self).submitted_frames@
                &&& final(self).encoder_delay_ms == old(self).encoder_delay_ms
                &&& final(self).stale_encoded_frames == old(self).stale_encoded_frames
                &&& r == (EncodedFrameTiming {
                    stale: false,
                    age_nanos: None,
                    capture_time_unix_nanos: None,
                    encoder_delay_ms: None,
                })
            },
            old(self).submitted_frames@.len() > 0 ==> {
                let submitted = old(self).submitted_frames@[0];
                let age = elapsed(now, submitted.captured_at);
                let stale = age > MAX_ENCODED_FRAME_AGE_NANOS;
                &&& final(self).submitted_frames@ == old(self).submitted_frames@.drop_first()
                &&& final(self).encoder_delay_ms == age / 1_000_000
                &&& final(self).stale_encoded_frames == if stale {
                    next_count(old(self).stale_encoded_frames)
                } else {
                    old(self).stale_encoded_frames
                }
                &&& r == (EncodedFrameTiming {
                    stale,
                    age_nanos: Some(age),
                    capture_time_unix_nanos: Some(submitted.capture_time_unix_nanos),
                    encoder_delay_ms: Some((age / 1_000_000) as u64),
                })
            },
    {
        let submitted = match self.submitted_frames.pop_front() {
            Some(submitted) => submitted,
            None => {
                return EncodedFrameTiming {
                    stale: false,
                    age_nanos: None,
                    capture_time_unix_nanos: None,
                    encoder_delay_ms: None,
                };
            },
        };
        let age: u64 = nanos_since(now, submitted.captured_at);
        let delay: u64 = age / 1_000_000;
        let stale = age > MAX_ENCODED_FRAME_AGE_NANOS;
        self.encoder_delay_ms = delay;
        if stale {
            self.stale_encoded_frames = counted(self.stale_encoded_frames);
        }
        EncodedFrameTiming {
            stale,
            age_nanos: Some(age),
            capture_time_unix_nanos: Some(submitted.capture_time_unix_nanos),
            encoder_delay_ms: Some(delay),
        }
    }
}

/// Spaces frames evenly without letting a late encoder build up a debt.
#[derive(Clone, Copy, Debug, PartialEq, Eq, Structural)]
pub struct FramePacer {
    pub frame_duration: u64,
    pub next_deadline: u64,
}

impl FramePacer {
    pub fn new(frame_duration: u64, now: u64) -> (r: Self)
        ensures
            r == (FramePacer { frame_duration, next_deadline: now }),
    {
        FramePacer { frame_duration, next_deadline: now }
    }

    /// Moves the deadline on by one frame and gives the time to sleep, if the deadline is ahead.
    /// More than one frame behind, the deadline becomes `now`.
    pub fn wait_after_frame(&mut self, now: u64) -> (r: Option<u64>)
        requires
            old(self).next_deadline + old(self).frame_duration <= u64::MAX,
        ensures
            ({
                let due = old(self).next_deadline + old(self).frame_duration;
                &&& r == if due > now {
                    Some((due - now) as u64)
                } else {
                    None
                }
                &&& final(self).frame_duration == old(self).frame_duration
                &&& final(self).next_deadline == if due <= now && now - due
                    > old(self).frame_duration {
                    now as int
                } else {
                    due
                }
            }),
            now <= final(self).next_deadline + final(self).frame_duration,
    {
        self.next_deadline = self.next_deadline + self.frame_duration;
        if self.next_deadline > now {
            Some(self.next_deadline - now)
        } else {
            if now - self.next_deadline > self.frame_duration {
                self.next_deadline = now;
            }
            None
        }
    }

    pub fn reset_to_now(&mut self, now: u64)
        ensures
            *final(self) == (FramePacer { next_deadline: now, ..*old(self) }),
    {
        self.next_deadline = now;
    }
}

pub struct TimingView {
    pub submitted_frames: Seq<SubmittedFrameTiming>,
    pub encoder_delay_ms: u64,
    pub stale_encoded_frames: u64,
}

impl View for EncoderTiming {
    type V = TimingView;

    open spec fn view(&self) -> TimingView {
        TimingView {
            submitted_frames: self.submitted_frames@,
            encoder_delay_ms: self.encoder_delay_ms,
            stale_encoded_frames: self.stale_encoded_frames,
        }
    }
}

/// A frame is written to an encoder only when it is due and has the size, the format and the number of
/// bytes that the encoder was started for; a frame that is due and has not is an error.
pub proof fn lemma_admitted_frames(input: EncoderInput, frame: SourceFrame, now: u64)
    ensures
        ({
            let fits = frame.width == input.width && frame.height == input.height
                && frame.pixel_format == input.pixel_format && frame.data@.len()
                == input.frame_size;
            let r = input.admission(frame, now);
            &&& r == Ok::<bool, MediaError>(true) <==> fits && now >= input.next_input_at
            &&& r == Ok::<bool, MediaError>(false) <==> now < input.next_input_at
            &&& r is Err <==> !fits && now >= input.next_input_at
        }),
{
}

/// The time since a moment is what has passed, and nothing where the moment lies ahead.
pub proof fn lemma_elapsed(now: u64, earlier: u64)
    ensures
        earlier <= now ==> earlier + elapsed(now, earlier) == now,
        earlier > now ==> elapsed(now, earlier) == 0,
{
}

/// A count goes up by one, and begins again behind the last number.
pub proof fn lemma_counts_go_up(n: u64)
    ensures
        n < u64::MAX ==> next_count(n) == n + 1,
        next_count(u64::MAX) == 0,
{
}

/// The last elements of a sequence end it, and are as many as were asked for where there are so many.
pub proof fn lemma_last_elements<T>(s: Seq<T>, n: int, k: int)
    requires
        0 <= n,
        0 <= k < last_of(s, n).len(),
    ensures
        last_of(s, n).len() <= n,
        s.len() <= n ==> last_of(s, n) == s,
        s.len() >= n ==> last_of(s, n).len() == n,
        last_of(s, n)[last_of(s, n).len() - 1 - k] == s[s.len() - 1 - k],
{
}

} // verus!

//! What an encoder puts out, on its way to the viewers.

use vstd::prelude::*;

use crate::media;
use crate::media::{
    FrameAction, MAX_ENCODED_FRAME_AGE_NANOS, MediaPipeline, MediaPipelineView, QueuedSampleView,
};

verus! {

/// What a network abstraction layer unit of an H.264 stream carries.
#[derive(Clone, Copy, Debug, PartialEq, Eq, Structural)]
pub enum H264NalKind {
    ParameterOrPrefix,
    Picture,
    Discard,
}

/// The kind of a unit by its type, which the low five bits of its first byte hold.
pub open spec fn nal_kind(nal: Seq<u8>) -> H264NalKind {
    if nal.len() == 0 {
        H264NalKind::Discard
    } else {
        let unit = nal[0] % 32;
        if 1 <= unit <= 5 || unit == 19 {
            H264NalKind::Picture
        } else if 6 <= unit <= 9 || unit == 13 {
            H264NalKind::ParameterOrPrefix
        } else {
            H264NalKind::Discard
        }
    }
}

pub fn h264_nal_kind(nal: &[u8]) -> (r: H264NalKind)
    ensures
        r == nal_kind(nal@),
{
    if nal.len() == 0 {
        return H264NalKind::Discard;
    }
    let unit: u8 = nal[0] % 32;
    if (1 <= unit && unit <= 5) || unit == 19 {
        H264NalKind::Picture
    } else if (6 <= unit && unit <= 9) || unit == 13 {
        H264NalKind::ParameterOrPrefix
    } else {
        H264NalKind::Discard
    }
}

/// How the reading of the encoder goes on.
#[derive(Clone, Copy, Debug, PartialEq, Eq, Structural)]
pub enum OutputStep {
    /// The encoder is started anew; its output is read no further.
    Restart,
    /// The frame came too late. The next one is read at once and the pace taken up from now.
    Drain,
    /// The frame is on its way; the next one is due a frame later.
    Pace,
    /// Nothing was shown; the next unit is read at once.
    Next,
}

impl MediaPipelineView {
    /// A frame of the encoder, of the given duration.
    pub open spec fn framed(self, data: Seq<u8>, duration_nanos: u64, now: u64, backlog: u32) -> (
        Self,
        u32,
        OutputStep,
    ) {
        let (timed, late, action) = self.frame_encoded(now, backlog);
        match action {
            FrameAction::Restart => (timed, late, OutputStep::Restart),
            FrameAction::Skip => (timed, late, OutputStep::Drain),
            FrameAction::Deliver { capture_time_unix_nanos, encoder_delay_ms } => (
                timed.written(
                    QueuedSampleView {
                        data,
                        duration_nanos,
                        capture_time_unix_nanos,
                        encoder_delay_ms,
                    },
                ),
                late,
                OutputStep::Pace,
            ),
        }
    }

    /// A unit of an H.264 stream. Parameters take no time on the clock of the stream, and what is
    /// neither a picture nor a parameter is left out.
    pub open spec fn h264_read(
        self,
        data: Seq<u8>,
        duration_nanos: u64,
        now: u64,
        backlog: u32,
    ) -> (Self, u32, OutputStep) {
        match nal_kind(data) {
            H264NalKind::Picture => self.framed(data, duration_nanos, now, backlog),
            H264NalKind::ParameterOrPrefix => (
                if self.active {
                    self.written(
                        QueuedSampleView {
                            data,
                            duration_nanos: 0,
                            capture_time_unix_nanos: None,
                            encoder_delay_ms: None,
                        },
                    )
                } else {
                    self
                },
                backlog,
                OutputStep::Next,
            ),
            H264NalKind::Discard => (self, backlog, OutputStep::Next),
        }
    }
}

impl MediaPipeline {
    /// Sends a frame that the encoder has finished to the viewers, unless it comes too late.
    pub fn on_frame(
        &mut self,
        data: Vec<u8>,
        duration_nanos: u64,
        now: u64,
        consecutive_backlog_frames: &mut u32,
    ) -> (r: OutputStep)
        ensures
            (final(self)@, *final(consecutive_backlog_frames), r) == old(self)@.framed(
                data@,
                duration_nanos,
                now,
                *old(consecutive_backlog_frames),
            ),
    {
        match self.on_encoded_frame(now, consecutive_backlog_frames) {
            FrameAction::Restart => OutputStep::Restart,
            FrameAction::Skip => OutputStep::Drain,
            FrameAction::Deliver { capture_time_unix_nanos, encoder_delay_ms } => {
                self.write_frame(data, duration_nanos, capture_time_unix_nanos, encoder_delay_ms);
                OutputStep::Pace
            },
        }
    }

    /// Takes in a unit of an H.264 stream.
    pub fn on_h264_unit(
        &mut self,
        data: Vec<u8>,
        duration_nanos: u64,
        now: u64,
        consecutive_backlog_frames: &mut u32,
    ) -> (r: OutputStep)
        ensures
            (final(self)@, *final(consecutive_backlog_frames), r) == old(self)@.h264_read(
                data@,
                duration_nanos,
                now,
                *old(consecutive_backlog_frames),
            ),
    {
        match h264_nal_kind(data.as_slice()) {
            H264NalKind::Picture => self.on_frame(
                data,
                duration_nanos,
                now,
                consecutive_backlog_frames,
            ),
            H264NalKind::ParameterOrPrefix => {
                if self.active {
                    self.write_frame(data, 0, None, None);
                }
                OutputStep::Next
            },
            H264NalKind::Discard => OutputStep::Next,
        }
    }
}

/// A frame that came too late for the viewers changes nothing that they are sent.
pub proof fn lemma_late_frames_are_not_sent(
    pipeline: MediaPipelineView,
    data: Seq<u8>,
    duration_nanos: u64,
    now: u64,
    backlog: u32,
)
    requires
        pipeline.timing.submitted_frames.len() > 0,
        media::timing::elapsed(now, pipeline.timing.submitted_frames[0].captured_at)
            > MAX_ENCODED_FRAME_AGE_NANOS,
    ensures
        pipeline.framed(data, duration_nanos, now, backlog).0.subscribers == pipeline.subscribers,
        pipeline.framed(data, duration_nanos, now, backlog).2 != OutputStep::Pace,
{
}

/// A frame that left the encoder within a quarter of a second of its capture goes to every viewer who
/// is still there, with its own capture time and its delay in milliseconds; it is the newest that
/// waits for them.
pub proof fn lemma_fresh_frames_are_sent(
    pipeline: MediaPipelineView,
    data: Seq<u8>,
    duration_nanos: u64,
    now: u64,
    backlog: u32,
    i: int,
)
    requires
        pipeline.active,
        pipeline.timing.submitted_frames.len() > 0,
        ({
            let captured = pipeline.timing.submitted_frames[0].captured_at;
            captured <= now && now - captured <= 250_000_000
        }),
        0 <= i < pipeline.subscribers.len(),
        !pipeline.subscribers[i].closed,
    ensures
        ({
            let oldest = pipeline.timing.submitted_frames[0];
            let (after, late, step) = pipeline.framed(data, duration_nanos, now, backlog);
            let sent = after.subscribers[i].samples;
            &&& step == OutputStep::Pace
            &&& late == 0
            &&& after.subscribers.len() == pipeline.subscribers.len()
            &&& sent.len() > 0
            &&& sent.last().data == data
            &&& sent.last().duration_nanos == duration_nanos
            &&& sent.last().capture_time_unix_nanos == Some(oldest.capture_time_unix_nanos)
            &&& sent.last().encoder_delay_ms == Some(
                ((now - oldest.captured_at) / 1_000_000) as u64,
            )
            &&& after.timing.submitted_frames == pipeline.timing.submitted_frames.drop_first()
            &&& after.timing.stale_encoded_frames == pipeline.timing.stale_encoded_frames
        }),
{
}

/// A stream that is not on sends nothing, and neither does one whose frame is older than a quarter of
/// a second; a late frame is counted.
pub proof fn lemma_nothing_else_is_sent(
    pipeline: MediaPipelineView,
    data: Seq<u8>,
    duration_nanos: u64,
    now: u64,
    backlog: u32,
)
    ensures
        ({
            let frames = pipeline.timing.submitted_frames;
            let (after, late, step) = pipeline.framed(data, duration_nanos, now, backlog);
            let old = frames.len() > 0 && now > frames[0].captured_at && now
                - frames[0].captured_at > 250_000_000;
            &&& !pipeline.active || old ==> after.subscribers == pipeline.subscribers && step
                != OutputStep::Pace
            &&& old && pipeline.timing.stale_encoded_frames < u64::MAX
                ==> after.timing.stale_encoded_frames == pipeline.timing.stale_encoded_frames + 1
        }),
{
}

/// The eighth frame in a row that comes three quarters of a second late has the encoder started anew;
/// one that comes earlier ends the row.
pub proof fn lemma_a_lagging_encoder_is_restarted(
    pipeline: MediaPipelineView,
    data: Seq<u8>,
    duration_nanos: u64,
    now: u64,
    backlog: u32,
)
    requires
        pipeline.timing.submitted_frames.len() > 0,
        pipeline.timing.submitted_frames[0].captured_at <= now,
        backlog < 8,
    ensures
        ({
            let age = now - pipeline.timing.submitted_frames[0].captured_at;
            let (after, late, step) = pipeline.framed(data, duration_nanos, now, backlog);
            &&& age >= 750_000_000 ==> late == backlog + 1
            &&& age < 750_000_000 ==> late == 0
            &&& step == OutputStep::Restart <==> age >= 750_000_000 && backlog == 7
            &&& step == OutputStep::Restart ==> after.capture_revision != pipeline.capture_revision
            &&& step != OutputStep::Restart ==> after.capture_revision == pipeline.capture_revision
        }),
{
}

/// Parameter sets, which carry no picture, go to the viewers of a running stream at once and take no
/// capture time; slices of pictures are frames.
pub proof fn lemma_parameter_sets_are_passed_on(
    pipeline: MediaPipelineView,
    data: Seq<u8>,
    duration_nanos: u64,
    now: u64,
    backlog: u32,
    i: int,
)
    requires
        data.len() > 0,
        0 <= i < pipeline.subscribers.len(),
        !pipeline.subscribers[i].closed,
    ensures
        ({
            let unit = data[0] & 0x1f;
            let (after, late, step) = pipeline.h264_read(data, duration_nanos, now, backlog);
            &&& (unit == 6 || unit == 7 || unit == 8 || unit == 9 || unit == 13) && pipeline.active
                ==> {
                &&& after.subscribers[i].samples.len() > 0
                &&& after.subscribers[i].samples.last().data == data
                &&& after.subscribers[i].samples.last().duration_nanos == 0
                &&& after.timing == pipeline.timing
                &&& step == OutputStep::Next
                &&& late == backlog
            }
            &&& unit == 0 || unit == 10 || unit == 11 || unit == 12 || unit >= 20 ==> after == pipeline
                && late == backlog && step == OutputStep::Next
            &&& unit == 1 || unit == 2 || unit == 3 || unit == 4 || unit == 5 || unit == 19 ==> (
                after,
                late,
                step,
            ) == pipeline.framed(
                data,
                duration_nanos,
                now,
                backlog,
            )
        }),
{
    let b = data[0];
    assert(b & 0x1f == b % 32) by (bit_vector);
}

} // verus!

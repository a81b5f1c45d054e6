//! One encoder with its viewers.

use std::collections::VecDeque;

use vstd::prelude::*;
use vstd::string::*;

use crate::config;
use crate::config::clone_optional;
use crate::list;
use crate::media;
use crate::media::{
    CaptureSettings, CaptureSettingsView, ENCODER_BACKLOG_RESTART_AGE_NANOS,
    ENCODER_BACKLOG_RESTART_FRAMES, EncodedFrameTiming, EncoderTiming, FrameCaptureMapping,
    FrameCaptureTiming, H264_PAYLOAD_TYPE, MAX_ENCODED_FRAME_AGE_NANOS, MediaTrack, MediaTrackView,
    OutgoingSample, QueuedSample, QueuedSampleView, TimingView, UnsupportedCodec, VP8_PAYLOAD_TYPE,
    VP9_PAYLOAD_TYPE, VideoCodec, copy_bytes, counted, find_timing, record_timing,
};
use crate::text;

verus! {

/// Whether an encoder has produced its first frame.
#[derive(Debug)]
pub enum EncoderReadiness {
    Pending,
    Ready,
    Failed(String),
}

pub enum ReadinessView {
    Pending,
    Ready,
    Failed(Seq<char>),
}

impl View for EncoderReadiness {
    type V = ReadinessView;

    open spec fn view(&self) -> ReadinessView {
        match self {
            EncoderReadiness::Pending => ReadinessView::Pending,
            EncoderReadiness::Ready => ReadinessView::Ready,
            EncoderReadiness::Failed(error) => ReadinessView::Failed(error@),
        }
    }
}

/// The capture times of the frames that a viewer was sent.
#[derive(Debug)]
pub struct ViewerTimings {
    pub connection_id: u128,
    pub entries: VecDeque<FrameCaptureMapping>,
}

/// One encoder and the viewers that it serves.
#[derive(Debug)]
pub struct MediaPipeline {
    pub subscribers: Vec<MediaTrack>,
    pub frame_capture_times: Vec<ViewerTimings>,
    pub stop: bool,
    pub active: bool,
    pub ended: bool,
    pub failure: Option<String>,
    pub capture_settings: Option<CaptureSettings>,
    pub capture_revision: u64,
    pub timing: EncoderTiming,
    pub encoder_backlog_restarts: u64,
    pub readiness: EncoderReadiness,
    pub codec: VideoCodec,
}

pub struct MediaPipelineView {
    pub subscribers: Seq<MediaTrackView>,
    pub timing_ids: Seq<u128>,
    pub timings: Seq<Seq<FrameCaptureMapping>>,
    pub stop: bool,
    pub active: bool,
    pub ended: bool,
    pub failure: Option<Seq<char>>,
    pub capture_settings: Option<CaptureSettingsView>,
    pub capture_revision: u64,
    pub timing: TimingView,
    pub encoder_backlog_restarts: u64,
    pub readiness: ReadinessView,
    pub codec: VideoCodec,
}

pub open spec fn track_views(tracks: Seq<MediaTrack>) -> Seq<MediaTrackView> {
    tracks.map_values(|t: MediaTrack| t@)
}

pub open spec fn track_ids(tracks: Seq<MediaTrackView>) -> Seq<u128> {
    tracks.map_values(|t: MediaTrackView| t.connection_id)
}

pub open spec fn timing_ids(timings: Seq<ViewerTimings>) -> Seq<u128> {
    timings.map_values(|t: ViewerTimings| t.connection_id)
}

pub open spec fn timing_entries(timings: Seq<ViewerTimings>) -> Seq<Seq<FrameCaptureMapping>> {
    timings.map_values(|t: ViewerTimings| t.entries@)
}

pub open spec fn optional_settings(settings: Option<CaptureSettings>) -> Option<
    CaptureSettingsView,
> {
    match settings {
        Some(settings) => Some(settings@),
        None => None,
    }
}

impl View for MediaPipeline {
    type V = MediaPipelineView;

    open spec fn view(&self) -> MediaPipelineView {
        MediaPipelineView {
            subscribers: track_views(self.subscribers@),
            timing_ids: timing_ids(self.frame_capture_times@),
            timings: timing_entries(self.frame_capture_times@),
            stop: self.stop,
            active: self.active,
            ended: self.ended,
            failure: config::optional_text(self.failure),
            capture_settings: optional_settings(self.capture_settings),
            capture_revision: self.capture_revision,
            timing: self.timing@,
            encoder_backlog_restarts: self.encoder_backlog_restarts,
            readiness: self.readiness@,
            codec: self.codec,
        }
    }
}

/// Why an encoder that was started does not run.
#[derive(Debug)]
pub enum ReadinessError {
    Failed(String),
    Late,
}

/// How the loop that keeps an encoder running goes on.
#[derive(Clone, Copy, Debug, PartialEq, Eq, Structural)]
pub enum EncoderLoop {
    /// The pipeline was stopped.
    Stop,
    /// The settings changed while the encoder ran: start the next one.
    Restart,
    /// The encoder ended by itself, and so does the loop.
    Return,
}

/// What becomes of an encoded frame.
#[derive(Clone, Copy, Debug, PartialEq, Eq, Structural)]
pub enum FrameAction {
    /// The encoder lags too far behind and is started anew at the live edge.
    Restart,
    /// The frame is dropped and the pace taken up from now.
    Skip,
    /// The frame goes to the viewers.
    Deliver { capture_time_unix_nanos: Option<u64>, encoder_delay_ms: Option<u64> },
}

/// The state that the viewers of a pipeline are told.
pub open spec fn pipeline_status(pipeline: MediaPipelineView) -> Seq<char> {
    if pipeline.failure is Some {
        "error"@
    } else if pipeline.ended {
        "stopped"@
    } else if pipeline.active {
        "streaming"@
    } else {
        "waiting"@
    }
}

/// The consecutive frames that came out late, after one more frame.
pub open spec fn backlog_after(backlog: u32, age_nanos: Option<u64>) -> u32 {
    if age_nanos is Some && age_nanos->0 >= ENCODER_BACKLOG_RESTART_AGE_NANOS {
        if backlog == u32::MAX {
            u32::MAX
        } else {
            (backlog + 1) as u32
        }
    } else {
        0
    }
}

impl MediaPipelineView {
    /// The pipeline after a frame came out, once its timing is known.
    pub open spec fn marked_ready(self) -> MediaPipelineView {
        MediaPipelineView {
            readiness: if self.readiness is Pending {
                ReadinessView::Ready
            } else {
                self.readiness
            },
            ..self
        }
    }

    pub open spec fn marked_failed(self, error: Seq<char>) -> MediaPipelineView {
        MediaPipelineView {
            readiness: if self.readiness is Pending {
                ReadinessView::Failed(error)
            } else {
                self.readiness
            },
            ..self
        }
    }

    pub open spec fn restarted_for_backlog(self) -> MediaPipelineView {
        MediaPipelineView {
            encoder_backlog_restarts: media::timing::next_count(self.encoder_backlog_restarts),
            capture_revision: media::timing::next_count(self.capture_revision),
            ..self
        }
    }

    /// What a frame does that the encoder has finished: the pipeline after it, the number of late
    /// frames in a row, and what becomes of the frame.
    pub open spec fn frame_encoded(self, now: u64, backlog: u32) -> (Self, u32, FrameAction) {
        let frames = self.timing.submitted_frames;
        let age = if frames.len() > 0 {
            Some(media::timing::elapsed(now, frames[0].captured_at))
        } else {
            None
        };
        let stale = age is Some && age->0 > MAX_ENCODED_FRAME_AGE_NANOS;
        let timed = MediaPipelineView {
            timing: if frames.len() > 0 {
                TimingView {
                    submitted_frames: frames.drop_first(),
                    encoder_delay_ms: (age->0 / 1_000_000) as u64,
                    stale_encoded_frames: if stale {
                        media::timing::next_count(self.timing.stale_encoded_frames)
                    } else {
                        self.timing.stale_encoded_frames
                    },
                }
            } else {
                self.timing
            },
            ..self
        }.marked_ready();
        let late = backlog_after(backlog, age);
        if late >= ENCODER_BACKLOG_RESTART_FRAMES {
            (timed.restarted_for_backlog(), late, FrameAction::Restart)
        } else if !self.active || stale {
            (timed, late, FrameAction::Skip)
        } else {
            (
                timed,
                late,
                FrameAction::Deliver {
                    capture_time_unix_nanos: if frames.len() > 0 {
                        Some(frames[0].capture_time_unix_nanos)
                    } else {
                        None
                    },
                    encoder_delay_ms: if frames.len() > 0 {
                        Some((age->0 / 1_000_000) as u64)
                    } else {
                        None
                    },
                },
            )
        }
    }

    /// The pipeline once an access unit waits for every viewer.
    pub open spec fn written(self, sample: QueuedSampleView) -> Self {
        MediaPipelineView {
            subscribers: self.subscribers.map_values(
                |track: MediaTrackView| media::tracks::enqueued(track, sample),
            ),
            ..self
        }
    }

    pub open spec fn reconfigured(self, settings: CaptureSettingsView) -> MediaPipelineView {
        if self.capture_settings == Some(settings) {
            self
        } else {
            MediaPipelineView {
                capture_settings: Some(settings),
                capture_revision: media::timing::next_count(self.capture_revision),
                ..self
            }
        }
    }
}

impl MediaPipeline {
    pub fn with_codec(codec: &str) -> (r: Result<Self, UnsupportedCodec>)
        ensures
            match r {
                Ok(pipeline) => media::codec_of(codec@) == Some(pipeline.codec) && pipeline@ == (
                MediaPipelineView {
                    subscribers: Seq::empty(),
                    timing_ids: Seq::empty(),
                    timings: Seq::empty(),
                    stop: false,
                    active: false,
                    ended: false,
                    failure: None,
                    capture_settings: None,
                    capture_revision: 0,
                    timing: TimingView {
                        submitted_frames: Seq::empty(),
                        encoder_delay_ms: 0,
                        stale_encoded_frames: 0,
                    },
                    encoder_backlog_restarts: 0,
                    readiness: ReadinessView::Pending,
                    codec: pipeline.codec,
                }),
                Err(e) => media::codec_of(codec@) is None && e.name@ == text::ascii_lower(codec@),
            },
    {
        let codec = match VideoCodec::parse(codec) {
            Ok(codec) => codec,
            Err(error) => return Err(error),
        };
        let pipeline = MediaPipeline {
            subscribers: Vec::new(),
            frame_capture_times: Vec::new(),
            stop: false,
            active: false,
            ended: false,
            failure: None,
            capture_settings: None,
            capture_revision: 0,
            timing: EncoderTiming::new(),
            encoder_backlog_restarts: 0,
            readiness: EncoderReadiness::Pending,
            codec,
        };
        assert(pipeline@.subscribers =~= Seq::empty());
        assert(pipeline@.timing_ids =~= Seq::empty());
        assert(pipeline@.timings =~= Seq::empty());
        Ok(pipeline)
    }

    fn track_index(&self, connection_id: u128) -> (r: usize)
        ensures
            r == list::position(track_ids(self@.subscribers), connection_id),
            r <= self.subscribers@.len(),
    {
        let ghost ids = track_ids(self@.subscribers);
        let mut i: usize = 0;
        while i < self.subscribers.len()
            invariant
                i <= self.subscribers@.len(),
                ids == track_ids(self@.subscribers),
                forall|j: int| 0 <= j < i ==> ids[j] != connection_id,
            decreases self.subscribers@.len() - i,
        {
            if self.subscribers[i].connection_id == connection_id {
                proof {
                    list::lemma_position_found(ids, connection_id, i as int);
                }
                return i;
            }
            i += 1;
        }
        proof {
            list::lemma_position_missing(ids, connection_id);
        }
        i
    }

    fn timing_index(&self, connection_id: u128) -> (r: usize)
        ensures
            r == list::position(self@.timing_ids, connection_id),
            r <= self.frame_capture_times@.len(),
    {
        let ghost ids = self@.timing_ids;
        let mut i: usize = 0;
        while i < self.frame_capture_times.len()
            invariant
                i <= self.frame_capture_times@.len(),
                ids == self@.timing_ids,
                forall|j: int| 0 <= j < i ==> ids[j] != connection_id,
            decreases self.frame_capture_times@.len() - i,
        {
            if self.frame_capture_times[i].connection_id == connection_id {
                proof {
                    list::lemma_position_found(ids, connection_id, i as int);
                }
                return i;
            }
            i += 1;
        }
        proof {
            list::lemma_position_missing(ids, connection_id);
        }
        i
    }

    /// Gives a viewer a fresh track. An earlier track of the same connection is replaced.
    #[verifier::spinoff_prover]
    pub fn subscribe(&mut self, connection_id: u128, first_timestamp: u32)
        ensures
            ({
                let at = list::position(track_ids(old(self)@.subscribers), connection_id);
                let timing_at = list::position(old(self)@.timing_ids, connection_id);
                final(self)@ == (MediaPipelineView {
                    subscribers: list::put(
                        old(self)@.subscribers,
                        at,
                        MediaTrackView {
                            connection_id,
                            preserve_nal_order: old(self).codec == VideoCodec::H264,
                            samples: Seq::empty(),
                            closed: false,
                            next_rtp_timestamp: first_timestamp,
                        },
                    ),
                    timing_ids: list::put(old(self)@.timing_ids, timing_at, connection_id),
                    timings: list::put(old(self)@.timings, timing_at, Seq::empty()),
                    ..old(self)@
                })
            }),
    {
        let track = MediaTrack::new(connection_id, self.codec, first_timestamp);
        let at = self.track_index(connection_id);
        let timing_at = self.timing_index(connection_id);
        let ghost tracks = self.subscribers@;
        if at < self.subscribers.len() {
            self.subscribers.set(at, track);
            assert(self.subscribers@ == tracks.update(at as int, track));
        } else {
            self.subscribers.push(track);
            assert(self.subscribers@ == tracks.push(track));
        }
        assert(self@.subscribers =~= list::put(old(self)@.subscribers, at as int, track@));
        let timings = ViewerTimings { connection_id, entries: VecDeque::new() };
        let ghost stored = self.frame_capture_times@;
        if timing_at < self.frame_capture_times.len() {
            self.frame_capture_times.set(timing_at, timings);
            assert(self.frame_capture_times@ == stored.update(timing_at as int, timings));
        } else {
            self.frame_capture_times.push(timings);
            assert(self.frame_capture_times@ == stored.push(timings));
        }
        assert(self@.timing_ids =~= list::put(
            old(self)@.timing_ids,
            timing_at as int,
            connection_id,
        ));
        assert(self@.timings =~= list::put(old(self)@.timings, timing_at as int, Seq::empty()));
    }

    /// Drops the track and the timings of a viewer.
    pub fn unsubscribe(&mut self, connection_id: u128)
        ensures
            ({
                let at = list::position(track_ids(old(self)@.subscribers), connection_id);
                let timing_at = list::position(old(self)@.timing_ids, connection_id);
                final(self)@ == (MediaPipelineView {
                    subscribers: list::without(old(self)@.subscribers, at),
                    timing_ids: list::without(old(self)@.timing_ids, timing_at),
                    timings: list::without(old(self)@.timings, timing_at),
                    ..old(self)@
                })
            }),
    {
        let at = self.track_index(connection_id);
        let timing_at = self.timing_index(connection_id);
        if at < self.subscribers.len() {
            let _ = self.subscribers.remove(at);
        }
        assert(self@.subscribers =~= list::without(old(self)@.subscribers, at as int));
        if timing_at < self.frame_capture_times.len() {
            let _ = self.frame_capture_times.remove(timing_at);
        }
        assert(self@.timing_ids =~= list::without(old(self)@.timing_ids, timing_at as int));
        assert(self@.timings =~= list::without(old(self)@.timings, timing_at as int));
    }

    /// When the frame that a viewer received under an RTP timestamp was captured.
    pub fn frame_capture_timing(&self, connection_id: u128, rtp_timestamp: u32) -> (r: Option<
        FrameCaptureTiming,
    >)
        ensures
            ({
                let at = list::position(self@.timing_ids, connection_id);
                r == if at < self@.timings.len() {
                    media::tracks::timing_for(self@.timings[at], rtp_timestamp)
                } else {
                    None
                }
            }),
    {
        let at = self.timing_index(connection_id);
        if at < self.frame_capture_times.len() {
            find_timing(&self.frame_capture_times[at].entries, rtp_timestamp)
        } else {
            None
        }
    }

    /// Notes which captured frame is sent to a viewer under an RTP timestamp, where the viewer
    /// still has a place for it.
    pub fn record_frame_timing(&mut self, connection_id: u128, entry: FrameCaptureMapping)
        ensures
            ({
                let at = list::position(old(self)@.timing_ids, connection_id);
                final(self)@ == (MediaPipelineView {
                    timings: if at < old(self)@.timings.len() {
                        old(self)@.timings.update(
                            at,
                            media::tracks::retained_timings(old(self)@.timings[at], entry.recorded_at).push(
                                entry,
                            ),
                        )
                    } else {
                        old(self)@.timings
                    },
                    ..old(self)@
                })
            }),
    {
        let at = self.timing_index(connection_id);
        if at < self.frame_capture_times.len() {
            record_timing(&mut self.frame_capture_times[at].entries, entry);
        }
        assert(self@.timing_ids =~= old(self)@.timing_ids);
        assert(self@.timings =~= if at < old(self)@.timings.len() {
            old(self)@.timings.update(
                at as int,
                media::tracks::retained_timings(old(self)@.timings[at as int], entry.recorded_at).push(entry),
            )
        } else {
            old(self)@.timings
        });
    }

    /// Takes the next sample that a viewer is to be sent, and notes its capture time if it has
    /// one. `None` where nothing is queued or the viewer's track is closed or gone.
    pub fn next_sample(&mut self, connection_id: u128, now: u64) -> (r: Option<OutgoingSample>)
        ensures
            ({
                let at = list::position(track_ids(old(self)@.subscribers), connection_id);
                if at >= old(self)@.subscribers.len() || old(self)@.subscribers[at].closed
                    || old(self)@.subscribers[at].samples.len() == 0 {
                    r is None && final(self)@ == old(self)@
                } else {
                    let track = old(self)@.subscribers[at];
                    let sample = track.samples[0];
                    let timing_at = list::position(old(self)@.timing_ids, connection_id);
                    let noted = sample.capture_time_unix_nanos is Some
                        && sample.encoder_delay_ms is Some && timing_at
                        < old(self)@.timings.len();
                    &&& r matches Some(out)
                    &&& out.sample@ == sample
                    &&& out.rtp_timestamp == track.next_rtp_timestamp
                    &&& final(self)@ == (MediaPipelineView {
                        subscribers: old(self)@.subscribers.update(
                            at,
                            MediaTrackView {
                                samples: track.samples.drop_first(),
                                next_rtp_timestamp: media::tracks::advanced_timestamp(
                                    track.next_rtp_timestamp,
                                    media::tracks::rtp_step(sample.duration_nanos),
                                ),
                                ..track
                            },
                        ),
                        timings: if noted {
                            old(self)@.timings.update(
                                timing_at,
                                media::tracks::retained_timings(old(self)@.timings[timing_at], now).push(
                                    FrameCaptureMapping {
                                        rtp_timestamp: track.next_rtp_timestamp,
                                        capture_time_unix_nanos:
                                            sample.capture_time_unix_nanos->0,
                                        encoder_delay_ms: sample.encoder_delay_ms->0,
                                        recorded_at: now,
                                    },
                                ),
                            )
                        } else {
                            old(self)@.timings
                        },
                        ..old(self)@
                    })
                }
            }),
    {
        let at = self.track_index(connection_id);
        if at >= self.subscribers.len() {
            return None;
        }
        let ghost track = self.subscribers@[at as int]@;
        assert(track == old(self)@.subscribers[at as int]);
        let out = match self.subscribers[at].next_sample() {
            Some(out) => out,
            None => {
                assert(self@.subscribers =~= old(self)@.subscribers);
                return None;
            },
        };
        assert(self@.subscribers =~= old(self)@.subscribers.update(
            at as int,
            self.subscribers@[at as int]@,
        ));
        if let Some(capture_time) = out.sample.capture_time_unix_nanos {
            if let Some(encoder_delay_ms) = out.sample.encoder_delay_ms {
                self.record_frame_timing(
                    connection_id,
                    FrameCaptureMapping {
                        rtp_timestamp: out.rtp_timestamp,
                        capture_time_unix_nanos: capture_time,
                        encoder_delay_ms,
                        recorded_at: now,
                    },
                );
            }
        }
        Some(out)
    }

    /// Queues an access unit for every viewer.
    pub fn write_frame(
        &mut self,
        data: Vec<u8>,
        duration_nanos: u64,
        capture_time_unix_nanos: Option<u64>,
        encoder_delay_ms: Option<u64>,
    )
        ensures
            final(self)@ == old(self)@.written(
                QueuedSampleView {
                    data: data@,
                    duration_nanos,
                    capture_time_unix_nanos,
                    encoder_delay_ms,
                },
            ),
    {
        let ghost sample = QueuedSampleView {
            data: data@,
            duration_nanos,
            capture_time_unix_nanos,
            encoder_delay_ms,
        };
        let mut i: usize = 0;
        while i < self.subscribers.len()
            invariant
                i <= self.subscribers@.len(),
                sample == (QueuedSampleView {
                    data: data@,
                    duration_nanos,
                    capture_time_unix_nanos,
                    encoder_delay_ms,
                }),
                self@.subscribers.len() == old(self)@.subscribers.len(),
                self@ == (MediaPipelineView { subscribers: self@.subscribers, ..old(self)@ }),
                forall|j: int|
                    0 <= j < i ==> self@.subscribers[j] == media::tracks::enqueued(
                        #[trigger] old(self)@.subscribers[j],
                        sample,
                    ),
                forall|j: int|
                    i <= j < self.subscribers@.len() ==> self@.subscribers[j]
                        == #[trigger] old(self)@.subscribers[j],
            decreases self.subscribers@.len() - i,
        {
            let copy = copy_bytes(&data);
            let ghost before = self@.subscribers;
            self.subscribers[i].enqueue(
                QueuedSample {
                    data: copy,
                    duration_nanos,
                    capture_time_unix_nanos,
                    encoder_delay_ms,
                },
            );
            assert(before[i as int] == old(self)@.subscribers[i as int]);
            assert(self@.subscribers =~= before.update(i as int, media::tracks::enqueued(before[i as int], sample)));
            i += 1;
        }
        assert(self@.subscribers =~= old(self)@.subscribers.map_values(
            |track: MediaTrackView| media::tracks::enqueued(track, sample),
        ));
    }

    pub fn codec_name(&self) -> (r: &'static str)
        ensures
            r@ == self.codec.display_name(),
    {
        self.codec.name()
    }

    pub fn codec_id(&self) -> (r: &'static str)
        ensures
            r@ == self.codec.identifier(),
    {
        self.codec.id()
    }

    pub fn mime_type(&self) -> (r: &'static str)
        ensures
            r@ == match self.codec {
                VideoCodec::Vp8 => "video/VP8"@,
                VideoCodec::Vp9 => "video/VP9"@,
                VideoCodec::H264 => "video/H264"@,
            },
    {
        self.codec.mime_type()
    }

    pub fn sdp_fmtp_line(&self) -> (r: &'static str)
        ensures
            r@ == match self.codec {
                VideoCodec::Vp8 => ""@,
                VideoCodec::Vp9 => "profile-id=0"@,
                VideoCodec::H264 =>
                    "level-asymmetry-allowed=1;packetization-mode=1;profile-level-id=42e01f"@,
            },
    {
        self.codec.sdp_fmtp_line()
    }

    pub fn payload_type(&self) -> (r: u8)
        ensures
            r == match self.codec {
                VideoCodec::Vp8 => VP8_PAYLOAD_TYPE,
                VideoCodec::Vp9 => VP9_PAYLOAD_TYPE,
                VideoCodec::H264 => H264_PAYLOAD_TYPE,
            },
    {
        self.codec.payload_type()
    }

    /// Stops the encoder and closes every viewer's track.
    pub fn stop(&mut self)
        ensures
            final(self)@ == (MediaPipelineView {
                stop: true,
                subscribers: old(self)@.subscribers.map_values(
                    |track: MediaTrackView| media::tracks::closed_track(track),
                ),
                ..old(self)@
            }),
    {
        self.request_stop();
        let mut i: usize = 0;
        while i < self.subscribers.len()
            invariant
                i <= self.subscribers@.len(),
                self@.subscribers.len() == old(self)@.subscribers.len(),
                self@ == (MediaPipelineView {
                    stop: true,
                    subscribers: self@.subscribers,
                    ..old(self)@
                }),
                forall|j: int|
                    0 <= j < i ==> self@.subscribers[j] == media::tracks::closed_track(
                        #[trigger] old(self)@.subscribers[j],
                    ),
                forall|j: int|
                    i <= j < self.subscribers@.len() ==> self@.subscribers[j]
                        == #[trigger] old(self)@.subscribers[j],
            decreases self.subscribers@.len() - i,
        {
            let ghost before = self@.subscribers;
            self.subscribers[i].close();
            assert(before[i as int] == old(self)@.subscribers[i as int]);
            assert(self@.subscribers =~= before.update(i as int, media::tracks::closed_track(before[i as int])));
            i += 1;
        }
        assert(self@.subscribers =~= old(self)@.subscribers.map_values(
            |track: MediaTrackView| media::tracks::closed_track(track),
        ));
    }

    /// Tells the encoder to stop, and nothing else.
    pub fn request_stop(&mut self)
        ensures
            final(self)@ == (MediaPipelineView { stop: true, ..old(self)@ }),
    {
        self.stop = true;
    }

    pub fn activate(&mut self)
        ensures
            final(self)@ == (MediaPipelineView { active: true, ..old(self)@ }),
    {
        self.active = true;
    }

    /// Takes new settings over. Settings that differ start a new revision of the encoder.
    pub fn reconfigure(&mut self, settings: CaptureSettings)
        ensures
            final(self)@ == old(self)@.reconfigured(settings@),
    {
        if let Some(current) = &self.capture_settings {
            if current.same_as(&settings) {
                return;
            }
        }
        self.capture_settings = Some(settings);
        self.capture_revision = counted(self.capture_revision);
    }

    pub fn status(&self) -> (r: &'static str)
        ensures
            r@ == pipeline_status(self@),
    {
        if self.failure.is_some() {
            "error"
        } else if self.ended {
            "stopped"
        } else if self.active {
            "streaming"
        } else {
            "waiting"
        }
    }

    pub fn failure(&self) -> (r: Option<String>)
        ensures
            config::optional_text(r) == self@.failure,
    {
        clone_optional(&self.failure)
    }

    pub fn encoder_delay_ms(&self) -> (r: Option<u64>)
        ensures
            r == if self.timing.encoder_delay_ms > 0 {
                Some(self.timing.encoder_delay_ms)
            } else {
                None
            },
    {
        if self.timing.encoder_delay_ms > 0 {
            Some(self.timing.encoder_delay_ms)
        } else {
            None
        }
    }

    pub fn stale_encoded_frames(&self) -> (r: u64)
        ensures
            r == self.timing.stale_encoded_frames,
    {
        self.timing.stale_encoded_frames
    }

    pub fn encoder_backlog_restarts(&self) -> (r: u64)
        ensures
            r == self.encoder_backlog_restarts,
    {
        self.encoder_backlog_restarts
    }

    /// Whether the wait for the encoder's first frame is over.
    pub fn still_pending(&self) -> (r: bool)
        ensures
            r == (self.readiness@ is Pending),
    {
        match self.readiness {
            EncoderReadiness::Pending => true,
            EncoderReadiness::Ready => false,
            EncoderReadiness::Failed(_) => false,
        }
    }

    /// The outcome of a wait for the encoder's first frame.
    pub fn wait_until_ready(&self) -> (r: Result<(), ReadinessError>)
        ensures
            match self.readiness@ {
                ReadinessView::Ready => r is Ok,
                ReadinessView::Failed(error) => r matches Err(ReadinessError::Failed(e)) && e@
                    == error,
                ReadinessView::Pending => r == Err::<(), ReadinessError>(ReadinessError::Late),
            },
    {
        match &self.readiness {
            EncoderReadiness::Ready => Ok(()),
            EncoderReadiness::Failed(error) => Err(ReadinessError::Failed(error.clone())),
            EncoderReadiness::Pending => Err(ReadinessError::Late),
        }
    }

    /// Notes the encoder's first frame. What was decided before stands.
    pub fn mark_ready(&mut self)
        ensures
            final(self)@ == old(self)@.marked_ready(),
    {
        if self.still_pending() {
            self.readiness = EncoderReadiness::Ready;
        }
    }

    /// Notes that the encoder failed to start. What was decided before stands.
    pub fn mark_failed(&mut self, error: &str)
        ensures
            final(self)@ == old(self)@.marked_failed(error@),
    {
        if self.still_pending() {
            self.readiness = EncoderReadiness::Failed(error.to_owned());
        }
    }

    /// Notes how the encoder loop ended.
    pub fn record_result(&mut self, failure: Option<String>)
        ensures
            match failure {
                Some(error) => final(self)@ == (MediaPipelineView {
                    failure: Some(error@),
                    ended: true,
                    ..old(self)@.marked_failed(error@)
                }),
                None => final(self)@ == (MediaPipelineView { ended: true, ..old(self)@ }),
            },
    {
        if let Some(error) = failure {
            self.mark_failed(error.as_str());
            self.failure = Some(error);
        }
        self.ended = true;
    }

    /// Whether the threads of the encoder of `revision` go on.
    pub fn encoder_continues(&self, revision: u64) -> (r: bool)
        ensures
            r == (!self.stop && self.capture_revision == revision),
    {
        !self.stop && self.capture_revision == revision
    }

    /// Whether the watcher of an encoder process waits on. Revision zero is watched until a stop.
    pub fn watcher_waits(&self, revision: u64, done: bool) -> (r: bool)
        ensures
            r == (!self.stop && !done && (revision == 0 || self.capture_revision == revision)),
    {
        !self.stop && !done && (revision == 0 || self.capture_revision == revision)
    }

    /// Clears what was measured of an earlier encoder.
    pub fn begin_encoder(&mut self)
        ensures
            final(self)@ == (MediaPipelineView {
                timing: TimingView {
                    submitted_frames: Seq::empty(),
                    encoder_delay_ms: 0,
                    stale_encoded_frames: 0,
                },
                ..old(self)@
            }),
    {
        self.timing = EncoderTiming::new();
    }

    /// How the loop goes on once the encoder of `revision` has ended.
    pub fn after_encoder(&self, revision: u64) -> (r: EncoderLoop)
        ensures
            r == if self.stop {
                EncoderLoop::Stop
            } else if self.capture_revision != revision {
                EncoderLoop::Restart
            } else {
                EncoderLoop::Return
            },
    {
        if self.stop {
            EncoderLoop::Stop
        } else if self.capture_revision != revision {
            EncoderLoop::Restart
        } else {
            EncoderLoop::Return
        }
    }

    /// Counts late frames and tells whether the encoder has to be started anew.
    pub fn encoder_backlog_requires_restart(
        &mut self,
        timing: &EncodedFrameTiming,
        consecutive_backlog_frames: &mut u32,
    ) -> (r: bool)
        ensures
            *final(consecutive_backlog_frames) == backlog_after(
                *old(consecutive_backlog_frames),
                timing.age_nanos,
            ),
            r == (*final(consecutive_backlog_frames) >= ENCODER_BACKLOG_RESTART_FRAMES),
            final(self)@ == if r {
                old(self)@.restarted_for_backlog()
            } else {
                old(self)@
            },
    {
        let late = match timing.age_nanos {
            Some(age) => age >= ENCODER_BACKLOG_RESTART_AGE_NANOS,
            None => false,
        };
        if late {
            if *consecutive_backlog_frames < u32::MAX {
                *consecutive_backlog_frames = *consecutive_backlog_frames + 1;
            }
        } else {
            *consecutive_backlog_frames = 0;
        }
        if *consecutive_backlog_frames < ENCODER_BACKLOG_RESTART_FRAMES {
            return false;
        }
        self.encoder_backlog_restarts = counted(self.encoder_backlog_restarts);
        self.capture_revision = counted(self.capture_revision);
        true
    }

    /// Decides about a frame that came out of the encoder.
    pub fn on_encoded_frame(&mut self, now: u64, consecutive_backlog_frames: &mut u32) -> (r:
        FrameAction)
        ensures
            (final(self)@, *final(consecutive_backlog_frames), r) == old(self)@.frame_encoded(
                now,
                *old(consecutive_backlog_frames),
            ),
    {
        let timing = self.timing.encoded_frame_timing(now);
        self.mark_ready();
        if self.encoder_backlog_requires_restart(&timing, consecutive_backlog_frames) {
            return FrameAction::Restart;
        }
        if !self.active || timing.stale {
            return FrameAction::Skip;
        }
        FrameAction::Deliver {
            capture_time_unix_nanos: timing.capture_time_unix_nanos,
            encoder_delay_ms: timing.encoder_delay_ms,
        }
    }
}

impl ReadinessError {
    /// The message for a wait that lasted as long as `timeout` says.
    pub fn message(&self, timeout: &str) -> (r: String)
        ensures
            r@ == match self {
                ReadinessError::Failed(error) => "encoder startup failed: "@ + error@,
                ReadinessError::Late => "encoder did not produce its first frame within "@
                    + timeout@,
            },
    {
        match self {
            ReadinessError::Failed(error) => {
                let mut s = "encoder startup failed: ".to_owned();
                s.append(error.as_str());
                s
            },
            ReadinessError::Late => {
                let mut s = "encoder did not produce its first frame within ".to_owned();
                s.append(timeout);
                s
            },
        }
    }
}

/// What viewers are told of an encoder: a failure before all else, then an end, and only then whether
/// it is on.
pub proof fn lemma_pipeline_status(pipeline: MediaPipelineView)
    ensures
        pipeline.failure is Some ==> pipeline_status(pipeline) == "error"@,
        pipeline.failure is None && pipeline.ended ==> pipeline_status(pipeline) == "stopped"@,
        pipeline.failure is None && !pipeline.ended && pipeline.active ==> pipeline_status(pipeline)
            == "streaming"@,
        pipeline.failure is None && !pipeline.ended && !pipeline.active ==> pipeline_status(pipeline)
            == "waiting"@,
{
}

/// An encoder that has become ready stays so, and one that has failed does not become ready.
pub proof fn lemma_readiness_is_decided_once(pipeline: MediaPipelineView, error: Seq<char>)
    ensures
        pipeline.readiness is Pending ==> pipeline.marked_ready().readiness is Ready,
        pipeline.readiness is Pending ==> pipeline.marked_failed(error).readiness
            == ReadinessView::Failed(error),
        pipeline.marked_ready().marked_failed(error) == pipeline.marked_ready(),
        pipeline.marked_failed(error).marked_ready() == pipeline.marked_failed(error),
{
}

/// New settings have the encoder started anew; the same settings do not.
pub proof fn lemma_new_settings_restart(pipeline: MediaPipelineView, settings: CaptureSettingsView)
    ensures
        pipeline.reconfigured(settings).capture_settings == Some(settings),
        pipeline.capture_settings != Some(settings) ==> pipeline.reconfigured(
            settings,
        ).capture_revision != pipeline.capture_revision,
        pipeline.capture_settings == Some(settings) ==> pipeline.reconfigured(settings) == pipeline,
        pipeline.reconfigured(settings).reconfigured(settings) == pipeline.reconfigured(settings),
{
}

} // verus!

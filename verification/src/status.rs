//! What viewers and the host are told of the stream, and whether it still runs.

use vstd::prelude::*;
use vstd::string::*;

use crate::config;
use crate::config::{clone_optional, AppConfig, AppConfigView};
use crate::control::StreamState;
use crate::groups::{GroupsView, TranscodeGroups};
use crate::groups::report;
use crate::groups::report::{GroupSummary, SummaryView};
use crate::media;
use crate::media::{CaptureSettings, CaptureSettingsView, MediaPipeline};
use crate::profile;
use crate::profile::{audio_enabled, requested_groups};
use crate::sessions::{Sessions, SessionsView};
use crate::text;

verus! {

/// A capture that produces no frame for longer than this has failed.
pub const STREAM_STALL_TIMEOUT_NANOS: u64 = 5_000_000_000;

/// What is told of an encoder.
#[derive(Debug)]
pub struct MediaReport {
    pub status: &'static str,
    pub codec_name: &'static str,
    pub failure: Option<String>,
    pub encoder_delay_ms: Option<u64>,
    pub stale_encoded_frames: u64,
    pub encoder_backlog_restarts: u64,
}

#[verifier::ext_equal]
pub struct MediaReportView {
    pub status: Seq<char>,
    pub codec_name: Seq<char>,
    pub failure: Option<Seq<char>>,
    pub encoder_delay_ms: Option<u64>,
    pub stale_encoded_frames: u64,
    pub encoder_backlog_restarts: u64,
}

impl View for MediaReport {
    type V = MediaReportView;

    open spec fn view(&self) -> MediaReportView {
        MediaReportView {
            status: self.status@,
            codec_name: self.codec_name@,
            failure: config::optional_text(self.failure),
            encoder_delay_ms: self.encoder_delay_ms,
            stale_encoded_frames: self.stale_encoded_frames,
            encoder_backlog_restarts: self.encoder_backlog_restarts,
        }
    }
}

impl MediaReport {
    pub fn of(media: &MediaPipeline) -> (r: Self)
        ensures
            r@ == (MediaReportView {
                status: media::pipeline::pipeline_status(media@),
                codec_name: media@.codec.display_name(),
                failure: media@.failure,
                encoder_delay_ms: if media@.timing.encoder_delay_ms > 0 {
                    Some(media@.timing.encoder_delay_ms)
                } else {
                    None
                },
                stale_encoded_frames: media@.timing.stale_encoded_frames,
                encoder_backlog_restarts: media@.encoder_backlog_restarts,
            }),
    {
        MediaReport {
            status: media.status(),
            codec_name: media.codec_name(),
            failure: media.failure(),
            encoder_delay_ms: media.encoder_delay_ms(),
            stale_encoded_frames: media.stale_encoded_frames(),
            encoder_backlog_restarts: media.encoder_backlog_restarts(),
        }
    }
}

/// What is told of a capture.
#[derive(Debug)]
pub struct CaptureReport {
    pub failure: Option<String>,
    pub backend_name: &'static str,
}

/// What is told of the audio.
#[derive(Debug)]
pub struct AudioReport {
    pub status: &'static str,
    pub failure: Option<String>,
}

/// The state of the stream.
#[derive(Debug)]
pub struct StatusSnapshot {
    pub status: &'static str,
    pub stream_enabled: bool,
    pub stream_resetting: bool,
    pub media_session_revision: u64,
    pub viewers: usize,
    pub bind: String,
    pub http_port: u16,
    pub media_port: u16,
    pub media_candidate: Option<String>,
    pub codec: String,
    pub media_error: Option<String>,
    pub capture_error: Option<String>,
    pub encoder_delay_ms: Option<u64>,
    pub stale_encoded_frames: u64,
    pub encoder_backlog_restarts: u64,
    pub audio_status: Option<&'static str>,
    pub audio_error: Option<String>,
    pub audio_enabled: bool,
    pub quality: String,
    pub fps: String,
    pub bitrate_bps: u32,
    pub max_viewers: usize,
    pub active_group_count: usize,
    pub max_group_count: usize,
    pub groups: Vec<GroupSummary>,
    pub latency_mode: &'static str,
    pub sync_mode: &'static str,
    pub media_transport: &'static str,
    pub capture_backend: Option<&'static str>,
}

#[verifier::ext_equal]
pub struct StatusView {
    pub status: Seq<char>,
    pub stream_enabled: bool,
    pub stream_resetting: bool,
    pub media_session_revision: u64,
    pub viewers: nat,
    pub bind: Seq<char>,
    pub http_port: u16,
    pub media_port: u16,
    pub media_candidate: Option<Seq<char>>,
    pub codec: Seq<char>,
    pub media_error: Option<Seq<char>>,
    pub capture_error: Option<Seq<char>>,
    pub encoder_delay_ms: Option<u64>,
    pub stale_encoded_frames: u64,
    pub encoder_backlog_restarts: u64,
    pub audio_status: Option<Seq<char>>,
    pub audio_error: Option<Seq<char>>,
    pub audio_enabled: bool,
    pub quality: Seq<char>,
    pub fps: Seq<char>,
    pub bitrate_bps: u32,
    pub max_viewers: usize,
    pub active_group_count: nat,
    pub max_group_count: usize,
    pub groups: Seq<SummaryView>,
    pub latency_mode: Seq<char>,
    pub sync_mode: Seq<char>,
    pub media_transport: Seq<char>,
    pub capture_backend: Option<Seq<char>>,
}

pub open spec fn optional_str(s: Option<&'static str>) -> Option<Seq<char>> {
    match s {
        Some(s) => Some(s@),
        None => None,
    }
}

impl View for StatusSnapshot {
    type V = StatusView;

    open spec fn view(&self) -> StatusView {
        StatusView {
            status: self.status@,
            stream_enabled: self.stream_enabled,
            stream_resetting: self.stream_resetting,
            media_session_revision: self.media_session_revision,
            viewers: self.viewers as nat,
            bind: self.bind@,
            http_port: self.http_port,
            media_port: self.media_port,
            media_candidate: config::optional_text(self.media_candidate),
            codec: self.codec@,
            media_error: config::optional_text(self.media_error),
            capture_error: config::optional_text(self.capture_error),
            encoder_delay_ms: self.encoder_delay_ms,
            stale_encoded_frames: self.stale_encoded_frames,
            encoder_backlog_restarts: self.encoder_backlog_restarts,
            audio_status: optional_str(self.audio_status),
            audio_error: config::optional_text(self.audio_error),
            audio_enabled: self.audio_enabled,
            quality: self.quality@,
            fps: self.fps@,
            bitrate_bps: self.bitrate_bps,
            max_viewers: self.max_viewers,
            active_group_count: self.active_group_count as nat,
            max_group_count: self.max_group_count,
            groups: report::summary_views(self.groups@),
            latency_mode: self.latency_mode@,
            sync_mode: self.sync_mode@,
            media_transport: self.media_transport@,
            capture_backend: optional_str(self.capture_backend),
        }
    }
}

/// The word for the state of the stream: a restart outranks everything, then a stream that is off;
/// otherwise it is the state of the first offered encoder.
pub open spec fn stream_status(stream: StreamState, media: Option<MediaReportView>) -> Seq<char> {
    if stream.resetting {
        "resetting"@
    } else if !stream.enabled {
        "stopped"@
    } else {
        match media {
            Some(media) => media.status,
            None => "stopped"@,
        }
    }
}

pub open spec fn first_of(
    first: Option<Seq<char>>,
    second: Option<Seq<char>>,
) -> Option<Seq<char>> {
    match first {
        Some(text) => Some(text),
        None => second,
    }
}

/// A number with a unit behind it, or the word for an unlimited one.
pub open spec fn limit_text(limit: Option<u32>, unit: Seq<char>) -> Seq<char> {
    match limit {
        Some(limit) => text::decimal(limit as nat) + unit,
        None => "Source"@,
    }
}

fn limit_label(limit: Option<u32>, unit: &str) -> (r: String)
    ensures
        r@ == limit_text(limit, unit@),
{
    match limit {
        Some(limit) => {
            let mut s = text::decimal_string(limit as u64);
            s.append(unit);
            s
        },
        None => "Source".to_owned(),
    }
}

/// The state of the stream. `media` reports the encoder of the primary group.
pub open spec fn snapshot(
    config: AppConfigView,
    stream: StreamState,
    sessions: SessionsView,
    groups: GroupsView,
    settings: CaptureSettingsView,
    candidate: Option<Seq<char>>,
    media: Option<MediaReportView>,
    capture: Option<CaptureReport>,
    audio: AudioReport,
) -> StatusView {
    let capture_error = match capture {
        Some(capture) => config::optional_text(capture.failure),
        None => None,
    };
    let has_audio = profile::has_audio(settings);
    StatusView {
        status: stream_status(stream, media),
        stream_enabled: stream.enabled,
        stream_resetting: stream.resetting,
        media_session_revision: stream.media_session_revision,
        viewers: sessions.connected.len(),
        bind: config.bind,
        http_port: config.http_port,
        media_port: config.media_ports.first,
        media_candidate: candidate,
        codec: match media {
            Some(media) => media.codec_name,
            None => groups.group(0).codec,
        },
        media_error: first_of(
            capture_error,
            match media {
                Some(media) => media.failure,
                None => None,
            },
        ),
        capture_error,
        encoder_delay_ms: match media {
            Some(media) => media.encoder_delay_ms,
            None => None,
        },
        stale_encoded_frames: match media {
            Some(media) => media.stale_encoded_frames,
            None => 0,
        },
        encoder_backlog_restarts: match media {
            Some(media) => media.encoder_backlog_restarts,
            None => 0,
        },
        audio_status: if has_audio {
            Some(audio.status@)
        } else {
            None
        },
        audio_error: if has_audio {
            config::optional_text(audio.failure)
        } else {
            None
        },
        audio_enabled: has_audio,
        quality: limit_text(settings.output_height, "p"@),
        fps: limit_text(settings.output_fps, ""@),
        bitrate_bps: settings.bitrate,
        max_viewers: sessions.max_viewers,
        active_group_count: groups.active_ids().len(),
        max_group_count: profile::wanted_groups(settings),
        groups: groups.offered_summaries(),
        latency_mode: "latest-frame"@,
        sync_mode: "latest-frame"@,
        media_transport: "webrtc"@,
        capture_backend: match capture {
            Some(capture) => Some(capture.backend_name@),
            None => None,
        },
    }
}

pub open spec fn report_view(media: Option<MediaReport>) -> Option<MediaReportView> {
    match media {
        Some(media) => Some(media@),
        None => None,
    }
}

pub fn status_snapshot(
    config: &AppConfig,
    stream: StreamState,
    sessions: &Sessions,
    groups: &TranscodeGroups,
    settings: &CaptureSettings,
    candidate: Option<String>,
    media: &Option<MediaReport>,
    capture: &Option<CaptureReport>,
    audio: &AudioReport,
) -> (r: StatusSnapshot)
    requires
        groups@.wf(),
    ensures
        r@ == snapshot(
            config@,
            stream,
            sessions@,
            groups@,
            settings@,
            config::optional_text(candidate),
            report_view(*media),
            *capture,
            *audio,
        ),
{
    let (capture_error, capture_backend) = match capture {
        Some(capture) => (clone_optional(&capture.failure), Some(capture.backend_name)),
        None => (None, None),
    };
    let has_audio = audio_enabled(settings);
    let status = if stream.resetting {
        "resetting"
    } else if stream.enabled {
        match media {
            Some(media) => media.status,
            None => "stopped",
        }
    } else {
        "stopped"
    };
    let media_failure = match media {
        Some(media) => clone_optional(&media.failure),
        None => None,
    };
    let media_error = match clone_optional(&capture_error) {
        Some(error) => Some(error),
        None => media_failure,
    };
    let codec = match media {
        Some(media) => media.codec_name.to_owned(),
        None => groups.group_codec(0),
    };
    let (delay, stale, restarts) = match media {
        Some(media) => (
            media.encoder_delay_ms,
            media.stale_encoded_frames,
            media.encoder_backlog_restarts,
        ),
        None => (None, 0, 0),
    };
    StatusSnapshot {
        status,
        stream_enabled: stream.enabled,
        stream_resetting: stream.resetting,
        media_session_revision: stream.media_session_revision,
        viewers: sessions.viewer_count(),
        bind: config.bind.clone(),
        http_port: config.http_port,
        media_port: config.media_ports.first,
        media_candidate: candidate,
        codec,
        media_error,
        capture_error,
        encoder_delay_ms: delay,
        stale_encoded_frames: stale,
        encoder_backlog_restarts: restarts,
        audio_status: if has_audio {
            Some(audio.status)
        } else {
            None
        },
        audio_error: if has_audio {
            clone_optional(&audio.failure)
        } else {
            None
        },
        audio_enabled: has_audio,
        quality: limit_label(settings.output_height, "p"),
        fps: limit_label(settings.output_fps, ""),
        bitrate_bps: settings.bitrate,
        max_viewers: sessions.max_viewers,
        active_group_count: groups.count(),
        max_group_count: requested_groups(settings),
        groups: groups.summaries(),
        latency_mode: "latest-frame",
        sync_mode: "latest-frame",
        media_transport: "webrtc",
        capture_backend,
    }
}

/// The state of the stream as one viewer sees it.
#[derive(Debug)]
pub struct ClientStatus {
    pub status: StatusSnapshot,
    /// The rate of the viewer's group, in place of that of the stream.
    pub fps: u32,
    pub group: GroupSummary,
    pub settings_revision: u64,
}

/// Gives a viewer the state of the stream with the quality, the rate, the bitrate and the codec of
/// its group.
pub fn status_for_client(snapshot: StatusSnapshot, group: GroupSummary, revision: u64) -> (r:
    ClientStatus)
    ensures
        r.status@ == (StatusView {
            quality: group@.quality,
            bitrate_bps: group@.bitrate_bps,
            codec: group@.codec,
            ..snapshot@
        }),
        r.fps == group@.fps,
        r.group@ == group@,
        r.settings_revision == revision,
{
    let mut status = snapshot;
    status.quality = group.quality.clone();
    status.bitrate_bps = group.bitrate_bps;
    status.codec = group.codec.clone();
    ClientStatus { status, fps: group.fps, group, settings_revision: revision }
}

/// A group's assignment as a viewer is told of it.
#[derive(Debug)]
pub struct AssignmentPayload {
    pub group: GroupSummary,
    pub settings_revision: u64,
}

pub fn authoritative_assignment_payload(
    groups: &TranscodeGroups,
    sessions: &Sessions,
    group_id: usize,
    reason: &str,
    restart: bool,
) -> (r: AssignmentPayload)
    requires
        groups@.wf(),
        group_id < usize::MAX,
    ensures
        r.group@ == groups@.summary(group_id, reason@, restart),
        r.settings_revision == sessions@.settings_revision,
{
    AssignmentPayload {
        group: groups.summary_of(group_id, reason, restart),
        settings_revision: sessions.settings_revision,
    }
}

/// What is known of a capture's health.
#[derive(Debug)]
pub struct CaptureHealth {
    pub failure: Option<String>,
    pub last_frame_unix_nanos: Option<u64>,
}

/// What is known of an encoder's health.
#[derive(Debug)]
pub struct GroupHealth {
    pub group_id: usize,
    pub failure: Option<String>,
    pub stopped: bool,
}

pub open spec fn has_stalled(last_frame: Option<u64>, now: Option<u128>) -> bool {
    last_frame is Some && now is Some && now->0 - last_frame->0 > STREAM_STALL_TIMEOUT_NANOS
}

pub open spec fn capture_failure(capture: Option<CaptureHealth>, now: Option<u128>) -> Option<
    Seq<char>,
> {
    match capture {
        None => Some("shared capture is unavailable"@),
        Some(capture) => match config::optional_text(capture.failure) {
            Some(failure) => Some(failure),
            None => if has_stalled(capture.last_frame_unix_nanos, now) {
                Some("capture produced no frame for more than 5 seconds"@)
            } else {
                None
            },
        },
    }
}

pub open spec fn group_failure(group: GroupHealth) -> Option<Seq<char>> {
    match config::optional_text(group.failure) {
        Some(failure) => Some(failure),
        None => if group.stopped {
            Some(
                "encoder group "@ + text::decimal(group.group_id as nat)
                    + " stopped producing video"@,
            )
        } else {
            None
        },
    }
}

pub open spec fn first_group_failure(groups: Seq<GroupHealth>) -> Option<Seq<char>>
    decreases groups.len(),
{
    if groups.len() == 0 {
        None
    } else {
        match group_failure(groups[0]) {
            Some(failure) => Some(failure),
            None => first_group_failure(groups.drop_first()),
        }
    }
}

fn describe_group_failure(group: &GroupHealth) -> (r: Option<String>)
    ensures
        config::optional_text(r) == group_failure(*group),
{
    match &group.failure {
        Some(failure) => Some(failure.clone()),
        None => if group.stopped {
            Some(
                text::around_number(
                    "encoder group ",
                    group.group_id as u64,
                    " stopped producing video",
                ),
            )
        } else {
            None
        },
    }
}

fn describe_capture_failure(capture: &Option<CaptureHealth>, now: Option<u128>) -> (r: Option<String>)
    ensures
        config::optional_text(r) == capture_failure(*capture, now),
{
    match capture {
        None => Some("shared capture is unavailable".to_owned()),
        Some(capture) => {
            if let Some(failure) = &capture.failure {
                return Some(failure.clone());
            }
            let stalled = match (capture.last_frame_unix_nanos, now) {
                (Some(last), Some(now)) => now > last as u128 + STREAM_STALL_TIMEOUT_NANOS as u128,
                _ => false,
            };
            if stalled {
                Some("capture produced no frame for more than 5 seconds".to_owned())
            } else {
                None
            }
        },
    }
}

/// Why the stream has to be restarted, if it has: the capture's failure first, then that of the
/// offered groups in their order. `now` is the time since the epoch, where the clock tells it.
pub fn stream_failure(
    capture: &Option<CaptureHealth>,
    now: Option<u128>,
    groups: &Vec<GroupHealth>,
) -> (r: Option<String>)
    ensures
        config::optional_text(r) == first_of(
            capture_failure(*capture, now),
            first_group_failure(groups@),
        ),
{
    if let Some(failure) = describe_capture_failure(capture, now) {
        return Some(failure);
    }
    let mut i: usize = 0;
    assert(groups@.skip(0) =~= groups@);
    while i < groups.len()
        invariant
            i <= groups@.len(),
            capture_failure(*capture, now) is None,
            first_group_failure(groups@) == first_group_failure(groups@.skip(i as int)),
        decreases groups@.len() - i,
    {
        assert(groups@.skip(i as int)[0] == groups@[i as int]);
        if let Some(failure) = describe_group_failure(&groups[i]) {
            return Some(failure);
        }
        assert(groups@.skip(i as int).drop_first() =~= groups@.skip(i + 1));
        i += 1;
    }
    None
}

/// A stream that is being restarted says so, whatever its encoders do.
pub proof fn lemma_reset_has_its_own_status(stream: StreamState, media: Option<MediaReportView>)
    ensures
        stream.resetting ==> stream_status(stream, media) == "resetting"@,
        !stream.resetting && !stream.enabled ==> stream_status(stream, media) == "stopped"@,
{
}

/// What viewers are told of the stream: a reset before all else, then that it is off; only a stream
/// that is on shows the state of its encoder.
pub proof fn lemma_told_status(stream: StreamState, media: Option<MediaReportView>)
    ensures
        stream.resetting ==> stream_status(stream, media) == "resetting"@,
        !stream.resetting && !stream.enabled ==> stream_status(stream, media) == "stopped"@,
        !stream.resetting && stream.enabled && media is Some ==> stream_status(stream, media)
            == media->0.status,
        !stream.resetting && media is None ==> stream_status(stream, media) == "stopped"@,
{
}

/// A capture fails when it is gone, when it says so, or when its last frame is more than five seconds
/// old; and otherwise not.
pub proof fn lemma_failing_captures(capture: Option<CaptureHealth>, now: Option<u128>)
    ensures
        capture is None ==> capture_failure(capture, now) is Some,
        capture matches Some(health) ==> {
            &&& health.failure is Some ==> capture_failure(capture, now) == Some(
                health.failure->0@,
            )
            &&& health.failure is None ==> (capture_failure(capture, now) is Some
                <==> health.last_frame_unix_nanos is Some && now is Some && now->0
                > health.last_frame_unix_nanos->0 + 5_000_000_000)
        },
{
}

/// The first group that fails is the one that is told.
pub proof fn lemma_first_failing_group_is_told(groups: Seq<GroupHealth>, k: int)
    requires
        0 <= k < groups.len(),
        forall|j: int|
            0 <= j < k ==> (#[trigger] groups[j]).failure is None && !groups[j].stopped,
    ensures
        groups[k].failure is Some ==> first_group_failure(groups) == Some(groups[k].failure->0@),
        groups[k].failure is None && groups[k].stopped ==> first_group_failure(groups) is Some,
        k == groups.len() - 1 && groups[k].failure is None && !groups[k].stopped
            ==> first_group_failure(groups) is None,
    decreases groups.len(),
{
    if k > 0 {
        let rest = groups.drop_first();
        assert forall|j: int| 0 <= j < k - 1 implies (#[trigger] rest[j]).failure is None
            && !rest[j].stopped by {
            assert(rest[j] == groups[j + 1]);
        }
        assert(groups[0].failure is None && !groups[0].stopped);
        lemma_first_failing_group_is_told(rest, k - 1);
        assert(rest[k - 1] == groups[k]);
    } else if groups.len() == 1 {
        assert(groups.drop_first().len() == 0);
        reveal_with_fuel(first_group_failure, 2);
        assert(group_failure(groups[0]) == group_failure(groups[k]));
    }
}

} // verus!

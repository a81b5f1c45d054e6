//! The audio of a stream: which input is opened, how its losses are told, and the packets that wait
//! for each viewer.

use std::collections::VecDeque;
use std::sync::Arc;

use rtc::peer_connection::configuration::media_engine::MIME_TYPE_OPUS;
use vstd::prelude::*;
use vstd::string::*;

use crate::capture;
use crate::capture::{CaptureSourceInfo, SourceInfoView};
use crate::config;
use crate::config::clone_optional;
use crate::control;
use crate::control::following_revision;
use crate::list;
use crate::media;
use crate::media::{same_texts, CaptureSettings, CaptureSettingsView, VideoCodec};
use crate::text;

verus! {

pub const OPUS_PAYLOAD_TYPE: u8 = 111;

pub const OPUS_FRAME_SAMPLES: usize = 960;

/// The samples of a frame in both channels.
pub const STEREO_SAMPLES_PER_FRAME: usize = 1920;

pub const AUDIO_QUEUE_CAPACITY: usize = 10;

pub const AUDIO_FRAME_NANOS: u64 = 20_000_000;

pub const RETRY_INITIAL_DELAY_NANOS: u64 = 250_000_000;

pub const RETRY_MAX_DELAY_NANOS: u64 = 5_000_000_000;

/// The format parameters of the audio track.
pub fn opus_fmtp_line() -> (r: &'static str)
    ensures
        r@ == "minptime=10;stereo=1;sprop-stereo=1;maxaveragebitrate=256000"@,
{
    "minptime=10;stereo=1;sprop-stereo=1;maxaveragebitrate=256000"
}

/// Reads the constant `MIME_TYPE_OPUS` of the `rtc` crate, which is `audio/opus`.
#[verifier::external_body]
fn opus_mime_type() -> (r: &'static str)
    ensures
        r@ == "audio/opus"@,
{
    MIME_TYPE_OPUS
}

/// A codec as it is negotiated with a viewer.
#[derive(Clone, Copy, Debug)]
pub struct CodecParameters {
    pub mime_type: &'static str,
    pub clock_rate: u32,
    pub channels: u16,
    pub sdp_fmtp_line: &'static str,
    pub payload_type: u8,
}

/// The audio codec that a host offers in a negotiation.
pub fn negotiated_audio_codec() -> (r: CodecParameters)
    ensures
        r.mime_type@ == "audio/opus"@,
        r.clock_rate == 48_000,
        r.channels == 2,
        r.sdp_fmtp_line@ == "minptime=10;useinbandfec=1"@,
        r.payload_type == OPUS_PAYLOAD_TYPE,
{
    CodecParameters {
        mime_type: opus_mime_type(),
        clock_rate: 48_000,
        channels: 2,
        sdp_fmtp_line: "minptime=10;useinbandfec=1",
        payload_type: OPUS_PAYLOAD_TYPE,
    }
}

/// The codec of a viewer's audio track.
pub fn audio_track_codec() -> (r: CodecParameters)
    ensures
        r.mime_type@ == "audio/opus"@,
        r.clock_rate == 48_000,
        r.channels == 2,
        r.sdp_fmtp_line@ == "minptime=10;stereo=1;sprop-stereo=1;maxaveragebitrate=256000"@,
        r.payload_type == OPUS_PAYLOAD_TYPE,
{
    CodecParameters {
        mime_type: opus_mime_type(),
        clock_rate: 48_000,
        channels: 2,
        sdp_fmtp_line: opus_fmtp_line(),
        payload_type: OPUS_PAYLOAD_TYPE,
    }
}

/// The video codec that a host offers in a negotiation.
pub fn negotiated_video_codec(codec: VideoCodec) -> (r: CodecParameters)
    ensures
        r.mime_type@ == codec.mime(),
        r.clock_rate == 90_000,
        r.channels == 0,
        r.sdp_fmtp_line@ == codec.format_parameters(),
        r.payload_type == codec.payload(),
{
    CodecParameters {
        mime_type: codec.mime_type(),
        clock_rate: 90_000,
        channels: 0,
        sdp_fmtp_line: codec.sdp_fmtp_line(),
        payload_type: codec.payload_type(),
    }
}

/// How audio is encoded.
#[derive(Clone, Copy, Debug, PartialEq, Eq, Structural)]
pub struct OpusProfile {
    pub sample_rate: i32,
    pub channels: usize,
    pub bitrate_bps: i32,
    pub complexity: i32,
    pub use_cbr: bool,
}

/// Audio is a small part of a stream and always encoded in high quality, in stereo and with a
/// variable bitrate.
pub fn high_quality_opus_profile() -> (r: OpusProfile)
    ensures
        r == (OpusProfile {
            sample_rate: 48_000,
            channels: 2,
            bitrate_bps: 256_000,
            complexity: 10,
            use_cbr: false,
        }),
{
    OpusProfile {
        sample_rate: 48_000,
        channels: 2,
        bitrate_bps: 256_000,
        complexity: 10,
        use_cbr: false,
    }
}

/// A packet and the number of packets that were lost before it.
#[derive(Debug)]
pub struct AudioSample {
    pub data: Arc<Vec<u8>>,
    pub duration_nanos: u64,
    pub prev_dropped_packets: u16,
}

impl Clone for AudioSample {
    fn clone(&self) -> (r: Self)
        ensures
            r == *self,
    {
        AudioSample {
            data: self.data.clone(),
            duration_nanos: self.duration_nanos,
            prev_dropped_packets: self.prev_dropped_packets,
        }
    }
}

pub open spec fn capped_sum(a: u16, b: u16) -> u16 {
    if a + b > u16::MAX {
        u16::MAX
    } else {
        (a + b) as u16
    }
}

pub open spec fn gapped(sample: AudioSample, skipped: u16) -> AudioSample {
    AudioSample {
        prev_dropped_packets: capped_sum(sample.prev_dropped_packets, skipped),
        ..sample
    }
}

/// A queue with one more packet. A full one loses its oldest, which the next packet then counts
/// among those that were lost before it.
pub open spec fn queued(samples: Seq<AudioSample>, sample: AudioSample) -> Seq<AudioSample> {
    if samples.len() >= AUDIO_QUEUE_CAPACITY {
        let rest = samples.drop_first();
        let skipped = capped_sum(samples[0].prev_dropped_packets, 1);
        if rest.len() > 0 {
            rest.update(0, gapped(rest[0], skipped)).push(sample)
        } else {
            rest.push(gapped(sample, skipped))
        }
    } else {
        samples.push(sample)
    }
}

pub fn enqueue_bounded_audio_sample(samples: &mut VecDeque<AudioSample>, sample: AudioSample)
    ensures
        final(samples)@ == queued(old(samples)@, sample),
{
    let mut sample = sample;
    if samples.len() >= AUDIO_QUEUE_CAPACITY {
        if let Some(dropped) = samples.pop_front() {
            let skipped: u16 = dropped.prev_dropped_packets.saturating_add(1);
            match samples.pop_front() {
                Some(next) => {
                    let mut next = next;
                    next.prev_dropped_packets = next.prev_dropped_packets.saturating_add(skipped);
                    samples.push_front(next);
                    assert(samples@ =~= old(samples)@.drop_first().update(0, next));
                },
                None => {
                    sample.prev_dropped_packets = sample.prev_dropped_packets.saturating_add(
                        skipped,
                    );
                },
            }
        }
    }
    samples.push_back(sample);
}

/// The packets of a queue together with those that it says were lost.
pub open spec fn accounted(samples: Seq<AudioSample>) -> nat
    decreases samples.len(),
{
    if samples.len() == 0 {
        0
    } else {
        accounted(samples.drop_first()) + samples[0].prev_dropped_packets as nat + 1
    }
}

proof fn lemma_accounted_push(samples: Seq<AudioSample>, sample: AudioSample)
    ensures
        accounted(samples.push(sample)) == accounted(samples) + sample.prev_dropped_packets + 1,
    decreases samples.len(),
{
    let more = samples.push(sample);
    if samples.len() == 0 {
        assert(more.drop_first() =~= Seq::empty());
        assert(accounted(more.drop_first()) == 0);
    } else {
        assert(more.drop_first() =~= samples.drop_first().push(sample));
        lemma_accounted_push(samples.drop_first(), sample);
    }
}

/// A full queue drops a packet but not the knowledge of it: what a viewer receives and what it is
/// told was lost add up to everything that was queued, as long as the counts fit.
pub proof fn lemma_dropped_audio_is_accounted_for(samples: Seq<AudioSample>, sample: AudioSample)
    requires
        samples.len() >= AUDIO_QUEUE_CAPACITY ==> samples[0].prev_dropped_packets
            + samples[1].prev_dropped_packets + 1 <= u16::MAX,
    ensures
        accounted(queued(samples, sample)) == accounted(samples) + sample.prev_dropped_packets + 1,
        samples.len() <= AUDIO_QUEUE_CAPACITY ==> queued(samples, sample).len()
            <= AUDIO_QUEUE_CAPACITY,
{
    if samples.len() >= AUDIO_QUEUE_CAPACITY {
        let rest = samples.drop_first();
        let skipped = capped_sum(samples[0].prev_dropped_packets, 1);
        let marked = rest.update(0, gapped(rest[0], skipped));
        assert(marked.drop_first() =~= rest.drop_first());
        assert(accounted(rest) == accounted(rest.drop_first()) + rest[0].prev_dropped_packets + 1);
        assert(accounted(marked) == accounted(rest.drop_first()) + marked[0].prev_dropped_packets
            + 1);
        lemma_accounted_push(marked, sample);
    } else {
        lemma_accounted_push(samples, sample);
    }
}

/// The packets that wait for one viewer.
#[derive(Debug)]
pub struct AudioTrack {
    pub connection_id: u128,
    pub ssrc: u32,
    pub samples: VecDeque<AudioSample>,
    pub closed: bool,
}

#[verifier::ext_equal]
pub struct AudioTrackView {
    pub connection_id: u128,
    pub ssrc: u32,
    pub samples: Seq<AudioSample>,
    pub closed: bool,
}

impl View for AudioTrack {
    type V = AudioTrackView;

    open spec fn view(&self) -> AudioTrackView {
        AudioTrackView {
            connection_id: self.connection_id,
            ssrc: self.ssrc,
            samples: self.samples@,
            closed: self.closed,
        }
    }
}

pub open spec fn track_with(track: AudioTrackView, sample: AudioSample) -> AudioTrackView {
    if track.closed {
        track
    } else {
        AudioTrackView { samples: queued(track.samples, sample), ..track }
    }
}

pub open spec fn closed_track(track: AudioTrackView) -> AudioTrackView {
    AudioTrackView { samples: Seq::empty(), closed: true, ..track }
}

impl AudioTrack {
    pub fn enqueue(&mut self, sample: AudioSample)
        ensures
            final(self)@ == track_with(old(self)@, sample),
    {
        if self.closed {
            return;
        }
        enqueue_bounded_audio_sample(&mut self.samples, sample);
    }

    pub fn close(&mut self)
        ensures
            final(self)@ == closed_track(old(self)@),
    {
        self.closed = true;
        self.samples = VecDeque::new();
        assert(self@.samples =~= Seq::empty());
    }
}

/// The audio of a stream and its viewers.
#[derive(Debug)]
pub struct AudioPipeline {
    pub subscribers: Vec<AudioTrack>,
    pub stop: bool,
    pub active: bool,
    pub ended: bool,
    pub failure: Option<String>,
    pub settings: Option<CaptureSettings>,
    /// Changes with everything that makes the input open anew.
    pub revision: u64,
}

#[verifier::ext_equal]
pub struct AudioView {
    pub subscribers: Seq<AudioTrackView>,
    pub stop: bool,
    pub active: bool,
    pub ended: bool,
    pub failure: Option<Seq<char>>,
    pub settings: Option<CaptureSettingsView>,
    pub revision: u64,
}

pub open spec fn track_views(tracks: Seq<AudioTrack>) -> Seq<AudioTrackView> {
    tracks.map_values(|t: AudioTrack| t@)
}

pub open spec fn track_ids(tracks: Seq<AudioTrackView>) -> Seq<u128> {
    tracks.map_values(|t: AudioTrackView| t.connection_id)
}

impl View for AudioPipeline {
    type V = AudioView;

    open spec fn view(&self) -> AudioView {
        AudioView {
            subscribers: track_views(self.subscribers@),
            stop: self.stop,
            active: self.active,
            ended: self.ended,
            failure: config::optional_text(self.failure),
            settings: media::pipeline::optional_settings(self.settings),
            revision: self.revision,
        }
    }
}

/// Whether other settings need another audio input. A window is told by its native number, or by
/// its place where it has none.
pub open spec fn input_changes(previous: CaptureSettingsView, next: CaptureSettingsView) -> bool {
    ||| previous.audio_mode != next.audio_mode
    ||| previous.excluded_audio_processes != next.excluded_audio_processes
    ||| next.audio_mode == "window"@ && (previous.source_kind != next.source_kind || match (
        previous.source_native_id,
        next.source_native_id,
    ) {
        (Some(a), Some(b)) => a != b,
        (None, None) => previous.source_index != next.source_index,
        _ => true,
    })
}

pub fn audio_input_changed(previous: &CaptureSettings, next: &CaptureSettings) -> (r: bool)
    ensures
        r == input_changes(previous@, next@),
{
    if !text::text_eq(previous.audio_mode.as_str(), next.audio_mode.as_str()) {
        return true;
    }
    if !same_texts(&previous.excluded_audio_processes, &next.excluded_audio_processes) {
        return true;
    }
    if !text::text_eq(next.audio_mode.as_str(), "window") {
        return false;
    }
    let other_window = match (previous.source_native_id, next.source_native_id) {
        (Some(a), Some(b)) => a != b,
        (None, None) => previous.source_index != next.source_index,
        _ => true,
    };
    other_window || !text::text_eq(previous.source_kind.as_str(), next.source_kind.as_str())
}

impl AudioView {
    pub open spec fn revised(self) -> AudioView {
        AudioView { revision: control::next_revision(self.revision), ..self }
    }

    pub open spec fn reconfigured(self, settings: CaptureSettingsView) -> AudioView {
        let taken = AudioView { settings: Some(settings), ..self };
        if self.settings is None || input_changes(self.settings->0, settings) {
            AudioView { failure: None, ended: false, ..taken }.revised()
        } else {
            taken
        }
    }

    pub open spec fn activated(self) -> AudioView {
        if self.active {
            self
        } else {
            AudioView { active: true, ..self }.revised()
        }
    }

    pub open spec fn deactivated(self) -> AudioView {
        if self.active {
            AudioView { active: false, ..self }.revised()
        } else {
            self
        }
    }

    pub open spec fn status_text(self) -> Seq<char> {
        if self.failure is Some {
            "error"@
        } else if self.ended {
            "stopped"@
        } else if self.active {
            "streaming"@
        } else {
            "waiting"@
        }
    }
}

impl AudioPipeline {
    pub fn new() -> (r: Self)
        ensures
            r@ == (AudioView {
                subscribers: Seq::empty(),
                stop: false,
                active: false,
                ended: false,
                failure: None,
                settings: None,
                revision: 0,
            }),
    {
        let audio = AudioPipeline {
            subscribers: Vec::new(),
            stop: false,
            active: false,
            ended: false,
            failure: None,
            settings: None,
            revision: 0,
        };
        assert(audio@.subscribers =~= Seq::empty());
        audio
    }

    fn track_index(&self, connection_id: u128) -> (r: usize)
        ensures
            r == list::position(track_ids(self@.subscribers), connection_id),
            r <= self.subscribers@.len(),
    {
        let ghost ids = track_ids(self@.subscribers);
        let mut i: usize = 0;
        while i < self.subscribers.len()
            invariant
                i <= self.subscribers@.len(),
                ids == track_ids(self@.subscribers),
                forall|j: int| 0 <= j < i ==> ids[j] != connection_id,
            decreases self.subscribers@.len() - i,
        {
            if self.subscribers[i].connection_id == connection_id {
                proof {
                    list::lemma_position_found(ids, connection_id, i as int);
                }
                return i;
            }
            i += 1;
        }
        proof {
            list::lemma_position_missing(ids, connection_id);
        }
        i
    }

    /// Gives a viewer a fresh track. An earlier one of the same connection is replaced.
    pub fn subscribe(&mut self, connection_id: u128, ssrc: u32)
        ensures
            final(self)@ == (AudioView {
                subscribers: list::put(
                    old(self)@.subscribers,
                    list::position(track_ids(old(self)@.subscribers), connection_id),
                    AudioTrackView { connection_id, ssrc, samples: Seq::empty(), closed: false },
                ),
                ..old(self)@
            }),
    {
        let track = AudioTrack {
            connection_id,
            ssrc,
            samples: VecDeque::new(),
            closed: false,
        };
        assert(track@.samples =~= Seq::empty());
        let at = self.track_index(connection_id);
        if at < self.subscribers.len() {
            self.subscribers.set(at, track);
        } else {
            self.subscribers.push(track);
        }
        assert(self@.subscribers =~= list::put(old(self)@.subscribers, at as int, track@));
    }

    pub fn unsubscribe(&mut self, connection_id: u128)
        ensures
            final(self)@ == (AudioView {
                subscribers: list::without(
                    old(self)@.subscribers,
                    list::position(track_ids(old(self)@.subscribers), connection_id),
                ),
                ..old(self)@
            }),
    {
        let at = self.track_index(connection_id);
        if at < self.subscribers.len() {
            let _ = self.subscribers.remove(at);
        }
        assert(self@.subscribers =~= list::without(old(self)@.subscribers, at as int));
    }

    /// The next packet of a viewer.
    pub fn next_sample(&mut self, connection_id: u128) -> (r: Option<AudioSample>)
        ensures
            ({
                let at = list::position(track_ids(old(self)@.subscribers), connection_id);
                let track = old(self)@.subscribers[at];
                if at < old(self)@.subscribers.len() && !track.closed && track.samples.len() > 0 {
                    &&& r == Some(track.samples[0])
                    &&& final(self)@ == (AudioView {
                        subscribers: old(self)@.subscribers.update(
                            at,
                            AudioTrackView { samples: track.samples.drop_first(), ..track },
                        ),
                        ..old(self)@
                    })
                } else {
                    r is None && final(self)@ == old(self)@
                }
            }),
    {
        let at = self.track_index(connection_id);
        if at >= self.subscribers.len() {
            return None;
        }
        assert(self@.subscribers[at as int] == self.subscribers@[at as int]@);
        if self.subscribers[at].closed || self.subscribers[at].samples.len() == 0 {
            return None;
        }
        let ghost before = self@.subscribers;
        let sample = self.subscribers[at].samples.pop_front();
        assert(self@.subscribers =~= before.update(
            at as int,
            AudioTrackView {
                samples: before[at as int].samples.drop_first(),
                ..before[at as int]
            },
        ));
        sample
    }

    /// Takes other settings. The input is opened anew only if they need another.
    pub fn reconfigure(&mut self, settings: CaptureSettings)
        ensures
            final(self)@ == old(self)@.reconfigured(settings@),
    {
        let changed = match &self.settings {
            Some(previous) => audio_input_changed(previous, &settings),
            None => true,
        };
        self.settings = Some(settings);
        if changed {
            self.failure = None;
            self.ended = false;
            self.revision = following_revision(self.revision);
        }
    }

    /// Ends the audio for good.
    pub fn stop(&mut self)
        ensures
            final(self)@ == (AudioView {
                stop: true,
                subscribers: old(self)@.subscribers.map_values(
                    |track: AudioTrackView| closed_track(track),
                ),
                ..old(self)@
            }),
    {
        self.stop = true;
        let mut i: usize = 0;
        while i < self.subscribers.len()
            invariant
                i <= self.subscribers@.len(),
                self@.subscribers.len() == old(self)@.subscribers.len(),
                self@ == (AudioView {
                    subscribers: self@.subscribers,
                    stop: true,
                    ..old(self)@
                }),
                forall|j: int|
                    0 <= j < i ==> self@.subscribers[j] == closed_track(
                        #[trigger] old(self)@.subscribers[j],
                    ),
                forall|j: int|
                    i <= j < self.subscribers@.len() ==> self@.subscribers[j]
                        == #[trigger] old(self)@.subscribers[j],
            decreases self.subscribers@.len() - i,
        {
            let ghost before = self@.subscribers;
            self.subscribers[i].close();
            assert(before[i as int] == old(self)@.subscribers[i as int]);
            assert(self@.subscribers =~= before.update(i as int, closed_track(before[i as int])));
            i += 1;
        }
        assert(self@.subscribers =~= old(self)@.subscribers.map_values(
            |track: AudioTrackView| closed_track(track),
        ));
    }

    pub fn activate(&mut self)
        ensures
            final(self)@ == old(self)@.activated(),
    {
        if !self.active {
            self.active = true;
            self.revision = following_revision(self.revision);
        }
    }

    /// Closes the input until the audio is active again.
    pub fn deactivate(&mut self)
        ensures
            final(self)@ == old(self)@.deactivated(),
    {
        if self.active {
            self.active = false;
            self.revision = following_revision(self.revision);
        }
    }

    pub fn status(&self) -> (r: &'static str)
        ensures
            r@ == self@.status_text(),
    {
        if self.failure.is_some() {
            "error"
        } else if self.ended {
            "stopped"
        } else if self.active {
            "streaming"
        } else {
            "waiting"
        }
    }

    pub fn failure(&self) -> (r: Option<String>)
        ensures
            config::optional_text(r) == self@.failure,
    {
        clone_optional(&self.failure)
    }

    pub fn record_failure(&mut self, error: Option<String>)
        ensures
            final(self)@ == (AudioView {
                failure: config::optional_text(error),
                ..old(self)@
            }),
    {
        self.failure = error;
    }

    /// The worker has ended, with an error or without.
    pub fn finish(&mut self, error: Option<String>)
        ensures
            final(self)@ == (AudioView {
                failure: match config::optional_text(error) {
                    Some(error) => Some(error),
                    None => old(self)@.failure,
                },
                ended: true,
                ..old(self)@
            }),
    {
        if let Some(error) = error {
            self.failure = Some(error);
        }
        self.ended = true;
    }

    /// Queues a packet for every viewer.
    pub fn broadcast(&mut self, data: Arc<Vec<u8>>, prev_dropped_packets: u16)
        ensures
            final(self)@ == (AudioView {
                subscribers: old(self)@.subscribers.map_values(
                    |track: AudioTrackView|
                        track_with(
                            track,
                            AudioSample {
                                data,
                                duration_nanos: AUDIO_FRAME_NANOS,
                                prev_dropped_packets,
                            },
                        ),
                ),
                ..old(self)@
            }),
    {
        let sample = AudioSample { data, duration_nanos: AUDIO_FRAME_NANOS, prev_dropped_packets };
        let mut i: usize = 0;
        while i < self.subscribers.len()
            invariant
                i <= self.subscribers@.len(),
                self@.subscribers.len() == old(self)@.subscribers.len(),
                self@ == (AudioView { subscribers: self@.subscribers, ..old(self)@ }),
                forall|j: int|
                    0 <= j < i ==> self@.subscribers[j] == track_with(
                        #[trigger] old(self)@.subscribers[j],
                        sample,
                    ),
                forall|j: int|
                    i <= j < self.subscribers@.len() ==> self@.subscribers[j]
                        == #[trigger] old(self)@.subscribers[j],
            decreases self.subscribers@.len() - i,
        {
            let ghost before = self@.subscribers;
            self.subscribers[i].enqueue(sample.clone());
            assert(before[i as int] == old(self)@.subscribers[i as int]);
            assert(self@.subscribers =~= before.update(
                i as int,
                track_with(before[i as int], sample),
            ));
            i += 1;
        }
        assert(self@.subscribers =~= old(self)@.subscribers.map_values(
            |track: AudioTrackView| track_with(track, sample),
        ));
    }

    /// Whether the wait before another attempt is over.
    pub fn retry_is_due(&self, revision: u64, waited: bool) -> (r: bool)
        ensures
            r == (self@.stop || !self@.active || self@.revision != revision || waited),
    {
        self.stop || !self.active || self.revision != revision || waited
    }

    /// Whether an open input is still the right one.
    pub fn keeps_input(&self, revision: u64) -> (r: bool)
        ensures
            r == (!self@.stop && self@.revision == revision),
    {
        !self.stop && self.revision == revision
    }
}

/// Turning audio off and on again always gives it another revision, so that the input is closed and
/// opened anew; turning it off twice changes nothing more.
pub proof fn lemma_activity_moves_the_revision(v: AudioView)
    ensures
        v.active ==> v.deactivated().revision != v.revision,
        !v.active ==> v.activated().revision != v.revision,
        v.deactivated().deactivated() == v.deactivated(),
        v.activated().activated() == v.activated(),
{
}

/// The time before another attempt to open the input.
pub open spec fn delay_of(attempt: u32) -> u64 {
    if attempt == 0 {
        250_000_000
    } else if attempt == 1 {
        500_000_000
    } else if attempt == 2 {
        1_000_000_000
    } else if attempt == 3 {
        2_000_000_000
    } else if attempt == 4 {
        4_000_000_000
    } else {
        RETRY_MAX_DELAY_NANOS
    }
}

/// The time doubles from attempt to attempt up to a limit.
pub fn retry_delay(attempt: u32) -> (r: u64)
    ensures
        r == delay_of(attempt),
        r <= RETRY_MAX_DELAY_NANOS,
{
    let mut delay = RETRY_INITIAL_DELAY_NANOS;
    let mut i: u32 = 0;
    while i < attempt && i < 5
        invariant
            i <= attempt,
            i <= 5,
            delay == if i == 0 {
                250_000_000int
            } else if i == 1 {
                500_000_000
            } else if i == 2 {
                1_000_000_000
            } else if i == 3 {
                2_000_000_000
            } else if i == 4 {
                4_000_000_000
            } else {
                8_000_000_000
            },
        decreases 5 - i,
    {
        delay = delay * 2;
        i += 1;
    }
    if delay > RETRY_MAX_DELAY_NANOS {
        RETRY_MAX_DELAY_NANOS
    } else {
        delay
    }
}

/// What the worker that opens the input does next.
#[derive(Debug)]
pub enum WorkerStep {
    Exit,
    /// Nothing to open; look again shortly.
    Idle,
    /// Open the input for settings, under a revision.
    Open { settings: CaptureSettings, revision: u64 },
}

/// The worker's attempts to open an input, and the losses of the open one.
#[derive(Clone, Copy, Debug, PartialEq, Eq, Structural)]
pub struct AudioWorker {
    pub retry_attempt: u32,
    pub retry_revision: Option<u64>,
    pub previous_capture_drops: u32,
    pub pending_dropped_packets: u32,
}

/// What becomes of a chunk of audio.
#[derive(Clone, Copy, Debug, PartialEq, Eq, Structural)]
pub enum ChunkAction {
    /// Nobody listens.
    Ignore,
    /// It has not the size of a frame.
    Discard,
    /// Encode it; so many packets were lost before it.
    Encode { gap: u16 },
}

pub open spec fn drops_since(previous: u32, current: u32) -> u32 {
    if current >= previous {
        (current - previous) as u32
    } else {
        current
    }
}

/// The losses since the last chunk, from a count that only grows unless the input is reset.
pub fn cumulative_drop_delta(previous: &mut u32, current: u32) -> (r: u32)
    ensures
        r == drops_since(*old(previous), current),
        *final(previous) == current,
{
    let delta: u32 = if current >= *previous {
        current - *previous
    } else {
        current
    };
    *previous = current;
    delta
}

pub open spec fn capped_count(a: u32, b: u32) -> u32 {
    if a + b > u32::MAX {
        u32::MAX
    } else {
        (a + b) as u32
    }
}

impl AudioWorker {
    pub fn new() -> (r: Self)
        ensures
            r == (AudioWorker {
                retry_attempt: 0,
                retry_revision: None,
                previous_capture_drops: 0,
                pending_dropped_packets: 0,
            }),
    {
        AudioWorker {
            retry_attempt: 0,
            retry_revision: None,
            previous_capture_drops: 0,
            pending_dropped_packets: 0,
        }
    }

    /// What to do next. Attempts are counted anew under another revision.
    pub fn step(&mut self, audio: &AudioPipeline) -> (r: WorkerStep)
        ensures
            if audio@.stop {
                r is Exit && *final(self) == *old(self)
            } else if !audio@.active {
                r is Idle && *final(self) == *old(self)
            } else {
                &&& *final(self) == (AudioWorker {
                    retry_attempt: if old(self).retry_revision == Some(audio@.revision) {
                        old(self).retry_attempt
                    } else {
                        0
                    },
                    retry_revision: Some(audio@.revision),
                    ..*old(self)
                })
                &&& match audio@.settings {
                    Some(settings) => if settings.audio_mode == "off"@ {
                        r is Idle
                    } else {
                        r is Open && r->Open_settings@ == settings && r->Open_revision
                            == audio@.revision
                    },
                    None => r is Idle,
                }
            },
    {
        if audio.stop {
            return WorkerStep::Exit;
        }
        if !audio.active {
            return WorkerStep::Idle;
        }
        let same = match self.retry_revision {
            Some(revision) => revision == audio.revision,
            None => false,
        };
        if !same {
            self.retry_attempt = 0;
        }
        self.retry_revision = Some(audio.revision);
        match &audio.settings {
            Some(settings) => {
                if text::text_eq(settings.audio_mode.as_str(), "off") {
                    WorkerStep::Idle
                } else {
                    WorkerStep::Open { settings: settings.clone(), revision: audio.revision }
                }
            },
            None => WorkerStep::Idle,
        }
    }

    /// The input could not be opened; the time until the next attempt is returned.
    pub fn open_failed(&mut self, audio: &mut AudioPipeline, error: String) -> (r: u64)
        ensures
            final(audio)@ == (AudioView { failure: Some(error@), ..old(audio)@ }),
            r == delay_of(old(self).retry_attempt),
            *final(self) == (AudioWorker {
                retry_attempt: if old(self).retry_attempt == u32::MAX {
                    u32::MAX
                } else {
                    (old(self).retry_attempt + 1) as u32
                },
                ..*old(self)
            }),
    {
        audio.record_failure(Some(error));
        let delay = retry_delay(self.retry_attempt);
        self.retry_attempt = self.retry_attempt.saturating_add(1);
        delay
    }

    /// The input is open.
    pub fn opened(&mut self, audio: &mut AudioPipeline)
        ensures
            final(audio)@ == (AudioView { failure: None, ..old(audio)@ }),
            *final(self) == (AudioWorker {
                retry_attempt: 0,
                previous_capture_drops: 0,
                pending_dropped_packets: 0,
                ..*old(self)
            }),
    {
        self.retry_attempt = 0;
        self.previous_capture_drops = 0;
        self.pending_dropped_packets = 0;
        audio.record_failure(None);
    }

    /// What becomes of a chunk, and what the worker knows of losses after it.
    pub open spec fn after_chunk(self, active: bool, dropped_before: u32, frames: usize, samples: usize) -> (
        AudioWorker,
        ChunkAction,
    ) {
        let counted = AudioWorker { previous_capture_drops: dropped_before, ..self };
        let lost = capped_count(
            self.pending_dropped_packets,
            drops_since(self.previous_capture_drops, dropped_before),
        );
        if !active {
            (AudioWorker { pending_dropped_packets: 0, ..counted }, ChunkAction::Ignore)
        } else if frames != OPUS_FRAME_SAMPLES || samples != STEREO_SAMPLES_PER_FRAME {
            (
                AudioWorker { pending_dropped_packets: capped_count(lost, 1), ..counted },
                ChunkAction::Discard,
            )
        } else {
            (
                AudioWorker { pending_dropped_packets: 0, ..counted },
                ChunkAction::Encode {
                    gap: if lost > u16::MAX {
                        u16::MAX
                    } else {
                        lost as u16
                    },
                },
            )
        }
    }

    pub fn on_chunk(&mut self, active: bool, dropped_before: u32, frames: usize, samples: usize) -> (r:
        ChunkAction)
        ensures
            (*final(self), r) == old(self).after_chunk(active, dropped_before, frames, samples),
    {
        let newly_dropped = cumulative_drop_delta(&mut self.previous_capture_drops, dropped_before);
        if !active {
            self.pending_dropped_packets = 0;
            return ChunkAction::Ignore;
        }
        self.pending_dropped_packets = self.pending_dropped_packets.saturating_add(newly_dropped);
        if frames != OPUS_FRAME_SAMPLES || samples != STEREO_SAMPLES_PER_FRAME {
            self.pending_dropped_packets = self.pending_dropped_packets.saturating_add(1);
            return ChunkAction::Discard;
        }
        let gap: u16 = if self.pending_dropped_packets > u16::MAX as u32 {
            u16::MAX
        } else {
            self.pending_dropped_packets as u16
        };
        self.pending_dropped_packets = 0;
        ChunkAction::Encode { gap }
    }
}

/// Why no input can be opened.
#[derive(Debug)]
pub enum AudioError {
    NotEnabled,
    NoProcess,
    MultipleTrees,
    /// Several trees of the processes that were named.
    RequestedTrees(String),
    NotDiscoverable,
}

pub enum AudioErrorView {
    NotEnabled,
    NoProcess,
    MultipleTrees,
    RequestedTrees(Seq<char>),
    NotDiscoverable,
}

impl View for AudioError {
    type V = AudioErrorView;

    open spec fn view(&self) -> AudioErrorView {
        match self {
            AudioError::NotEnabled => AudioErrorView::NotEnabled,
            AudioError::NoProcess => AudioErrorView::NoProcess,
            AudioError::MultipleTrees => AudioErrorView::MultipleTrees,
            AudioError::RequestedTrees(names) => AudioErrorView::RequestedTrees(names@),
            AudioError::NotDiscoverable => AudioErrorView::NotDiscoverable,
        }
    }
}

impl AudioErrorView {
    pub open spec fn text(self) -> Seq<char> {
        match self {
            AudioErrorView::NotEnabled => "audio capture was not enabled"@,
            AudioErrorView::NoProcess =>
                "selected window has no process id for audio capture"@,
            AudioErrorView::MultipleTrees =>
                "cannot enforce audio exclusion for multiple independent process trees with the current audio backend"@,
            AudioErrorView::RequestedTrees(names) => "requested exclusions: "@ + names,
            AudioErrorView::NotDiscoverable =>
                "cannot enforce audio exclusion: none of the requested processes are currently discoverable"@,
        }
    }
}

impl AudioError {
    pub fn message(&self) -> (r: String)
        ensures
            r@ == self@.text(),
    {
        match self {
            AudioError::NotEnabled => "audio capture was not enabled".to_owned(),
            AudioError::NoProcess =>
                "selected window has no process id for audio capture".to_owned(),
            AudioError::MultipleTrees =>
                "cannot enforce audio exclusion for multiple independent process trees with the current audio backend".to_owned(),
            AudioError::RequestedTrees(names) => text::joined(
                "requested exclusions: ",
                names.as_str(),
            ),
            AudioError::NotDiscoverable =>
                "cannot enforce audio exclusion: none of the requested processes are currently discoverable".to_owned(),
        }
    }
}

/// The one process among some, if there is no other.
pub open spec fn only_process(pids: Seq<u32>) -> Result<Option<u32>, AudioErrorView> {
    if pids.len() == 0 {
        Ok(None)
    } else if forall|i: int| 0 <= i < pids.len() ==> #[trigger] pids[i] == pids[0] {
        Ok(Some(pids[0]))
    } else {
        Err(AudioErrorView::MultipleTrees)
    }
}

pub open spec fn pid_view(r: Result<Option<u32>, AudioError>) -> Result<Option<u32>, AudioErrorView> {
    match r {
        Ok(pid) => Ok(pid),
        Err(e) => Err(e@),
    }
}

/// The process that is to be left out, if it is one.
pub fn resolve_excluded_pid(excluded_pids: &Vec<u32>) -> (r: Result<Option<u32>, AudioError>)
    ensures
        pid_view(r) == only_process(excluded_pids@),
{
    if excluded_pids.len() == 0 {
        return Ok(None);
    }
    let first = excluded_pids[0];
    let mut i: usize = 1;
    while i < excluded_pids.len()
        invariant
            1 <= i <= excluded_pids@.len(),
            first == excluded_pids@[0],
            forall|j: int| 0 <= j < i ==> #[trigger] excluded_pids@[j] == first,
        decreases excluded_pids@.len() - i,
    {
        if excluded_pids[i] != first {
            return Err(AudioError::MultipleTrees);
        }
        i += 1;
    }
    Ok(Some(first))
}

/// A process as the platform lists it.
#[derive(Debug)]
pub struct RunningProcess {
    pub pid: u32,
    pub parent_pid: u32,
    pub name: String,
}

/// A process's name without white space around it, in small letters and without `.exe`.
pub open spec fn plain_name(name: Seq<char>) -> Seq<char> {
    let lower = text::ascii_lower(text::trim_seq(name));
    if text::ends_with_seq(lower, ".exe"@) {
        lower.take(lower.len() - ".exe"@.len())
    } else {
        lower
    }
}

pub fn normalize_process_name(name: &str) -> (r: String)
    ensures
        r@ == plain_name(name@),
{
    let lower = text::to_ascii_lowercase(text::trim(name));
    if text::ends_with(lower.as_str(), ".exe") {
        let keep: usize = lower.as_str().unicode_len() - ".exe".unicode_len();
        let stem = lower.as_str().substring_char(0, keep);
        assert(stem@ =~= lower@.take(keep as int));
        stem.to_owned()
    } else {
        lower
    }
}

/// Whether a process has one of the requested names, or a name that holds one.
pub open spec fn is_requested(names: Seq<Seq<char>>, name: Seq<char>) -> bool {
    exists|i: int|
        #![trigger names[i]]
        0 <= i < names.len() && plain_name(names[i]).len() > 0 && text::contains_seq(
            plain_name(name),
            plain_name(names[i]),
        )
}

fn name_is_requested(names: &Vec<String>, name: &str) -> (r: bool)
    ensures
        r == is_requested(config::texts(names@), name@),
{
    let actual = normalize_process_name(name);
    let ghost views = config::texts(names@);
    let mut i: usize = 0;
    while i < names.len()
        invariant
            i <= names@.len(),
            views == config::texts(names@),
            actual@ == plain_name(name@),
            forall|j: int|
                #![trigger views[j]]
                0 <= j < i ==> !(plain_name(views[j]).len() > 0 && text::contains_seq(
                    plain_name(name@),
                    plain_name(views[j]),
                )),
        decreases names@.len() - i,
    {
        assert(views[i as int] == names@[i as int]@);
        let requested = normalize_process_name(names[i].as_str());
        if !requested.as_str().is_empty() && text::contains_text(
            actual.as_str(),
            requested.as_str(),
        ) {
            return true;
        }
        i += 1;
    }
    false
}

/// Whether some requested process has a number.
pub open spec fn is_requested_pid(names: Seq<Seq<char>>, processes: Seq<RunningProcess>, pid: u32) -> bool {
    exists|i: int|
        0 <= i < processes.len() && (#[trigger] processes[i]).pid == pid && is_requested(
            names,
            processes[i].name@,
        )
}

fn pid_is_requested(names: &Vec<String>, processes: &Vec<RunningProcess>, pid: u32) -> (r: bool)
    ensures
        r == is_requested_pid(config::texts(names@), processes@, pid),
{
    let mut i: usize = 0;
    while i < processes.len()
        invariant
            i <= processes@.len(),
            forall|j: int|
                0 <= j < i ==> !((#[trigger] processes@[j]).pid == pid && is_requested(
                    config::texts(names@),
                    processes@[j].name@,
                )),
        decreases processes@.len() - i,
    {
        if processes[i].pid == pid && name_is_requested(names, processes[i].name.as_str()) {
            return true;
        }
        i += 1;
    }
    false
}

/// The requested processes below `n` that no requested process has started.
pub open spec fn tree_roots(names: Seq<Seq<char>>, processes: Seq<RunningProcess>, n: int) -> Seq<u32>
    decreases n,
{
    if n <= 0 {
        Seq::empty()
    } else {
        let rest = tree_roots(names, processes, n - 1);
        let process = processes[n - 1];
        if is_requested(names, process.name@) && !is_requested_pid(
            names,
            processes,
            process.parent_pid,
        ) {
            rest.push(process.pid)
        } else {
            rest
        }
    }
}

/// The root of the tree of requested processes, if there is one tree.
pub fn resolve_process_tree_root(requested_names: &Vec<String>, processes: &Vec<RunningProcess>) -> (r:
    Result<Option<u32>, AudioError>)
    ensures
        pid_view(r) == only_process(
            tree_roots(config::texts(requested_names@), processes@, processes@.len() as int),
        ),
{
    let ghost names = config::texts(requested_names@);
    let mut roots: Vec<u32> = Vec::new();
    let mut i: usize = 0;
    while i < processes.len()
        invariant
            i <= processes@.len(),
            names == config::texts(requested_names@),
            roots@ == tree_roots(names, processes@, i as int),
        decreases processes@.len() - i,
    {
        if name_is_requested(requested_names, processes[i].name.as_str()) && !pid_is_requested(
            requested_names,
            processes,
            processes[i].parent_pid,
        ) {
            roots.push(processes[i].pid);
        }
        i += 1;
    }
    resolve_excluded_pid(&roots)
}

/// Whether a window's name holds one of the names that are left out, in any case of their letters.
pub open spec fn names_excluded(name: Seq<char>, excluded: Seq<Seq<char>>) -> bool {
    exists|i: int|
        0 <= i < excluded.len() && text::contains_seq(
            text::ascii_lower(name),
            text::ascii_lower(#[trigger] excluded[i]),
        )
}

fn window_is_excluded(name: &str, excluded: &Vec<String>) -> (r: bool)
    ensures
        r == names_excluded(name@, config::texts(excluded@)),
{
    let lower = text::to_ascii_lowercase(name);
    let ghost views = config::texts(excluded@);
    let mut i: usize = 0;
    while i < excluded.len()
        invariant
            i <= excluded@.len(),
            views == config::texts(excluded@),
            lower@ == text::ascii_lower(name@),
            forall|j: int|
                0 <= j < i ==> !text::contains_seq(
                    text::ascii_lower(name@),
                    text::ascii_lower(#[trigger] views[j]),
                ),
        decreases excluded@.len() - i,
    {
        assert(views[i as int] == excluded@[i as int]@);
        let wanted = text::to_ascii_lowercase(excluded[i].as_str());
        if text::contains_text(lower.as_str(), wanted.as_str()) {
            return true;
        }
        i += 1;
    }
    false
}

/// The processes of the first `n` windows whose names are left out.
pub open spec fn excluded_windows(windows: Seq<SourceInfoView>, n: int, excluded: Seq<Seq<char>>) -> Seq<u32>
    decreases n,
{
    if n <= 0 {
        Seq::empty()
    } else {
        let rest = excluded_windows(windows, n - 1, excluded);
        match windows[n - 1].pid {
            Some(pid) => if names_excluded(windows[n - 1].name, excluded) {
                rest.push(pid)
            } else {
                rest
            },
            None => rest,
        }
    }
}

fn excluded_window_pids(windows: &Vec<CaptureSourceInfo>, excluded: &Vec<String>) -> (r: Vec<u32>)
    ensures
        r@ == excluded_windows(
            capture::source_views(windows@),
            windows@.len() as int,
            config::texts(excluded@),
        ),
{
    let ghost views = capture::source_views(windows@);
    let mut pids: Vec<u32> = Vec::new();
    let mut i: usize = 0;
    while i < windows.len()
        invariant
            i <= windows@.len(),
            views == capture::source_views(windows@),
            pids@ == excluded_windows(views, i as int, config::texts(excluded@)),
        decreases windows@.len() - i,
    {
        assert(views[i as int] == windows@[i as int]@);
        if let Some(pid) = windows[i].pid {
            if window_is_excluded(windows[i].name.as_str(), excluded) {
                pids.push(pid);
            }
        }
        i += 1;
    }
    pids
}

/// The input that is to be opened.
#[derive(Clone, Copy, Debug, PartialEq, Eq, Structural)]
pub enum AudioInput {
    /// What one process plays.
    Process(u32),
    /// Everything that is played.
    System,
    /// Everything but what one process plays.
    SystemWithout(u32),
}

/// The process of the captured window. `native_pid` is the platform's answer for the window's native
/// number.
pub open spec fn window_pid(
    settings: CaptureSettingsView,
    native_pid: Option<u32>,
    sources: Seq<SourceInfoView>,
) -> Option<u32> {
    if settings.source_native_id is Some {
        native_pid
    } else {
        match list::first_in(
            0,
            sources.len() as int,
            |i: int| sources[i].kind == "window"@ && sources[i].index == settings.source_index,
        ) {
            Some(i) => sources[i].pid,
            None => None,
        }
    }
}

pub fn selected_window_pid(
    settings: &CaptureSettings,
    native_pid: Option<u32>,
    sources: &Vec<CaptureSourceInfo>,
) -> (r: Result<u32, AudioError>)
    ensures
        match r {
            Ok(pid) => window_pid(settings@, native_pid, capture::source_views(sources@)) == Some(
                pid,
            ),
            Err(e) => window_pid(settings@, native_pid, capture::source_views(sources@)) is None
                && e@ == AudioErrorView::NoProcess,
        },
{
    let found = if settings.source_native_id.is_some() {
        native_pid
    } else {
        listed_window_pid(settings.source_index, sources)
    };
    match found {
        Some(pid) => Ok(pid),
        None => Err(AudioError::NoProcess),
    }
}

fn listed_window_pid(index: usize, sources: &Vec<CaptureSourceInfo>) -> (r: Option<u32>)
    ensures
        ({
            let views = capture::source_views(sources@);
            r == match list::first_in(
                0,
                views.len() as int,
                |i: int| views[i].kind == "window"@ && views[i].index == index,
            ) {
                Some(i) => views[i].pid,
                None => None,
            }
        }),
{
    let ghost views = capture::source_views(sources@);
    let ghost p = |i: int| views[i].kind == "window"@ && views[i].index == index;
    let mut i: usize = 0;
    while i < sources.len()
        invariant
            i <= sources@.len(),
            views == capture::source_views(sources@),
            p == (|i: int| views[i].kind == "window"@ && views[i].index == index),
            forall|j: int| 0 <= j < i ==> !#[trigger] p(j),
        decreases sources@.len() - i,
    {
        assert(views[i as int] == sources@[i as int]@);
        if sources[i].index == index && text::text_eq(sources[i].kind.as_str(), "window") {
            assert(p(i as int));
            proof {
                list::lemma_first_found(0, views.len() as int, p, i as int);
            }
            return sources[i].pid;
        }
        assert(!p(i as int));
        i += 1;
    }
    proof {
        list::lemma_first_missing(0, views.len() as int, p);
    }
    None
}

/// Which input the settings ask for. What is to be left out is never played in its stead: without
/// exactly one process to leave out, nothing is opened. `processes` are the running ones, on a
/// platform that lists them; they go before the windows.
pub open spec fn wanted_input(
    settings: CaptureSettingsView,
    native_pid: Option<u32>,
    windows: Seq<SourceInfoView>,
    processes: Option<Seq<RunningProcess>>,
) -> Result<AudioInput, AudioErrorView> {
    let excluded = settings.excluded_audio_processes;
    let by_window = only_process(excluded_windows(windows, windows.len() as int, excluded));
    let found = match processes {
        Some(processes) => match only_process(
            tree_roots(excluded, processes, processes.len() as int),
        ) {
            Ok(Some(pid)) => Ok(Some(pid)),
            Ok(None) => by_window,
            Err(_) => Err(
                AudioErrorView::RequestedTrees(text::joined_with(excluded, ", "@)),
            ),
        },
        None => by_window,
    };
    if settings.audio_mode == "window"@ {
        match window_pid(settings, native_pid, windows) {
            Some(pid) => Ok(AudioInput::Process(pid)),
            None => Err(AudioErrorView::NoProcess),
        }
    } else if settings.audio_mode != "system"@ {
        Err(AudioErrorView::NotEnabled)
    } else if excluded.len() == 0 {
        Ok(AudioInput::System)
    } else {
        match found {
            Err(e) => Err(e),
            Ok(Some(pid)) => Ok(AudioInput::SystemWithout(pid)),
            Ok(None) => Err(AudioErrorView::NotDiscoverable),
        }
    }
}

pub open spec fn input_view(r: Result<AudioInput, AudioError>) -> Result<AudioInput, AudioErrorView> {
    match r {
        Ok(input) => Ok(input),
        Err(e) => Err(e@),
    }
}

pub open spec fn process_list(processes: Option<&Vec<RunningProcess>>) -> Option<Seq<RunningProcess>> {
    match processes {
        Some(processes) => Some(processes@),
        None => None,
    }
}

fn find_excluded(
    settings: &CaptureSettings,
    windows: &Vec<CaptureSourceInfo>,
    processes: Option<&Vec<RunningProcess>>,
) -> (r: Result<Option<u32>, AudioError>)
    ensures
        ({
            let excluded = settings@.excluded_audio_processes;
            let views = capture::source_views(windows@);
            let by_window = only_process(excluded_windows(views, views.len() as int, excluded));
            pid_view(r) == match process_list(processes) {
                Some(processes) => match only_process(
                    tree_roots(excluded, processes, processes.len() as int),
                ) {
                    Ok(Some(pid)) => Ok(Some(pid)),
                    Ok(None) => by_window,
                    Err(_) => Err(
                        AudioErrorView::RequestedTrees(text::joined_with(excluded, ", "@)),
                    ),
                },
                None => by_window,
            }
        }),
{
    if let Some(processes) = processes {
        match resolve_process_tree_root(&settings.excluded_audio_processes, processes) {
            Ok(Some(pid)) => {
                return Ok(Some(pid));
            },
            Ok(None) => {},
            Err(_) => {
                return Err(
                    AudioError::RequestedTrees(
                        text::join(&settings.excluded_audio_processes, ", "),
                    ),
                );
            },
        }
    }
    resolve_excluded_pid(&excluded_window_pids(windows, &settings.excluded_audio_processes))
}

/// What has to be listed before an input can be chosen.
#[derive(Clone, Copy, Debug, PartialEq, Eq, Structural)]
pub enum NeededLists {
    Nothing,
    /// The sources, among which the captured window is found.
    Sources,
    /// The windows, and the running processes where the platform lists them.
    WindowsAndProcesses,
}

pub open spec fn lists_needed(settings: CaptureSettingsView) -> NeededLists {
    if settings.audio_mode == "window"@ {
        if settings.source_native_id is Some {
            NeededLists::Nothing
        } else {
            NeededLists::Sources
        }
    } else if settings.audio_mode == "system"@ && settings.excluded_audio_processes.len() > 0 {
        NeededLists::WindowsAndProcesses
    } else {
        NeededLists::Nothing
    }
}

/// What the program lists for the settings.
pub fn needed_lists(settings: &CaptureSettings) -> (r: NeededLists)
    ensures
        r == lists_needed(settings@),
{
    if text::text_eq(settings.audio_mode.as_str(), "window") {
        if settings.source_native_id.is_some() {
            NeededLists::Nothing
        } else {
            NeededLists::Sources
        }
    } else if text::text_eq(settings.audio_mode.as_str(), "system")
        && settings.excluded_audio_processes.len() > 0 {
        NeededLists::WindowsAndProcesses
    } else {
        NeededLists::Nothing
    }
}

/// What is not needed does not decide: the same input is chosen whatever such a list holds.
pub proof fn lemma_other_lists_do_not_decide(
    settings: CaptureSettingsView,
    native_pid: Option<u32>,
    windows: Seq<SourceInfoView>,
    other_windows: Seq<SourceInfoView>,
    processes: Option<Seq<RunningProcess>>,
    other_processes: Option<Seq<RunningProcess>>,
)
    requires
        lists_needed(settings) != NeededLists::WindowsAndProcesses,
        lists_needed(settings) == NeededLists::Sources ==> windows == other_windows,
    ensures
        wanted_input(settings, native_pid, windows, processes) == wanted_input(
            settings,
            native_pid,
            other_windows,
            other_processes,
        ),
{
}

/// Which input is to be opened.
pub fn open_stream(
    settings: &CaptureSettings,
    native_pid: Option<u32>,
    windows: &Vec<CaptureSourceInfo>,
    processes: Option<&Vec<RunningProcess>>,
) -> (r: Result<AudioInput, AudioError>)
    ensures
        input_view(r) == wanted_input(
            settings@,
            native_pid,
            capture::source_views(windows@),
            process_list(processes),
        ),
{
    if text::text_eq(settings.audio_mode.as_str(), "window") {
        return match selected_window_pid(settings, native_pid, windows) {
            Ok(pid) => Ok(AudioInput::Process(pid)),
            Err(e) => Err(e),
        };
    }
    if !text::text_eq(settings.audio_mode.as_str(), "system") {
        return Err(AudioError::NotEnabled);
    }
    if settings.excluded_audio_processes.len() == 0 {
        return Ok(AudioInput::System);
    }
    match find_excluded(settings, windows, processes) {
        Ok(Some(pid)) => Ok(AudioInput::SystemWithout(pid)),
        Ok(None) => Err(AudioError::NotDiscoverable),
        Err(e) => Err(e),
    }
}

/// Where processes are to be left out, everything is never played.
pub proof fn lemma_exclusion_fails_closed(
    settings: CaptureSettingsView,
    native_pid: Option<u32>,
    windows: Seq<SourceInfoView>,
    processes: Option<Seq<RunningProcess>>,
)
    requires
        settings.excluded_audio_processes.len() > 0,
    ensures
        wanted_input(settings, native_pid, windows, processes) != Ok::<AudioInput, AudioErrorView>(
            AudioInput::System,
        ),
{
}

/// Another attempt to open the input waits a quarter of a second at first, then twice as long each
/// time, but never more than five seconds.
pub proof fn lemma_attempts_wait_longer(attempt: u32)
    ensures
        delay_of(0) == 250_000_000,
        attempt < 4 ==> delay_of((attempt + 1) as u32) == 2 * delay_of(attempt),
        delay_of(attempt) <= 5_000_000_000,
        attempt >= 5 ==> delay_of(attempt) == 5_000_000_000,
{
}

/// Packets wait in order, up to ten of them; then the oldest goes.
pub proof fn lemma_audio_waits_in_order(samples: Seq<AudioSample>, sample: AudioSample)
    requires
        samples.len() <= 10,
    ensures
        ({
            let after = queued(samples, sample);
            &&& samples.len() < 10 ==> after == samples.push(sample)
            &&& samples.len() == 10 ==> after.len() == 10 && forall|i: int|
                0 <= i < 9 ==> (#[trigger] after[i]).data == samples[i + 1].data
            &&& after.last().data == sample.data
            &&& after.last().duration_nanos == sample.duration_nanos
        }),
{
    if samples.len() == 10 {
        let after = queued(samples, sample);
        assert forall|i: int| 0 <= i < 9 implies (#[trigger] after[i]).data == samples[i
            + 1].data by {}
    }
}

/// Only whole frames of an active stream are encoded: 960 samples on each of two channels. What was
/// lost before a frame, in the capture or by a broken chunk, is told with it and then forgotten.
pub proof fn lemma_chunks(
    worker: AudioWorker,
    active: bool,
    dropped_before: u32,
    frames: usize,
    samples: usize,
)
    requires
        dropped_before >= worker.previous_capture_drops,
        worker.pending_dropped_packets + (dropped_before - worker.previous_capture_drops)
            < u16::MAX,
    ensures
        ({
            let lost = worker.pending_dropped_packets + (dropped_before
                - worker.previous_capture_drops);
            let (after, action) = worker.after_chunk(active, dropped_before, frames, samples);
            &&& after.previous_capture_drops == dropped_before
            &&& !active ==> action == ChunkAction::Ignore && after.pending_dropped_packets == 0
            &&& active && frames == 960 && samples == 1920 ==> action == (ChunkAction::Encode {
                gap: lost as u16,
            }) && after.pending_dropped_packets == 0
            &&& active && (frames != 960 || samples != 1920) ==> action == ChunkAction::Discard
                && after.pending_dropped_packets == lost + 1
        }),
{
}

/// The input is opened anew when the mode, the names that are left out, or the window whose audio is
/// captured changes; a window that keeps its native number is the same, and another source does not
/// matter to the audio of the system.
pub proof fn lemma_what_reopens_the_input(
    previous: CaptureSettingsView,
    next: CaptureSettingsView,
)
    ensures
        !input_changes(previous, previous),
        previous.audio_mode != next.audio_mode ==> input_changes(previous, next),
        previous.excluded_audio_processes != next.excluded_audio_processes ==> input_changes(
            previous,
            next,
        ),
        previous.audio_mode == "window"@ && next.audio_mode == "window"@
            && previous.source_native_id != next.source_native_id ==> input_changes(previous, next),
        previous.audio_mode == "window"@ && previous.source_native_id is Some ==> !input_changes(
            previous,
            CaptureSettingsView { source_index: next.source_index, ..previous },
        ),
        previous.audio_mode != "window"@ ==> !input_changes(
            previous,
            CaptureSettingsView {
                source_index: next.source_index,
                source_native_id: next.source_native_id,
                source_kind: next.source_kind,
                ..previous
            },
        ),
{
}

/// Which audio is captured: that of the process of the window, that of the system, or that of the
/// system without the one process that was found.
pub proof fn lemma_chosen_input(
    settings: CaptureSettingsView,
    native_pid: Option<u32>,
    windows: Seq<SourceInfoView>,
    processes: Option<Seq<RunningProcess>>,
)
    ensures
        ({
            let input = wanted_input(settings, native_pid, windows, processes);
            &&& settings.audio_mode == "window"@ && settings.source_native_id is Some && native_pid
                is Some ==> input == Ok::<AudioInput, AudioErrorView>(
                AudioInput::Process(native_pid->0),
            )
            &&& settings.audio_mode == "window"@ && settings.source_native_id is Some && native_pid
                is None ==> input is Err
            &&& settings.audio_mode == "system"@ && settings.excluded_audio_processes.len() == 0
                ==> input == Ok::<AudioInput, AudioErrorView>(AudioInput::System)
            &&& settings.audio_mode != "system"@ && settings.audio_mode != "window"@ ==> input
                is Err
            &&& settings.audio_mode == "system"@ && settings.excluded_audio_processes.len() > 0
                && input is Ok ==> input->Ok_0 is SystemWithout
            &&& settings.audio_mode == "window"@ && input is Ok ==> input->Ok_0 is Process
        }),
{
    reveal_strlit("window");
    reveal_strlit("system");
    assert("window"@[0] != "system"@[0]);
}

/// A process that is left out is the root of a requested tree: it was requested itself, and what
/// started it was not.
pub proof fn lemma_excluded_process_is_a_requested_root(
    names: Seq<Seq<char>>,
    processes: Seq<RunningProcess>,
    n: int,
    k: int,
)
    requires
        0 <= n <= processes.len(),
        0 <= k < tree_roots(names, processes, n).len(),
    ensures
        exists|i: int|
            0 <= i < n && (#[trigger] processes[i]).pid == tree_roots(names, processes, n)[k]
                && is_requested(names, processes[i].name@) && !is_requested_pid(
                names,
                processes,
                processes[i].parent_pid,
            ),
    decreases n,
{
    let rest = tree_roots(names, processes, n - 1);
    if k < rest.len() {
        lemma_excluded_process_is_a_requested_root(names, processes, n - 1, k);
        let i = choose|i: int|
            0 <= i < n - 1 && (#[trigger] processes[i]).pid == rest[k] && is_requested(
                names,
                processes[i].name@,
            ) && !is_requested_pid(names, processes, processes[i].parent_pid);
        assert(processes[i].pid == tree_roots(names, processes, n)[k]);
    } else {
        assert(processes[n - 1].pid == tree_roots(names, processes, n)[k]);
    }
}

/// One process is found if and only if all that are named are the same one; two that differ are an
/// error.
pub proof fn lemma_one_process(pids: Seq<u32>, pid: u32)
    ensures
        only_process(pids) == Ok::<Option<u32>, AudioErrorView>(None) <==> pids.len() == 0,
        only_process(pids) == Ok::<Option<u32>, AudioErrorView>(Some(pid)) <==> pids.len() > 0 && (
        forall|i: int| 0 <= i < pids.len() ==> #[trigger] pids[i] == pid),
        (exists|i: int, j: int|
            #![trigger pids[i], pids[j]]
            0 <= i < pids.len() && 0 <= j < pids.len() && pids[i] != pids[j]) ==> only_process(
            pids,
        ) == Err::<Option<u32>, AudioErrorView>(AudioErrorView::MultipleTrees),
{
    if pids.len() > 0 {
        assert(pids[0] == pids[0]);
    }
}

} // verus!

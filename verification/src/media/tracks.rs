//! What waits for a viewer, and under which timestamps it is sent.

use std::collections::VecDeque;

use vstd::prelude::*;

use crate::config;
use crate::float;
use crate::media;
use crate::media::{VideoCodec, nanos_since};
use crate::random::random_number;

verus! {

pub const FRAME_TIMING_RETENTION_NANOS: u64 = 65_000_000_000;

pub const FRAME_TIMING_ENTRY_LIMIT: usize = 16_000;

pub const MAX_QUEUED_H264_NALS: usize = 16;

/// Which captured frame an RTP timestamp stands for.
#[derive(Clone, Copy, Debug, PartialEq, Eq, Structural)]
pub struct FrameCaptureMapping {
    pub rtp_timestamp: u32,
    pub capture_time_unix_nanos: u64,
    pub encoder_delay_ms: u64,
    pub recorded_at: u64,
}

#[derive(Clone, Copy, Debug, PartialEq, Eq, Structural)]
pub struct FrameCaptureTiming {
    pub capture_time_unix_nanos: u64,
    pub encoder_delay_ms: u64,
}

/// The entries that stay when a new one comes: expired ones leave at the front, and one place is
/// made free.
pub open spec fn retained_timings(
    entries: Seq<FrameCaptureMapping>,
    now: u64,
) -> Seq<FrameCaptureMapping>
    decreases entries.len(),
{
    if entries.len() > 0 && (media::timing::elapsed(now, entries[0].recorded_at) > FRAME_TIMING_RETENTION_NANOS
        || entries.len() >= FRAME_TIMING_ENTRY_LIMIT) {
        retained_timings(entries.drop_first(), now)
    } else {
        entries
    }
}

/// Adds an entry to the timings of a viewer.
pub fn record_timing(entries: &mut VecDeque<FrameCaptureMapping>, entry: FrameCaptureMapping)
    ensures
        final(entries)@ == retained_timings(old(entries)@, entry.recorded_at).push(entry),
        final(entries)@.len() <= FRAME_TIMING_ENTRY_LIMIT,
{
    while entries.len() > 0 && (nanos_since(entry.recorded_at, entries[0].recorded_at)
        > FRAME_TIMING_RETENTION_NANOS || entries.len() >= FRAME_TIMING_ENTRY_LIMIT)
        invariant
            retained_timings(entries@, entry.recorded_at) == retained_timings(
                old(entries)@,
                entry.recorded_at,
            ),
        decreases entries@.len(),
    {
        let ghost before = entries@;
        let _ = entries.pop_front();
        assert(entries@ =~= before.drop_first());
    }
    entries.push_back(entry);
}

/// The newest entry with the given timestamp.
pub open spec fn timing_for(entries: Seq<FrameCaptureMapping>, rtp_timestamp: u32) -> Option<
    FrameCaptureTiming,
>
    decreases entries.len(),
{
    if entries.len() == 0 {
        None
    } else if entries.last().rtp_timestamp == rtp_timestamp {
        Some(
            FrameCaptureTiming {
                capture_time_unix_nanos: entries.last().capture_time_unix_nanos,
                encoder_delay_ms: entries.last().encoder_delay_ms,
            },
        )
    } else {
        timing_for(entries.drop_last(), rtp_timestamp)
    }
}

pub fn find_timing(entries: &VecDeque<FrameCaptureMapping>, rtp_timestamp: u32) -> (r: Option<
    FrameCaptureTiming,
>)
    ensures
        r == timing_for(entries@, rtp_timestamp),
{
    let mut i: usize = entries.len();
    assert(entries@.take(i as int) =~= entries@);
    while i > 0
        invariant
            i <= entries@.len(),
            timing_for(entries@, rtp_timestamp) == timing_for(entries@.take(i as int), rtp_timestamp),
        decreases i,
    {
        let entry = entries[i - 1];
        assert(entries@.take(i as int).drop_last() =~= entries@.take(i - 1));
        if entry.rtp_timestamp == rtp_timestamp {
            return Some(
                FrameCaptureTiming {
                    capture_time_unix_nanos: entry.capture_time_unix_nanos,
                    encoder_delay_ms: entry.encoder_delay_ms,
                },
            );
        }
        i -= 1;
    }
    None
}

/// A frame that was just recorded is found under its timestamp.
pub proof fn lemma_recorded_timing_is_found(
    entries: Seq<FrameCaptureMapping>,
    entry: FrameCaptureMapping,
)
    ensures
        timing_for(
            retained_timings(entries, entry.recorded_at).push(entry),
            entry.rtp_timestamp,
        ) == Some(
            FrameCaptureTiming {
                capture_time_unix_nanos: entry.capture_time_unix_nanos,
                encoder_delay_ms: entry.encoder_delay_ms,
            },
        ),
{
}

/// An encoded access unit on its way to a viewer.
#[derive(Debug)]
pub struct QueuedSample {
    pub data: Vec<u8>,
    pub duration_nanos: u64,
    pub capture_time_unix_nanos: Option<u64>,
    pub encoder_delay_ms: Option<u64>,
}

pub struct QueuedSampleView {
    pub data: Seq<u8>,
    pub duration_nanos: u64,
    pub capture_time_unix_nanos: Option<u64>,
    pub encoder_delay_ms: Option<u64>,
}

impl View for QueuedSample {
    type V = QueuedSampleView;

    open spec fn view(&self) -> QueuedSampleView {
        QueuedSampleView {
            data: self.data@,
            duration_nanos: self.duration_nanos,
            capture_time_unix_nanos: self.capture_time_unix_nanos,
            encoder_delay_ms: self.encoder_delay_ms,
        }
    }
}

/// The steps of the 90 kHz RTP clock in a duration.
pub open spec fn rtp_step(duration_nanos: u64) -> u32 {
    let steps = float::rounded(
        float::product(
            float::seconds_of(duration_nanos),
            float::of_nat(float::Precision::Double, 90_000),
        ),
    );
    if steps <= u32::MAX {
        steps as u32
    } else {
        u32::MAX
    }
}

pub fn rtp_timestamp_step(duration_nanos: u64) -> (r: u32)
    ensures
        r == rtp_step(duration_nanos),
{
    let clock = float::integer(float::Precision::Double, 90_000);
    float::rounded_to(
        float::multiply(float::seconds(duration_nanos), clock),
        u32::MAX as u64,
    ) as u32
}

/// The timestamp `step` behind `timestamp`, in 32 bits.
pub open spec fn advanced_timestamp(timestamp: u32, step: u32) -> u32 {
    ((timestamp + step) % 0x1_0000_0000) as u32
}

/// A viewer's queue of access units.
#[derive(Debug)]
pub struct MediaTrack {
    pub connection_id: u128,
    pub preserve_nal_order: bool,
    pub samples: VecDeque<QueuedSample>,
    pub closed: bool,
    pub next_rtp_timestamp: u32,
}

pub struct MediaTrackView {
    pub connection_id: u128,
    pub preserve_nal_order: bool,
    pub samples: Seq<QueuedSampleView>,
    pub closed: bool,
    pub next_rtp_timestamp: u32,
}

pub open spec fn sample_views(samples: Seq<QueuedSample>) -> Seq<QueuedSampleView> {
    samples.map_values(|s: QueuedSample| s@)
}

impl View for MediaTrack {
    type V = MediaTrackView;

    open spec fn view(&self) -> MediaTrackView {
        MediaTrackView {
            connection_id: self.connection_id,
            preserve_nal_order: self.preserve_nal_order,
            samples: sample_views(self.samples@),
            closed: self.closed,
            next_rtp_timestamp: self.next_rtp_timestamp,
        }
    }
}

/// A track after a sample was queued. A live stream keeps only the newest access unit; H.264
/// keeps the short run of units that a picture needs, up to a limit.
pub open spec fn enqueued(track: MediaTrackView, sample: QueuedSampleView) -> MediaTrackView {
    if track.closed {
        track
    } else {
        MediaTrackView {
            samples: if track.preserve_nal_order && track.samples.len() < MAX_QUEUED_H264_NALS {
                track.samples.push(sample)
            } else {
                seq![sample]
            },
            ..track
        }
    }
}

/// A viewer who falls behind is not sent a backlog: the newest sample is always there, alone or at
/// the end of a short run.
pub proof fn lemma_newest_sample_waits(track: MediaTrackView, sample: QueuedSampleView)
    requires
        !track.closed,
        track.samples.len() <= MAX_QUEUED_H264_NALS,
        !track.preserve_nal_order ==> track.samples.len() <= 1,
    ensures
        enqueued(track, sample).samples.len() > 0,
        enqueued(track, sample).samples.last() == sample,
        enqueued(track, sample).samples.len() <= MAX_QUEUED_H264_NALS,
        !track.preserve_nal_order ==> enqueued(track, sample).samples.len() == 1,
{
}

pub open spec fn closed_track(track: MediaTrackView) -> MediaTrackView {
    MediaTrackView { samples: Seq::empty(), closed: true, ..track }
}

/// A sample with the RTP timestamp under which it is sent.
#[derive(Debug)]
pub struct OutgoingSample {
    pub sample: QueuedSample,
    pub rtp_timestamp: u32,
}

impl MediaTrack {
    pub fn new(connection_id: u128, codec: VideoCodec, first_timestamp: u32) -> (r: Self)
        ensures
            r@ == (MediaTrackView {
                connection_id,
                preserve_nal_order: codec == VideoCodec::H264,
                samples: Seq::empty(),
                closed: false,
                next_rtp_timestamp: first_timestamp,
            }),
    {
        let track = MediaTrack {
            connection_id,
            preserve_nal_order: codec == VideoCodec::H264,
            samples: VecDeque::new(),
            closed: false,
            next_rtp_timestamp: first_timestamp,
        };
        assert(track@.samples =~= Seq::empty());
        track
    }

    pub fn enqueue(&mut self, sample: QueuedSample)
        ensures
            final(self)@ == enqueued(old(self)@, sample@),
            !old(self).closed ==> final(self)@.samples.last() == sample@,
            old(self).samples@.len() <= MAX_QUEUED_H264_NALS ==> final(self).samples@.len()
                <= MAX_QUEUED_H264_NALS,
    {
        if self.closed {
            return;
        }
        if !self.preserve_nal_order || self.samples.len() >= MAX_QUEUED_H264_NALS {
            self.samples.clear();
        }
        self.samples.push_back(sample);
        assert(self@.samples =~= enqueued(old(self)@, sample@).samples);
    }

    pub fn close(&mut self)
        ensures
            final(self)@ == closed_track(old(self)@),
    {
        self.closed = true;
        self.samples.clear();
        assert(self@.samples =~= Seq::empty());
    }

    /// Takes the next sample to send, unless the track was closed.
    pub fn next_sample(&mut self) -> (r: Option<OutgoingSample>)
        ensures
            old(self).closed || old(self).samples@.len() == 0 ==> r is None && final(self)@
                == old(self)@,
            !old(self).closed && old(self).samples@.len() > 0 ==> {
                &&& r matches Some(out)
                &&& out.sample@ == old(self)@.samples[0]
                &&& out.rtp_timestamp == old(self).next_rtp_timestamp
                &&& final(self)@ == (MediaTrackView {
                    samples: old(self)@.samples.drop_first(),
                    next_rtp_timestamp: advanced_timestamp(
                        old(self).next_rtp_timestamp,
                        rtp_step(old(self)@.samples[0].duration_nanos),
                    ),
                    ..old(self)@
                })
            },
    {
        if self.closed {
            return None;
        }
        match self.samples.pop_front() {
            None => {
                assert(self@.samples =~= old(self)@.samples);
                None
            },
            Some(sample) => {
                let rtp_timestamp = self.next_rtp_timestamp;
                let step = rtp_timestamp_step(sample.duration_nanos);
                let sum: u64 = rtp_timestamp as u64 + step as u64;
                self.next_rtp_timestamp = (sum % 0x1_0000_0000) as u32;
                assert(self@.samples =~= old(self)@.samples.drop_first());
                Some(OutgoingSample { sample, rtp_timestamp })
            },
        }
    }
}

/// The RTP timestamp of the first sample of a track, which is never zero.
pub fn initial_rtp_timestamp() -> (r: u32)
    ensures
        r >= 1,
{
    first_timestamp((random_number() % 0x1_0000_0000) as u32)
}

pub fn first_timestamp(drawn: u32) -> (r: u32)
    ensures
        r == config::max_u32(drawn, 1),
{
    if drawn >= 1 {
        drawn
    } else {
        1
    }
}

/// A copy of some bytes.
pub fn copy_bytes(data: &Vec<u8>) -> (r: Vec<u8>)
    ensures
        r@ == data@,
{
    let copy = data.clone();
    assert(copy@ =~= data@);
    copy
}

/// Timings of frames are forgotten from the oldest on: what is left is the end of what was there, and
/// nothing that is at most 65 seconds old is forgotten while fewer than 16000 are kept.
pub proof fn lemma_timings_are_forgotten_in_order(entries: Seq<FrameCaptureMapping>, now: u64)
    ensures
        ({
            let left = retained_timings(entries, now);
            &&& left.len() <= entries.len()
            &&& left == entries.skip(entries.len() - left.len())
            &&& left.len() < 16_000
            &&& left.len() > 0 ==> left[0].recorded_at > now || now - left[0].recorded_at
                <= 65_000_000_000
            &&& entries.len() < 16_000 && (entries.len() == 0 || entries[0].recorded_at > now
                || now - entries[0].recorded_at <= 65_000_000_000) ==> left == entries
        }),
    decreases entries.len(),
{
    let left = retained_timings(entries, now);
    if entries.len() > 0 && (media::timing::elapsed(now, entries[0].recorded_at)
        > FRAME_TIMING_RETENTION_NANOS || entries.len() >= FRAME_TIMING_ENTRY_LIMIT) {
        lemma_timings_are_forgotten_in_order(entries.drop_first(), now);
        assert(left =~= entries.skip(entries.len() - left.len()));
    }
    assert(entries.skip(0) =~= entries);
}

/// A timestamp moves on by its step and wraps around.
pub proof fn lemma_timestamps_advance(timestamp: u32, step: u32)
    ensures
        advanced_timestamp(timestamp, step) == timestamp + step || advanced_timestamp(
            timestamp,
            step,
        ) == timestamp + step - 0x1_0000_0000,
{
}

/// The units of an H.264 stream wait in order, up to sixteen of them; of other codecs only the newest
/// frame waits. Nothing waits on a closed track.
pub proof fn lemma_waiting_samples(track: MediaTrackView, sample: QueuedSampleView)
    ensures
        track.closed ==> enqueued(track, sample) == track,
        !track.closed && track.preserve_nal_order && track.samples.len() < 16 ==> enqueued(
            track,
            sample,
        ).samples == track.samples.push(sample),
        !track.closed && !track.preserve_nal_order ==> enqueued(track, sample).samples
            == seq![sample],
        enqueued(track, sample).connection_id == track.connection_id,
        enqueued(track, sample).next_rtp_timestamp == track.next_rtp_timestamp,
        closed_track(track).closed && closed_track(track).samples.len() == 0,
{
}

} // verus!

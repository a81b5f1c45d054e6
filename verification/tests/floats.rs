//! The integer arithmetic of the library against the machine's own floating point.

use std::collections::VecDeque;

use instant_local_stream::adaptive::BitrateController;
use instant_local_stream::capture::rounded_rate;
use instant_local_stream::config::{AppConfig, automatic_bitrate_floor};
use instant_local_stream::float::{
    Precision, decode_magnitude, divide, fraction, integer, is_less, multiply, plus, rounded_to,
};
use instant_local_stream::groups::tuning::ViewerRecord;
use instant_local_stream::media::{CaptureSettings, rtp_timestamp_step};
use instant_local_stream::metrics::{
    MetricSample, ONE, SIXTY_THOUSAND, TEN_BILLION, ViewerMetrics, Visibility, finite_metric,
    sample_has_headroom, sample_is_lossy, sample_is_starved,
};
use instant_local_stream::network::{recommended_max_viewers, upload_rate};
use instant_local_stream::preview::preview_dimensions;
use instant_local_stream::profile::profiles_are_similar;
use instant_local_stream::ui::labels::bitrate_label;
use instant_local_stream::window_reader::resize_rgba;
use instant_local_stream::window_resize::Dimensions;

struct Numbers(u64);

impl Numbers {
    fn next(&mut self) -> u64 {
        self.0 ^= self.0 << 13;
        self.0 ^= self.0 >> 7;
        self.0 ^= self.0 << 17;
        self.0
    }

    fn below(&mut self, limit: u64) -> u64 {
        self.next() % limit
    }
}

#[test]
fn encoded_constants_are_their_numbers() {
    assert_eq!(f64::from_bits(ONE), 1.0);
    assert_eq!(f64::from_bits(SIXTY_THOUSAND), 60_000.0);
    assert_eq!(f64::from_bits(TEN_BILLION), 10_000_000_000.0);
}

#[test]
fn arithmetic_is_that_of_the_machine() {
    let mut numbers = Numbers(0x1234_5678_9ABC_DEF1);
    for _ in 0..20_000 {
        let shift = numbers.below(60);
        let a = numbers.next() >> shift;
        let shift = numbers.below(60);
        let b = (numbers.next() >> shift).max(1);
        let (x, y) = (a as f64, b as f64);
        let (p, q) = (integer(Precision::Double, a), integer(Precision::Double, b));
        let as_machine = |value: f64| decode_magnitude(value.to_bits());
        assert_eq!(p, as_machine(x));
        assert_eq!(multiply(p, q), as_machine(x * y));
        assert_eq!(divide(p, q), as_machine(x / y));
        assert_eq!(plus(p, q), as_machine(x + y));
        assert_eq!(is_less(p, q), x < y);
        let limit = 1 << 52;
        assert_eq!(
            rounded_to(divide(p, q), limit),
            ((x / y).round() as u64).min(limit)
        );
    }
    assert_eq!(
        fraction(65, 100),
        decode_magnitude(0.65_f64.to_bits())
    );
    assert_eq!(
        fraction(125, 100),
        decode_magnitude(1.25_f64.to_bits())
    );
}

#[test]
fn automatic_bitrates_are_those_of_the_machine() {
    let mut numbers = Numbers(0x9E37_79B9_7F4A_7C15);
    for _ in 0..3_000 {
        let mut config = AppConfig::default();
        config.bitrate_mode = "automatic".to_owned();
        config.quality_mode = "manual".to_owned();
        config.quality = "custom".to_owned();
        config.fps_preset = "custom".to_owned();
        config.width = numbers.below(8_000) as u32;
        config.height = numbers.below(5_000) as u32;
        config.fps = numbers.below(300) as u32;
        config.codec = ["vp8", "vp9", "h264", "AV1", "auto"][numbers.below(5) as usize].to_owned();
        config.latency_preference =
            ["low", "balanced", "quality"][numbers.below(3) as usize].to_owned();
        config.source.kind = ["test", "monitor"][numbers.below(2) as usize].to_owned();

        let height = config.height.max(144);
        let width = ((u64::from(config.width.max(2)) * u64::from(height))
            / u64::from(config.height.max(2)))
        .max(2) as u32;
        let fps = config.fps.max(5);
        let per_pixel = match config.codec.to_ascii_lowercase().as_str() {
            "vp9" => 0.055,
            "h264" => 0.065,
            "av1" => 0.040,
            _ => 0.080,
        };
        let multiplier = match config.latency_preference.as_str() {
            "low" => 0.90,
            "quality" => 1.20,
            _ => 1.0,
        };
        let content = if config.source.kind == "test" { 1.10 } else { 1.0 };
        let wanted = (f64::from(width) * f64::from(height) * f64::from(fps) * per_pixel
            * multiplier
            * content) as u32;
        let expected = wanted
            .max(automatic_bitrate_floor(height, fps))
            .clamp(250_000, 25_000_000);
        assert_eq!(config.effective_bitrate(), expected, "{config:?}");
    }
}

#[test]
fn viewer_limits_are_those_of_the_machine() {
    let mut numbers = Numbers(0xC0FF_EE12_3456_789A);
    for _ in 0..5_000 {
        let upload = numbers.below(20_000_000_000);
        let bitrate = numbers.below(60_000_000) as u32;
        let per_viewer = f64::from(bitrate.max(250_000)) * 1.10;
        let expected = ((upload as f64 * 0.65) / per_viewer).floor().max(1.0) as usize;
        assert_eq!(recommended_max_viewers(upload, bitrate), expected);
    }
}

#[test]
fn upload_rates_are_those_of_the_machine() {
    let mut numbers = Numbers(0xA11C_E55D_1234_5678);
    for _ in 0..5_000 {
        let bytes = numbers.below(1 << 40);
        let nanos = numbers.below(60_000_000_000);
        let elapsed = std::time::Duration::from_nanos(nanos).as_secs_f64().max(0.001);
        assert_eq!(
            upload_rate(bytes, nanos),
            (bytes as f64 * 8.0 / elapsed) as u64
        );
    }
}

#[test]
fn rtp_steps_are_those_of_the_machine() {
    let mut numbers = Numbers(0x0123_4567_89AB_CDEF);
    for _ in 0..5_000 {
        let nanos = numbers.below(20_000_000_000);
        let seconds = std::time::Duration::from_nanos(nanos).as_secs_f64();
        assert_eq!(
            rtp_timestamp_step(nanos),
            (seconds * 90_000.0).round().max(0.0) as u32
        );
    }
}

#[test]
fn preview_sizes_are_those_of_the_machine() {
    let mut numbers = Numbers(0x5DEE_CE66_D123_4567);
    for _ in 0..5_000 {
        let width = numbers.below(8_000) as usize + 1;
        let height = numbers.below(8_000) as usize + 1;
        let max_width = numbers.below(2_000) as usize + 1;
        let max_height = numbers.below(2_000) as usize + 1;
        let scale = (max_width as f32 / width as f32)
            .min(max_height as f32 / height as f32)
            .min(1.0);
        let expected = (
            ((width as f32 * scale).round() as usize).max(1),
            ((height as f32 * scale).round() as usize).max(1),
        );
        assert_eq!(
            preview_dimensions(width, height, max_width, max_height),
            expected
        );
    }
}

#[test]
fn rates_are_rounded_as_by_the_machine() {
    let mut numbers = Numbers(0x2545_F491_4F6C_DD1D);
    for _ in 0..20_000 {
        let bits = numbers.next() as u32;
        let rate = f32::from_bits(bits);
        let expected = Some(rate.round() as u32).filter(|fps| *fps > 0);
        assert_eq!(rounded_rate(Some(bits)), expected, "{rate}");
    }
}

#[test]
fn metrics_are_bounded_as_by_the_machine() {
    let mut numbers = Numbers(0x1357_9BDF_0246_8ACE);
    let special = [
        0.0,
        -0.0,
        1.0,
        -1.0,
        60_000.0,
        60_000.5,
        f64::NAN,
        f64::INFINITY,
        f64::NEG_INFINITY,
        f64::MIN_POSITIVE,
        5e-324,
    ];
    let drawn = (0..20_000).map(|_| f64::from_bits(numbers.next())).collect::<Vec<_>>();
    for value in special.into_iter().chain(drawn) {
        let expected = if value.is_finite() {
            value.clamp(0.0, 60_000.0)
        } else {
            0.0
        };
        let found = f64::from_bits(finite_metric(value.to_bits(), 0, SIXTY_THOUSAND));
        assert_eq!(found, expected, "{value}");
    }
}

/// Numbers around a limit, on both sides of zero, and what is no finite number.
fn measured(numbers: &mut Numbers, limit: f64) -> f64 {
    match numbers.below(12) {
        0 => f64::NAN,
        1 => -f64::NAN,
        2 => f64::INFINITY,
        3 => f64::NEG_INFINITY,
        4 => -0.0,
        5 => 0.0,
        6 => limit,
        7 => -limit,
        8 => f64::from_bits(limit.to_bits() + 1),
        9 => f64::from_bits(limit.to_bits() - 1),
        10 => 5e-324 * numbers.below(3) as f64,
        _ => limit * numbers.below(4) as f64 - limit,
    }
}

#[test]
fn bounds_below_zero_are_those_of_the_machine() {
    let mut numbers = Numbers(0x1234_8765_4321_5679);
    for _ in 0..20_000 {
        let (a, b) = (measured(&mut numbers, 3.0), measured(&mut numbers, 3.0));
        if a.is_nan() || b.is_nan() || a > b {
            continue;
        }
        let value = measured(&mut numbers, 3.0);
        let expected = if value.is_finite() { value.clamp(a, b) } else { a };
        let found = finite_metric(value.to_bits(), a.to_bits(), b.to_bits());
        assert_eq!(f64::from_bits(found), expected, "{value} {a} {b}");
    }
}

#[test]
fn verdicts_on_samples_are_those_of_the_machine() {
    let mut numbers = Numbers(0x2468_1357_9BDF_ACE1);
    let bitrate = 3_000_001_u32;
    for _ in 0..50_000 {
        let loss = [0.05, 0.01][numbers.below(2) as usize];
        let jitter = [120.0, 30.0][numbers.below(2) as usize];
        let share = [0.65, 0.70, 0.75, 1.25][numbers.below(4) as usize];
        let loss_rate = measured(&mut numbers, loss);
        let jitter_ms = measured(&mut numbers, jitter);
        let rtt_ms = measured(&mut numbers, 500.0);
        let received = measured(&mut numbers, f64::from(bitrate) * share);
        let capacity = measured(&mut numbers, f64::from(bitrate) * share);
        let sample = MetricSample {
            captured_at: 0,
            rtt_ms: rtt_ms.to_bits(),
            jitter_ms: jitter_ms.to_bits(),
            loss_rate: loss_rate.to_bits(),
            bitrate_bps: received.to_bits(),
            available_incoming_bitrate_bps: Some(capacity.to_bits()),
            frames_dropped: 0,
            freeze_count: 0,
            visibility: Visibility::Visible,
        };
        assert_eq!(
            sample_is_lossy(sample),
            loss_rate > 0.05 || jitter_ms > 120.0 || rtt_ms > 500.0
        );
        assert_eq!(
            sample_is_starved(sample, bitrate, 65, 70),
            capacity < f64::from(bitrate) * 0.65 && received < f64::from(bitrate) * 0.70
        );
        assert_eq!(
            sample_has_headroom(sample, bitrate),
            capacity >= f64::from(bitrate) * 1.25 && loss_rate < 0.01 && jitter_ms < 30.0
        );
    }
}

#[test]
fn adapted_bitrates_are_those_of_the_machine() {
    let mut numbers = Numbers(0x1357_9BDF_0246_8ACF);
    let mut settings = CaptureSettings::from_config(&AppConfig::default());
    settings.quality_mode = "manual".to_owned();
    settings.bitrate_mode = "automatic".to_owned();
    settings.bitrate = 4_000_000;
    let now = 100_000_000_000;
    let mut seen = [0, 0, 0];
    for _ in 0..20_000 {
        let count = 1 + numbers.below(3);
        let mut draw = |limit: f64| {
            if numbers.below(4) > 0 {
                0.0
            } else {
                measured(&mut numbers, limit)
            }
        };
        let reports = (0..count)
            .map(|_| (draw(0.05), draw(250.0), draw(20.0), draw(250_000.0)))
            .collect::<Vec<_>>();
        let records = reports
            .iter()
            .enumerate()
            .map(|(at, (loss, rtt, jitter, bitrate))| ViewerRecord {
                client_id: format!("viewer-{at}"),
                metrics: ViewerMetrics {
                    rtt_ms: rtt.to_bits(),
                    jitter_ms: jitter.to_bits(),
                    loss_rate: loss.to_bits(),
                    bitrate_bps: bitrate.to_bits(),
                    reported_frames_dropped: 0,
                    reported_freeze_count: 0,
                    updated_at: now,
                    samples: VecDeque::new(),
                },
            })
            .collect::<Vec<_>>();
        let worst_loss = reports.iter().map(|report| report.0).fold(0.0, f64::max);
        let worst_rtt = reports.iter().map(|report| report.1).fold(0.0, f64::max);
        let worst_jitter = reports.iter().map(|report| report.2).fold(0.0, f64::max);
        let average = reports
            .iter()
            .map(|report| report.3)
            .filter(|bitrate| *bitrate > 0.0)
            .sum::<f64>()
            / reports.len() as f64;
        let bad = worst_loss > 0.05
            || worst_rtt > 250.0
            || worst_jitter > 50.0
            || (average > 0.0 && average < 250_000.0);
        let good = worst_loss < 0.01 && worst_rtt < 100.0 && worst_jitter < 20.0;
        let expected = if bad {
            seen[0] += 1;
            Some(3_000_000)
        } else if good {
            seen[1] += 1;
            Some(4_400_000)
        } else {
            seen[2] += 1;
            None
        };
        let mut controller = BitrateController {
            stable_since: 0,
            last_change: 0,
        };
        let found = controller.tick(true, &settings, &records, 10_000_000, now);
        assert_eq!(found, expected, "{reports:?}");
        assert_eq!(controller.stable_since, if good { 0 } else { now });
    }
    assert!(seen.iter().all(|count| *count > 500), "{seen:?}");
}

#[test]
fn similar_profiles_are_those_of_the_machine() {
    let close = |left: u32, right: u32, tolerance: f64| {
        let maximum = f64::from(left.max(right).max(1));
        (f64::from(left) - f64::from(right)).abs() / maximum <= tolerance
    };
    let mut numbers = Numbers(0xFEDC_BA98_7654_3210);
    for _ in 0..5_000 {
        let mut left = CaptureSettings::from_config(&AppConfig::default());
        let mut right = left.clone();
        for settings in [&mut left, &mut right] {
            settings.output_height = Some(100 + numbers.below(40) as u32);
            settings.output_fps = Some(20 + numbers.below(8) as u32);
            settings.bitrate = 1_000 + numbers.below(500) as u32;
        }
        let expected = close(
            left.output_height.unwrap(),
            right.output_height.unwrap(),
            0.15,
        ) && close(left.output_fps.unwrap(), right.output_fps.unwrap(), 0.15)
            && close(left.bitrate, right.bitrate, 0.20);
        assert_eq!(profiles_are_similar(&left, &right), expected);
    }
}

#[test]
fn fitted_windows_are_those_of_the_machine() {
    let mut numbers = Numbers(0x0F1E_2D3C_4B5A_6978);
    for _ in 0..300 {
        let mut side = || numbers.below(24) as usize + 1;
        let (sw, sh, ow, oh) = (side(), side(), side(), side());
        let pixels = (0..sw * sh * 4).map(|at| at as u8).collect::<Vec<_>>();
        let scale = (ow as f64 / sw as f64).min(oh as f64 / sh as f64);
        let fw = ((sw as f64 * scale).round() as usize).clamp(1, ow);
        let fh = ((sh as f64 * scale).round() as usize).clamp(1, oh);
        let (left, top) = ((ow - fw) / 2, (oh - fh) / 2);
        let mut expected = [0, 0, 0, 255].repeat(ow * oh);
        for y in 0..fh {
            for x in 0..fw {
                let from = ((y * sh / fh) * sw + x * sw / fw) * 4;
                let to = ((top + y) * ow + left + x) * 4;
                expected[to..to + 4].copy_from_slice(&pixels[from..from + 4]);
            }
        }
        let source = Dimensions {
            width: sw as u32,
            height: sh as u32,
        };
        let output = Dimensions {
            width: ow as u32,
            height: oh as u32,
        };
        assert_eq!(resize_rgba(&pixels, source, output).unwrap(), expected);
    }
}

#[test]
fn labels_are_rounded_as_by_the_machine() {
    let mut numbers = Numbers(0x7777_1111_3333_5555);
    for _ in 0..5_000 {
        let bits = numbers.below(3_000_000_000);
        let expected = if bits >= 1_000_000 {
            format!("{:.1} Mbps", bits as f64 / 1_000_000.0)
        } else {
            format!("{} Kbps", bits / 1_000)
        };
        assert_eq!(bitrate_label(bits), expected);
    }
}

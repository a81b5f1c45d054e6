//! What the library reads out of texts and packets, against the methods of the standard library.

use instant_local_stream::audio::normalize_process_name;
use instant_local_stream::config::{parse_port_range, parse_source};
use instant_local_stream::encoder::{
    device_names_match, normalized_device_name, parse_ffmpeg_nvenc_devices,
};
use instant_local_stream::groups::codecs::{
    ViewerBootstrap, choose_codec, viewer_supported_codecs,
};
use instant_local_stream::network::parse_ipv4;
use instant_local_stream::profile::configured_group_count;
use instant_local_stream::sdp::{ice_ufrag, offer_supports_h264_level_31};
use instant_local_stream::sessions::client_name;
use instant_local_stream::udp_mux::{is_stun_packet, is_stun_response, stun_username};
use instant_local_stream::ui::host::port_digits;
use instant_local_stream::ui::selection::custom_viewer_host;

struct Numbers(u64);

impl Numbers {
    fn below(&mut self, limit: usize) -> usize {
        self.0 ^= self.0 << 13;
        self.0 ^= self.0 >> 7;
        self.0 ^= self.0 << 17;
        (self.0 % limit as u64) as usize
    }

    /// A text made of some of the parts.
    fn text(&mut self, parts: &[&str], most: usize) -> String {
        let count = self.below(most + 1);
        (0..count).map(|_| parts[self.below(parts.len())]).collect()
    }
}

fn supports(sdp: &str) -> bool {
    let payloads = sdp
        .lines()
        .filter_map(|line| line.trim().strip_prefix("a=rtpmap:"))
        .filter_map(|mapping| mapping.split_once(' '))
        .filter(|(_, encoding)| {
            encoding
                .split('/')
                .next()
                .is_some_and(|name| name.eq_ignore_ascii_case("H264"))
        })
        .map(|(payload, _)| payload.trim())
        .collect::<Vec<_>>();
    sdp.lines()
        .filter_map(|line| line.trim().strip_prefix("a=fmtp:"))
        .filter_map(|format| format.split_once(' '))
        .filter(|(payload, _)| payloads.contains(&payload.trim()))
        .flat_map(|(_, parameters)| parameters.split(';'))
        .filter_map(|parameter| parameter.trim().split_once('='))
        .filter(|(name, _)| name.trim().eq_ignore_ascii_case("profile-level-id"))
        .map(|(_, value)| value.trim().to_ascii_lowercase())
        .any(|value| {
            value.len() == 6
                && value.starts_with("42e0")
                && u8::from_str_radix(&value[4..], 16).is_ok_and(|level| level >= 0x1f)
        })
}

#[test]
fn sdp_lines_are_read_as_by_the_standard_library() {
    let mut numbers = Numbers(0x1111_2222_3333_4445);
    let parts = [
        "a=rtpmap:", "a=fmtp:", "108", "96", " ", "H264", "h264", "VP8", "/90000", "\r\n", "\n",
        "profile-level-id", "=", "42e01f", "42E02A", "42e01e", "42e0+f", "42e0", "é", ";", "\t",
        "packetization-mode=1", "a=ice-ufrag:", "abc", "\u{a0}", "\r",
    ];
    for _ in 0..20_000 {
        let sdp = numbers.text(&parts, 14);
        assert_eq!(offer_supports_h264_level_31(&sdp), supports(&sdp), "{sdp:?}");
        let ufrag = sdp
            .lines()
            .map(str::trim)
            .find_map(|line| line.strip_prefix("a=ice-ufrag:"))
            .map(str::trim)
            .filter(|value| !value.is_empty())
            .map(str::to_owned);
        assert_eq!(ice_ufrag(&sdp), ufrag, "{sdp:?}");
    }
    let accepted = "a=rtpmap:108 H264/90000\na=fmtp:108 x=1; Profile-Level-Id = 42E01F \n";
    assert!(supports(accepted) && offer_supports_h264_level_31(accepted));
}

fn username(packet: &[u8]) -> Option<String> {
    if packet.len() < 20 || packet[4..8] != [0x21, 0x12, 0xa4, 0x42] {
        return None;
    }
    let length = u16::from_be_bytes([packet[2], packet[3]]) as usize;
    let end = (20 + length).min(packet.len());
    let mut offset = 20;
    while offset + 4 <= end {
        let kind = u16::from_be_bytes([packet[offset], packet[offset + 1]]);
        let size = u16::from_be_bytes([packet[offset + 2], packet[offset + 3]]) as usize;
        let value = offset + 4;
        if value + size > end {
            return None;
        }
        if kind == 0x0006 {
            return std::str::from_utf8(&packet[value..value + size])
                .ok()
                .map(str::to_owned);
        }
        offset = value + ((size + 3) & !3);
    }
    None
}

#[test]
fn stun_messages_are_read_as_by_the_standard_library() {
    let mut numbers = Numbers(0x2222_3333_4444_5557);
    for _ in 0..20_000 {
        let mut packet = vec![0_u8; 20];
        packet[0] = numbers.below(4) as u8;
        packet[1] = numbers.below(256) as u8;
        if numbers.below(8) > 0 {
            packet[4..8].copy_from_slice(&[0x21, 0x12, 0xa4, 0x42]);
        }
        for _ in 0..numbers.below(4) {
            let size = numbers.below(7);
            let kind = [0x0006_u16, 0x0020, 0x8022][numbers.below(3)];
            packet.extend_from_slice(&kind.to_be_bytes());
            packet.extend_from_slice(&(size as u16).to_be_bytes());
            for _ in 0..(size + 3) & !3 {
                packet.push([b'a', b':', 0xc3, 0xa9, 0xff][numbers.below(5)]);
            }
        }
        let length = (packet.len() - 20 + numbers.below(3)).saturating_sub(numbers.below(3));
        packet[2..4].copy_from_slice(&(length as u16).to_be_bytes());
        let cut = numbers.below(3).min(packet.len());
        packet.truncate(packet.len() - cut);

        assert_eq!(stun_username(&packet), username(&packet), "{packet:?}");
        let is_stun = packet.len() >= 20 && packet[4..8] == [0x21, 0x12, 0xa4, 0x42];
        assert_eq!(is_stun_packet(&packet), is_stun);
        let response = is_stun && {
            let length = u16::from_be_bytes([packet[2], packet[3]]) as usize;
            let kind = u16::from_be_bytes([packet[0], packet[1]]);
            let class = ((kind >> 4) & 0x1) | ((kind >> 7) & 0x2);
            20 + length <= packet.len() && class >= 2
        };
        assert_eq!(is_stun_response(&packet), response, "{packet:?}");
    }
}

#[test]
fn names_are_normalized_as_by_the_standard_library() {
    let mut numbers = Numbers(0x3333_4444_5555_6669);
    let parts = ["Discord", ".exe", ".EXE", " ", "é", "RTX", "5090", "-", "\u{2003}", "İ", "k"];
    let normal = |name: &str| {
        name.chars()
            .filter(|character| character.is_ascii_alphanumeric())
            .flat_map(char::to_lowercase)
            .collect::<String>()
    };
    for _ in 0..5_000 {
        let name = numbers.text(&parts, 5);
        let other = numbers.text(&parts, 4);
        let lowercase = name.trim().to_ascii_lowercase();
        let process = lowercase.strip_suffix(".exe").unwrap_or(&lowercase);
        assert_eq!(normalize_process_name(&name), process, "{name:?}");
        assert_eq!(normalized_device_name(&name), normal(&name), "{name:?}");
        let (left, right) = (normal(&name), normal(&other));
        assert_eq!(
            device_names_match(&name, &other),
            left == right || left.contains(&right) || right.contains(&left)
        );
        let client = Some(name.trim()).filter(|value| !value.is_empty() && value.len() <= 128);
        assert_eq!(client_name(&name), client);
        assert_eq!(
            port_digits(&name),
            name.chars().filter(char::is_ascii_digit).collect::<String>()
        );
    }
    assert_eq!(client_name(&"é".repeat(64)).map(str::len), Some(128));
    assert_eq!(client_name(&"é".repeat(65)), None);
}

#[test]
fn settings_are_parsed_as_by_the_standard_library() {
    let mut numbers = Numbers(0x4444_5555_6666_777B);
    let parts = [
        "0", "1", "40000", "65535", "65536", "-", ":", "monitor", "window", "test", "+", " ", "99",
        ".", "255", "256", "/", "@", "\u{85}", "x", "://", "00",
    ];
    for _ in 0..20_000 {
        let value = numbers.text(&parts, 6);

        let mut ends = value.split('-');
        let first = ends.next().and_then(|end| end.parse::<u16>().ok());
        let last = ends.next().unwrap_or(&value).parse::<u16>().ok();
        let range = match (first, last, ends.next()) {
            (Some(first), Some(last), None) => Some((first, last)),
            _ => None,
        };
        let found = parse_port_range(&value).ok();
        assert_eq!(found.map(|range| (range.first, range.last)), range, "{value:?}");

        let source = value.split_once(':').and_then(|(kind, identity)| {
            let index = identity.parse::<usize>().ok()?;
            ["monitor", "window", "test"]
                .contains(&kind)
                .then_some((kind.to_owned(), index))
        });
        let found = parse_source(&value).ok();
        assert_eq!(found.map(|source| (source.kind, source.index)), source, "{value:?}");

        assert_eq!(
            configured_group_count(&value),
            value.parse::<usize>().unwrap_or(2).clamp(1, 4),
            "{value:?}"
        );

        let host = value.trim();
        let usable = !host.is_empty()
            && host == value
            && !host.contains("://")
            && !host.chars().any(|character| {
                character.is_whitespace() || matches!(character, '/' | '\\' | '?' | '#' | '@' | ':')
            });
        assert_eq!(
            custom_viewer_host(&value),
            usable.then(|| host.to_owned()),
            "{value:?}"
        );

        let octets = value.split('.').collect::<Vec<_>>();
        let address = (octets.len() == 4
            && octets.iter().all(|octet| {
                !octet.is_empty()
                    && octet.len() <= 3
                    && octet.bytes().all(|byte| byte.is_ascii_digit())
                    && (octet.len() == 1 || !octet.starts_with('0'))
                    && octet.parse::<u8>().is_ok()
            }))
        .then(|| {
            octets
                .iter()
                .fold(0_u32, |ip, octet| ip * 256 + octet.parse::<u32>().unwrap())
        });
        assert_eq!(parse_ipv4(&value), address, "{value:?}");
    }
}

fn nvenc_devices(output: &str) -> Vec<(usize, String)> {
    let mut current: Option<(usize, String)> = None;
    let mut devices: Vec<(usize, String)> = Vec::new();
    let add = |devices: &mut Vec<(usize, String)>, device: Option<(usize, String)>| {
        if let Some(device) = device {
            if !devices.iter().any(|known| known.0 == device.0) {
                devices.push(device);
            }
        }
    };
    for line in output.lines() {
        if line.contains("[ GPU #") {
            add(&mut devices, current.take());
            if let Some((_, rest)) = line.split_once("[ GPU #") {
                if let Some((index, rest)) = rest.split_once(" - <") {
                    if let Ok(index) = index.trim().parse::<usize>() {
                        if let Some((name, _)) = rest.split_once(" >") {
                            current = Some((index, name.trim().to_owned()));
                        }
                    }
                }
            }
        }
        if line.contains("supports NVENC") {
            add(&mut devices, current.take());
        }
        if line.contains("does not support NVENC") {
            current = None;
        }
    }
    add(&mut devices, current);
    devices
}

#[test]
fn device_lists_are_read_as_by_the_standard_library() {
    let mut numbers = Numbers(0x5555_6666_7777_888D);
    let parts = [
        "[ GPU #", "0", "1", " 2", " - <", " RTX", " >", "\n", "\r\n", "supports NVENC",
        "does not support NVENC", " has Compute",
    ];
    for _ in 0..20_000 {
        let output = numbers.text(&parts, 16);
        let found = parse_ffmpeg_nvenc_devices(&output)
            .into_iter()
            .map(|device| (device.index, device.name))
            .collect::<Vec<_>>();
        assert_eq!(found, nvenc_devices(&output), "{output:?}");
    }
}

#[test]
fn codecs_are_chosen_as_by_the_standard_library() {
    let mut numbers = Numbers(0x6666_7777_8888_999F);
    let names = ["vp8", "vp9", "h264", "av1"];
    for _ in 0..5_000 {
        let mut some = || {
            names
                .iter()
                .filter(|_| numbers.below(2) == 0)
                .map(|name| name.to_string())
                .collect::<Vec<_>>()
        };
        let (host, supported, rejected) = (some(), some(), some());
        let policy = ["auto", "AUTO", "vp9", "H264", "av1", "x"][numbers.below(6)];
        let normal = policy.to_ascii_lowercase();
        let mut candidates = vec!["vp8", "vp9", "h264"];
        if normal != "auto" {
            candidates.insert(0, normal.as_str());
        }
        let has = |list: &Vec<String>, codec: &str| list.iter().any(|name| name == codec);
        let expected = candidates
            .into_iter()
            .find(|codec| {
                has(&host, codec)
                    && !has(&rejected, codec)
                    && (has(&supported, codec) || (supported.is_empty() && *codec == "vp8"))
            })
            .unwrap_or("vp8");
        assert_eq!(choose_codec(policy, &host, &supported, &rejected), expected);

        let parts = ["video/", "VP8", "vp9", "/", " ", "h264", "rtx", "AV1"];
        let types = (0..3).map(|_| numbers.text(&parts, 3)).collect::<Vec<_>>();
        let mut expected = types
            .iter()
            .filter_map(|kind| kind.trim().rsplit('/').next().map(str::to_ascii_lowercase))
            .filter(|codec| names.contains(&codec.as_str()))
            .collect::<Vec<_>>();
        expected.sort();
        expected.dedup();
        let probe = ViewerBootstrap {
            download_bps: 0,
            latency_ms: 0,
            timed_out: false,
            video_capabilities: types,
        };
        let mut found = viewer_supported_codecs(&probe);
        found.sort();
        assert_eq!(found, expected);
    }
}

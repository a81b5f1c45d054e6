//! Which encoders a host has, and how many quality groups they can serve.

use vstd::prelude::*;
use vstd::string::*;

use crate::config;
use crate::config::{clone_optional, MAX_QUALITY_GROUPS};
use crate::list;
use crate::text;

verus! {

/// The concurrent sessions that NVIDIA documents for its consumer adapters.
pub const NVIDIA_CONCURRENT_SESSION_LIMIT: usize = 12;

/// What is known of the FFmpeg of a host.
#[derive(Debug)]
pub struct FfmpegInfo {
    pub available: bool,
    pub command: String,
    pub version: Option<String>,
}

/// A video encoder that FFmpeg can use on a graphics adapter. `gpu_index` is the number that the
/// encoder's backend knows the adapter by.
#[derive(Debug)]
pub struct EncodingDevice {
    pub id: String,
    pub name: String,
    pub vendor: String,
    pub hardware: bool,
    pub gpu_index: Option<usize>,
    pub h264_encoder: Option<String>,
    pub h265_encoder: Option<String>,
    /// The sessions that the vendor allows at a time, where that is known.
    pub max_sessions: Option<usize>,
}

#[verifier::ext_equal]
pub struct DeviceView {
    pub id: Seq<char>,
    pub name: Seq<char>,
    pub vendor: Seq<char>,
    pub hardware: bool,
    pub gpu_index: Option<usize>,
    pub h264_encoder: Option<Seq<char>>,
    pub h265_encoder: Option<Seq<char>>,
    pub max_sessions: Option<usize>,
}

impl View for EncodingDevice {
    type V = DeviceView;

    open spec fn view(&self) -> DeviceView {
        DeviceView {
            id: self.id@,
            name: self.name@,
            vendor: self.vendor@,
            hardware: self.hardware,
            gpu_index: self.gpu_index,
            h264_encoder: config::optional_text(self.h264_encoder),
            h265_encoder: config::optional_text(self.h265_encoder),
            max_sessions: self.max_sessions,
        }
    }
}

pub open spec fn device_views(devices: Seq<EncodingDevice>) -> Seq<DeviceView> {
    devices.map_values(|d: EncodingDevice| d@)
}

/// An encoder that was chosen.
#[derive(Debug, PartialEq, Eq)]
pub struct SelectedEncoder {
    pub name: String,
    pub gpu_index: Option<usize>,
    pub qsv_device: Option<usize>,
}

#[verifier::ext_equal]
pub struct SelectedView {
    pub name: Seq<char>,
    pub gpu_index: Option<usize>,
    pub qsv_device: Option<usize>,
}

impl View for SelectedEncoder {
    type V = SelectedView;

    open spec fn view(&self) -> SelectedView {
        SelectedView {
            name: self.name@,
            gpu_index: self.gpu_index,
            qsv_device: self.qsv_device,
        }
    }
}

pub open spec fn software_view() -> DeviceView {
    DeviceView {
        id: "software"@,
        name: "Software (CPU)"@,
        vendor: "CPU"@,
        hardware: false,
        gpu_index: None,
        h264_encoder: Some("libx264"@),
        h265_encoder: Some("libx265"@),
        max_sessions: None,
    }
}

pub fn software_device() -> (r: EncodingDevice)
    ensures
        r@ == software_view(),
{
    EncodingDevice {
        id: "software".to_owned(),
        name: "Software (CPU)".to_owned(),
        vendor: "CPU".to_owned(),
        hardware: false,
        gpu_index: None,
        h264_encoder: Some("libx264".to_owned()),
        h265_encoder: Some("libx265".to_owned()),
        max_sessions: None,
    }
}

/// What FFmpeg is, from what it printed about its version, if it ran.
pub fn find_ffmpeg(command: Option<&str>, embedded: bool, version_output: Option<&str>) -> (r: FfmpegInfo)
    ensures
        match (command, version_output) {
            (Some(command), Some(output)) => {
                &&& r.available
                &&& r.command@ == if embedded {
                    "embedded FFmpeg"@
                } else {
                    command@
                }
                &&& config::optional_text(r.version) == first_line(output@)
            },
            _ => !r.available && r.command@ == "ffmpeg"@ && r.version is None,
        },
{
    match (command, version_output) {
        (Some(command), Some(output)) => FfmpegInfo {
            available: true,
            command: if embedded {
                "embedded FFmpeg".to_owned()
            } else {
                command.to_owned()
            },
            version: read_first_line(output),
        },
        _ => FfmpegInfo { available: false, command: "ffmpeg".to_owned(), version: None },
    }
}

/// The first line of a text, without its end.
pub open spec fn first_line(s: Seq<char>) -> Option<Seq<char>> {
    let line = text::split_seq(s, '\n')[0];
    if s.len() == 0 {
        None
    } else if line.len() < s.len() && line.len() > 0 && line.last() == '\r' {
        Some(line.drop_last())
    } else {
        Some(line)
    }
}

fn read_first_line(s: &str) -> (r: Option<String>)
    ensures
        config::optional_text(r) == first_line(s@),
{
    if s.is_empty() {
        return None;
    }
    let parts = text::split(s, '\n');
    assert(text::views_of(parts@)[0] == parts@[0]@);
    let line = parts[0];
    let length = line.unicode_len();
    if length < s.unicode_len() && length > 0 && line.get_char(length - 1) == '\r' {
        let cut = line.substring_char(0, length - 1);
        assert(cut@ =~= line@.drop_last());
        return Some(cut.to_owned());
    }
    Some(line.to_owned())
}

/// The encoder of a device for a codec.
pub open spec fn encoder_for(device: DeviceView, codec: Seq<char>) -> Option<Seq<char>> {
    let name = text::ascii_lower(codec);
    if name == "h264"@ {
        device.h264_encoder
    } else if name == "h265"@ || name == "hevc"@ {
        device.h265_encoder
    } else {
        None
    }
}

/// The device that a request names; `auto` takes the first adapter that has the codec.
pub open spec fn device_for(requested: Seq<char>, codec: Seq<char>, devices: Seq<DeviceView>) -> Option<int> {
    let auto = text::ascii_lower(requested) == text::ascii_lower("auto"@);
    list::first_in(
        0,
        devices.len() as int,
        |i: int|
            if auto {
                devices[i].hardware && encoder_for(devices[i], codec) is Some
            } else {
                devices[i].id == requested
            },
    )
}

/// Whether a device encodes through Intel Quick Sync.
pub open spec fn is_quick_sync(device: DeviceView) -> bool {
    device.vendor == "Intel"@ || match device.h264_encoder {
        Some(encoder) => text::ends_with_seq(encoder, "_qsv"@),
        None => match device.h265_encoder {
            Some(encoder) => text::ends_with_seq(encoder, "_qsv"@),
            None => false,
        },
    }
}

/// The encoder that a request leads to. A device without a number of its own leads to none.
pub open spec fn selection(requested: Seq<char>, codec: Seq<char>, devices: Seq<DeviceView>) -> Option<
    SelectedView,
> {
    match device_for(requested, codec, devices) {
        None => None,
        Some(i) => match (encoder_for(devices[i], codec), devices[i].gpu_index) {
            (Some(name), Some(gpu)) => Some(
                SelectedView {
                    name,
                    gpu_index: Some(gpu),
                    qsv_device: if is_quick_sync(devices[i]) {
                        Some(gpu)
                    } else {
                        None
                    },
                },
            ),
            _ => None,
        },
    }
}

fn device_encoder(device: &EncodingDevice, codec: &str) -> (r: Option<String>)
    ensures
        config::optional_text(r) == encoder_for(device@, codec@),
{
    let name = text::to_ascii_lowercase(codec);
    if text::text_eq(name.as_str(), "h264") {
        clone_optional(&device.h264_encoder)
    } else if text::text_eq(name.as_str(), "h265") || text::text_eq(name.as_str(), "hevc") {
        clone_optional(&device.h265_encoder)
    } else {
        None
    }
}

fn find_device(requested: &str, codec: &str, devices: &Vec<EncodingDevice>) -> (r: Option<usize>)
    ensures
        match r {
            Some(i) => device_for(requested@, codec@, device_views(devices@)) == Some(i as int) && i
                < devices@.len(),
            None => device_for(requested@, codec@, device_views(devices@)) is None,
        },
{
    let ghost views = device_views(devices@);
    let auto = text::eq_ignore_ascii_case(requested, "auto");
    let ghost p = |i: int|
        if auto {
            views[i].hardware && encoder_for(views[i], codec@) is Some
        } else {
            views[i].id == requested@
        };
    let mut i: usize = 0;
    while i < devices.len()
        invariant
            i <= devices@.len(),
            views == device_views(devices@),
            auto == (text::ascii_lower(requested@) == text::ascii_lower("auto"@)),
            p == (|i: int|
                if auto {
                    views[i].hardware && encoder_for(views[i], codec@) is Some
                } else {
                    views[i].id == requested@
                }),
            forall|j: int| 0 <= j < i ==> !#[trigger] p(j),
        decreases devices@.len() - i,
    {
        assert(views[i as int] == devices@[i as int]@);
        let fits = if auto {
            devices[i].hardware && device_encoder(&devices[i], codec).is_some()
        } else {
            text::text_eq(devices[i].id.as_str(), requested)
        };
        if fits {
            assert(p(i as int));
            proof {
                list::lemma_first_found(0, views.len() as int, p, i as int);
            }
            return Some(i);
        }
        assert(!p(i as int));
        i += 1;
    }
    proof {
        list::lemma_first_missing(0, views.len() as int, p);
    }
    None
}

pub fn resolve_video_encoder(requested_device: &str, codec: &str, devices: &Vec<EncodingDevice>) -> (r:
    Option<SelectedEncoder>)
    ensures
        match r {
            Some(selected) => selection(requested_device@, codec@, device_views(devices@)) == Some(
                selected@,
            ),
            None => selection(requested_device@, codec@, device_views(devices@)) is None,
        },
{
    let at = match find_device(requested_device, codec, devices) {
        Some(at) => at,
        None => {
            return None;
        },
    };
    assert(device_views(devices@)[at as int] == devices@[at as int]@);
    let device = &devices[at];
    match (device_encoder(device, codec), device.gpu_index) {
        (Some(name), Some(gpu)) => {
            let named = match (&device.h264_encoder, &device.h265_encoder) {
                (Some(encoder), _) => text::ends_with(encoder.as_str(), "_qsv"),
                (None, Some(encoder)) => text::ends_with(encoder.as_str(), "_qsv"),
                (None, None) => false,
            };
            let quick_sync = text::text_eq(device.vendor.as_str(), "Intel") || named;
            Some(
                SelectedEncoder {
                    name,
                    gpu_index: Some(gpu),
                    qsv_device: if quick_sync {
                        Some(gpu)
                    } else {
                        None
                    },
                },
            )
        },
        _ => None,
    }
}

/// The groups that a device serves: two by software, else what its vendor allows.
pub open spec fn device_budget(device: DeviceView) -> usize {
    if !device.hardware {
        2
    } else {
        let sessions = match device.max_sessions {
            Some(sessions) => sessions,
            None => 4,
        };
        if sessions < 1 {
            1
        } else if sessions > MAX_QUALITY_GROUPS {
            MAX_QUALITY_GROUPS
        } else {
            sessions
        }
    }
}

fn budget_of(device: &EncodingDevice) -> (r: usize)
    ensures
        r == device_budget(device@),
{
    if !device.hardware {
        return 2;
    }
    let sessions: usize = match device.max_sessions {
        Some(sessions) => sessions,
        None => 4,
    };
    if sessions < 1 {
        1
    } else if sessions > MAX_QUALITY_GROUPS {
        MAX_QUALITY_GROUPS
    } else {
        sessions
    }
}

/// The device whose budget counts for a request.
pub open spec fn budgeting_device(requested: Seq<char>, devices: Seq<DeviceView>) -> Option<int> {
    let auto = text::ascii_lower(requested) == text::ascii_lower("auto"@);
    list::first_in(
        0,
        devices.len() as int,
        |i: int|
            if auto {
                devices[i].hardware && (devices[i].h264_encoder is Some
                    || devices[i].h265_encoder is Some)
            } else {
                devices[i].id == requested
            },
    )
}

pub open spec fn group_budget(requested: Seq<char>, devices: Seq<DeviceView>) -> usize {
    if text::ascii_lower(requested) == text::ascii_lower("software"@) {
        2
    } else {
        match budgeting_device(requested, devices) {
            Some(i) => device_budget(devices[i]),
            None => 2,
        }
    }
}

/// The number of quality groups that a device serves when none is configured.
pub fn automatic_quality_group_budget(requested_device: &str, devices: &Vec<EncodingDevice>) -> (r:
    usize)
    ensures
        r == group_budget(requested_device@, device_views(devices@)),
{
    if text::eq_ignore_ascii_case(requested_device, "software") {
        return 2;
    }
    let ghost views = device_views(devices@);
    let auto = text::eq_ignore_ascii_case(requested_device, "auto");
    let ghost p = |i: int|
        if auto {
            views[i].hardware && (views[i].h264_encoder is Some || views[i].h265_encoder is Some)
        } else {
            views[i].id == requested_device@
        };
    let mut i: usize = 0;
    while i < devices.len()
        invariant
            i <= devices@.len(),
            views == device_views(devices@),
            text::ascii_lower(requested_device@) != text::ascii_lower("software"@),
            auto == (text::ascii_lower(requested_device@) == text::ascii_lower("auto"@)),
            p == (|i: int|
                if auto {
                    views[i].hardware && (views[i].h264_encoder is Some
                        || views[i].h265_encoder is Some)
                } else {
                    views[i].id == requested_device@
                }),
            forall|j: int| 0 <= j < i ==> !#[trigger] p(j),
        decreases devices@.len() - i,
    {
        assert(views[i as int] == devices@[i as int]@);
        let fits = if auto {
            devices[i].hardware && (devices[i].h264_encoder.is_some()
                || devices[i].h265_encoder.is_some())
        } else {
            text::text_eq(devices[i].id.as_str(), requested_device)
        };
        if fits {
            assert(p(i as int));
            proof {
                list::lemma_first_found(0, views.len() as int, p, i as int);
            }
            return budget_of(&devices[i]);
        }
        assert(!p(i as int));
        i += 1;
    }
    proof {
        list::lemma_first_missing(0, views.len() as int, p);
    }
    2
}

pub open spec fn is_software_codec(codec: Seq<char>) -> bool {
    text::ascii_lower(codec) == "vp8"@ || text::ascii_lower(codec) == "vp9"@
}

fn software_codec(codec: &str) -> (r: bool)
    ensures
        r == is_software_codec(codec@),
{
    let name = text::to_ascii_lowercase(codec);
    text::text_eq(name.as_str(), "vp8") || text::text_eq(name.as_str(), "vp9")
}

/// The largest budget of the first devices.
pub open spec fn largest_budget(devices: Seq<DeviceView>) -> usize
    decreases devices.len(),
{
    if devices.len() == 0 {
        2
    } else if devices.len() == 1 {
        device_budget(devices[0])
    } else {
        let rest = largest_budget(devices.drop_last());
        if rest >= device_budget(devices.last()) {
            rest
        } else {
            device_budget(devices.last())
        }
    }
}

/// The most quality groups that any device of the host serves.
pub fn maximum_quality_group_budget_for_codec(codec: &str, devices: &Vec<EncodingDevice>) -> (r: usize)
    ensures
        r == if is_software_codec(codec@) {
            2
        } else {
            largest_budget(device_views(devices@))
        },
{
    if software_codec(codec) {
        return 2;
    }
    let ghost views = device_views(devices@);
    if devices.len() == 0 {
        return 2;
    }
    assert(views[0] == devices@[0]@);
    let mut largest = budget_of(&devices[0]);
    let mut i: usize = 1;
    assert(views.take(1)[0] == views[0]);
    while i < devices.len()
        invariant
            1 <= i <= devices@.len(),
            views == device_views(devices@),
            largest == largest_budget(views.take(i as int)),
        decreases devices@.len() - i,
    {
        assert(views.take(i + 1).drop_last() =~= views.take(i as int));
        assert(views[i as int] == devices@[i as int]@);
        let budget = budget_of(&devices[i]);
        if budget > largest {
            largest = budget;
        }
        i += 1;
    }
    assert(views.take(i as int) =~= views);
    largest
}

pub fn automatic_quality_group_budget_for_codec(
    requested_device: &str,
    codec: &str,
    devices: &Vec<EncodingDevice>,
) -> (r: usize)
    ensures
        r == if is_software_codec(codec@) {
            2
        } else {
            group_budget(requested_device@, device_views(devices@))
        },
{
    if software_codec(codec) {
        2
    } else {
        automatic_quality_group_budget(requested_device, devices)
    }
}

/// A budget is at least one and no more than the most groups, and no device has more than the
/// largest one.
pub proof fn lemma_budgets_are_bounded(requested: Seq<char>, devices: Seq<DeviceView>)
    ensures
        1 <= group_budget(requested, devices) <= MAX_QUALITY_GROUPS,
        1 <= largest_budget(devices) <= MAX_QUALITY_GROUPS,
        forall|i: int|
            0 <= i < devices.len() ==> device_budget(#[trigger] devices[i]) <= largest_budget(
                devices,
            ),
    decreases devices.len(),
{
    if devices.len() > 1 {
        let rest = devices.drop_last();
        lemma_budgets_are_bounded(requested, rest);
        assert forall|i: int| 0 <= i < devices.len() implies device_budget(#[trigger] devices[i])
            <= largest_budget(devices) by {
            if i < rest.len() {
                assert(rest[i] == devices[i]);
            }
        }
    }
}

/// An adapter that FFmpeg lists as capable of NVENC.
#[derive(Debug, PartialEq, Eq)]
pub struct FfmpegNvencDevice {
    pub index: usize,
    pub name: String,
}

#[verifier::ext_equal]
pub struct NvencView {
    pub index: usize,
    pub name: Seq<char>,
}

impl View for FfmpegNvencDevice {
    type V = NvencView;

    open spec fn view(&self) -> NvencView {
        NvencView { index: self.index, name: self.name@ }
    }
}

pub open spec fn nvenc_views(devices: Seq<FfmpegNvencDevice>) -> Seq<NvencView> {
    devices.map_values(|d: FfmpegNvencDevice| d@)
}

pub open spec fn optional_nvenc(device: Option<FfmpegNvencDevice>) -> Option<NvencView> {
    match device {
        Some(device) => Some(device@),
        None => None,
    }
}

/// The adapter that a line names: `[ GPU #{index} - < {name} > ...`.
pub open spec fn named_adapter(line: Seq<char>) -> Option<NvencView> {
    match text::split_at_seq(line, "[ GPU #"@) {
        None => None,
        Some((_, rest)) => match text::split_at_seq(rest, " - <"@) {
            None => None,
            Some((index, name)) => match (
                text::parse_unsigned(text::trim_seq(index), usize::MAX as nat),
                text::split_at_seq(name, " >"@),
            ) {
                (Some(index), Some((name, _))) => Some(
                    NvencView { index: index as usize, name: text::trim_seq(name) },
                ),
                _ => None,
            },
        },
    }
}

fn parse_adapter(line: &str) -> (r: Option<FfmpegNvencDevice>)
    ensures
        optional_nvenc(r) == named_adapter(line@),
{
    let rest = match text::split_at_text(line, "[ GPU #") {
        Some((_, rest)) => rest,
        None => {
            return None;
        },
    };
    let (index, name) = match text::split_at_text(rest, " - <") {
        Some(parts) => parts,
        None => {
            return None;
        },
    };
    let index = match text::parse_number(text::trim(index), usize::MAX as u64) {
        Some(index) => index as usize,
        None => {
            return None;
        },
    };
    match text::split_at_text(name, " >") {
        Some((name, _)) => Some(
            FfmpegNvencDevice { index, name: text::trim(name).to_owned() },
        ),
        None => None,
    }
}

/// A list with one more adapter, unless its number is in it.
pub open spec fn with_adapter(devices: Seq<NvencView>, device: Option<NvencView>) -> Seq<NvencView> {
    match device {
        Some(device) => if exists|i: int|
            0 <= i < devices.len() && (#[trigger] devices[i]).index == device.index {
            devices
        } else {
            devices.push(device)
        },
        None => devices,
    }
}

fn has_adapter(devices: &Vec<FfmpegNvencDevice>, index: usize) -> (r: bool)
    ensures
        r == exists|i: int|
            0 <= i < devices@.len() && (#[trigger] nvenc_views(devices@)[i]).index == index,
{
    let ghost views = nvenc_views(devices@);
    let mut i: usize = 0;
    while i < devices.len()
        invariant
            i <= devices@.len(),
            views == nvenc_views(devices@),
            forall|j: int| 0 <= j < i ==> (#[trigger] views[j]).index != index,
        decreases devices@.len() - i,
    {
        assert(views[i as int] == devices@[i as int]@);
        if devices[i].index == index {
            return true;
        }
        i += 1;
    }
    false
}

fn add_adapter(devices: &mut Vec<FfmpegNvencDevice>, device: Option<FfmpegNvencDevice>)
    ensures
        nvenc_views(final(devices)@) == with_adapter(
            nvenc_views(old(devices)@),
            optional_nvenc(device),
        ),
{
    if let Some(device) = device {
        if !has_adapter(devices, device.index) {
            devices.push(device);
            assert(nvenc_views(devices@) =~= nvenc_views(old(devices)@).push(device@));
        }
    }
}

/// The adapters known after some lines, and the one whose verdict is outstanding.
pub open spec fn scanned(lines: Seq<Seq<char>>) -> (Seq<NvencView>, Option<NvencView>)
    decreases lines.len(),
{
    if lines.len() == 0 {
        (Seq::empty(), None)
    } else {
        let (devices, current) = scanned(lines.drop_last());
        let line = lines.last();
        let (devices, current) = if text::contains_seq(line, "[ GPU #"@) {
            (with_adapter(devices, current), named_adapter(line))
        } else {
            (devices, current)
        };
        let (devices, current) = if text::contains_seq(line, "supports NVENC"@) {
            (with_adapter(devices, current), None)
        } else {
            (devices, current)
        };
        if text::contains_seq(line, "does not support NVENC"@) {
            (devices, None)
        } else {
            (devices, current)
        }
    }
}

/// The adapters that FFmpeg lists as capable, each once.
pub open spec fn listed_adapters(output: Seq<char>) -> Seq<NvencView> {
    let (devices, current) = scanned(text::split_seq(output, '\n'));
    with_adapter(devices, current)
}

pub fn parse_ffmpeg_nvenc_devices(output: &str) -> (r: Vec<FfmpegNvencDevice>)
    ensures
        nvenc_views(r@) == listed_adapters(output@),
{
    let lines = text::split(output, '\n');
    let ghost all = text::split_seq(output@, '\n');
    let mut current: Option<FfmpegNvencDevice> = None;
    let mut devices: Vec<FfmpegNvencDevice> = Vec::new();
    let mut i: usize = 0;
    assert(nvenc_views(devices@) =~= Seq::empty());
    while i < lines.len()
        invariant
            i <= lines@.len(),
            text::views_of(lines@) == all,
            (nvenc_views(devices@), optional_nvenc(current)) == scanned(all.take(i as int)),
        decreases lines@.len() - i,
    {
        let line = lines[i];
        assert(all[i as int] == line@);
        assert(all.take(i + 1).drop_last() =~= all.take(i as int));
        if text::contains_text(line, "[ GPU #") {
            add_adapter(&mut devices, current);
            current = parse_adapter(line);
        }
        if text::contains_text(line, "supports NVENC") {
            add_adapter(&mut devices, current);
            current = None;
        }
        if text::contains_text(line, "does not support NVENC") {
            current = None;
        }
        i += 1;
    }
    assert(all.take(i as int) =~= all);
    add_adapter(&mut devices, current);
    devices
}

/// A graphics adapter as the platform describes it.
#[derive(Debug)]
pub struct AdapterData {
    pub index: usize,
    /// What identifies the adapter; it may be listed more than once.
    pub luid: u64,
    pub software: bool,
    pub vendor_id: u32,
    pub name: String,
}

pub open spec fn vendor_of(vendor_id: u32) -> Seq<char> {
    if vendor_id == 0x10de {
        "NVIDIA"@
    } else if vendor_id == 0x1002 {
        "AMD"@
    } else if vendor_id == 0x8086 {
        "Intel"@
    } else {
        "GPU"@
    }
}

fn vendor_name(vendor_id: u32) -> (r: &'static str)
    ensures
        r@ == vendor_of(vendor_id),
{
    if vendor_id == 0x10de {
        "NVIDIA"
    } else if vendor_id == 0x1002 {
        "AMD"
    } else if vendor_id == 0x8086 {
        "Intel"
    } else {
        "GPU"
    }
}

pub open spec fn seen_before(adapters: Seq<AdapterData>, n: int) -> bool {
    exists|j: int| 0 <= j < n && (#[trigger] adapters[j]).luid == adapters[n].luid
}

fn was_seen(adapters: &Vec<AdapterData>, n: usize) -> (r: bool)
    requires
        n < adapters@.len(),
    ensures
        r == seen_before(adapters@, n as int),
{
    let mut j: usize = 0;
    while j < n
        invariant
            j <= n < adapters@.len(),
            forall|k: int| 0 <= k < j ==> (#[trigger] adapters@[k]).luid != adapters@[n as int].luid,
        decreases n - j,
    {
        if adapters[j].luid == adapters[n].luid {
            return true;
        }
        j += 1;
    }
    false
}

/// A name's ASCII letters and digits, in small letters.
pub open spec fn normalized(name: Seq<char>) -> Seq<char>
    decreases name.len(),
{
    if name.len() == 0 {
        Seq::empty()
    } else {
        let rest = normalized(name.drop_last());
        if config::is_alphanumeric(name.last()) {
            rest.push(text::ascii_lower_char(name.last()))
        } else {
            rest
        }
    }
}

pub fn normalized_device_name(name: &str) -> (r: String)
    ensures
        r@ == normalized(name@),
{
    let chars = text::chars_of(name);
    let mut s = String::new();
    let mut i: usize = 0;
    while i < chars.len()
        invariant
            i <= chars@.len(),
            chars@ == name@,
            s@ == normalized(name@.take(i as int)),
        decreases chars@.len() - i,
    {
        let c = chars[i];
        assert(name@.take(i + 1).drop_last() =~= name@.take(i as int));
        if ('a' <= c && c <= 'z') || ('A' <= c && c <= 'Z') || ('0' <= c && c <= '9') {
            s.push(text::lower_char(c));
        }
        i += 1;
    }
    assert(name@.take(i as int) =~= name@);
    s
}

/// Two names of one device: the same letters and digits, or one within the other.
pub open spec fn names_match(left: Seq<char>, right: Seq<char>) -> bool {
    ||| normalized(left) == normalized(right)
    ||| text::contains_seq(normalized(left), normalized(right))
    ||| text::contains_seq(normalized(right), normalized(left))
}

pub fn device_names_match(left: &str, right: &str) -> (r: bool)
    ensures
        r == names_match(left@, right@),
{
    let left = normalized_device_name(left);
    let right = normalized_device_name(right);
    text::text_eq(left.as_str(), right.as_str()) || text::contains_text(
        left.as_str(),
        right.as_str(),
    ) || text::contains_text(right.as_str(), left.as_str())
}

pub open spec fn gpu_id(index: usize) -> Seq<char> {
    "gpu:"@ + text::decimal(index as nat)
}

fn gpu_name(index: usize) -> (r: String)
    ensures
        r@ == gpu_id(index),
{
    let mut s = "gpu:".to_owned();
    text::push_decimal(&mut s, index as u64);
    s
}

/// An encoder, if FFmpeg lists it.
pub open spec fn listed_encoder(listing: Seq<char>, encoder: Seq<char>) -> Option<Seq<char>> {
    if text::contains_seq(listing, encoder) {
        Some(encoder)
    } else {
        None
    }
}

pub open spec fn nvidia_view(device: NvencView, listing: Seq<char>) -> DeviceView {
    DeviceView {
        id: gpu_id(device.index),
        name: "NVIDIA · "@ + device.name,
        vendor: "NVIDIA"@,
        hardware: true,
        gpu_index: Some(device.index),
        h264_encoder: listed_encoder(listing, "h264_nvenc"@),
        h265_encoder: listed_encoder(listing, "hevc_nvenc"@),
        max_sessions: Some(NVIDIA_CONCURRENT_SESSION_LIMIT),
    }
}

fn encoder_if(listed: bool, encoder: &str) -> (r: Option<String>)
    ensures
        config::optional_text(r) == if listed {
            Some(encoder@)
        } else {
            None
        },
{
    if listed {
        Some(encoder.to_owned())
    } else {
        None
    }
}

pub fn nvidia_device(index: usize, name: &str, listing: &str) -> (r: EncodingDevice)
    ensures
        r@ == nvidia_view(NvencView { index, name: name@ }, listing@),
{
    EncodingDevice {
        id: gpu_name(index),
        name: text::joined("NVIDIA · ", name),
        vendor: "NVIDIA".to_owned(),
        hardware: true,
        gpu_index: Some(index),
        h264_encoder: encoder_if(text::contains_text(listing, "h264_nvenc"), "h264_nvenc"),
        h265_encoder: encoder_if(text::contains_text(listing, "hevc_nvenc"), "hevc_nvenc"),
        max_sessions: Some(NVIDIA_CONCURRENT_SESSION_LIMIT),
    }
}

/// The encoders of a vendor. Without a listing all of them are taken to be there.
pub open spec fn vendor_encoder(vendor: Seq<char>, listing: Seq<char>, h265: bool) -> Option<Seq<char>> {
    let encoder = if vendor == "AMD"@ {
        if h265 {
            "hevc_amf"@
        } else {
            "h264_amf"@
        }
    } else if vendor == "Intel"@ {
        if h265 {
            "hevc_qsv"@
        } else {
            "h264_qsv"@
        }
    } else {
        if h265 {
            "hevc_nvenc"@
        } else {
            "h264_nvenc"@
        }
    };
    if (vendor == "AMD"@ || vendor == "Intel"@ || vendor == "NVIDIA"@) && (listing.len() == 0
        || text::contains_seq(listing, encoder)) {
        Some(encoder)
    } else {
        None
    }
}

fn encoder_of_vendor(vendor: &str, listing: &str, h265: bool) -> (r: Option<String>)
    ensures
        config::optional_text(r) == vendor_encoder(vendor@, listing@, h265),
{
    let amd = text::text_eq(vendor, "AMD");
    let intel = text::text_eq(vendor, "Intel");
    let nvidia = text::text_eq(vendor, "NVIDIA");
    let encoder = if amd {
        if h265 {
            "hevc_amf"
        } else {
            "h264_amf"
        }
    } else if intel {
        if h265 {
            "hevc_qsv"
        } else {
            "h264_qsv"
        }
    } else {
        if h265 {
            "hevc_nvenc"
        } else {
            "h264_nvenc"
        }
    };
    let listed = listing.is_empty() || text::contains_text(listing, encoder);
    encoder_if((amd || intel || nvidia) && listed, encoder)
}

pub open spec fn adapter_device(index: usize, vendor: Seq<char>, name: Seq<char>, listing: Seq<char>) -> DeviceView {
    DeviceView {
        id: gpu_id(index),
        name: vendor + " · "@ + name,
        vendor,
        hardware: true,
        gpu_index: Some(index),
        h264_encoder: vendor_encoder(vendor, listing, false),
        h265_encoder: vendor_encoder(vendor, listing, true),
        max_sessions: None,
    }
}

fn describe_adapter(index: usize, vendor: &str, name: &str, listing: &str) -> (r: EncodingDevice)
    ensures
        r@ == adapter_device(index, vendor@, name@, listing@),
{
    let mut label = text::joined(vendor, " · ");
    label.append(name);
    EncodingDevice {
        id: gpu_name(index),
        name: label,
        vendor: vendor.to_owned(),
        hardware: true,
        gpu_index: Some(index),
        h264_encoder: encoder_of_vendor(vendor, listing, false),
        h265_encoder: encoder_of_vendor(vendor, listing, true),
        max_sessions: None,
    }
}

/// The first adapter of a list that has a name.
pub open spec fn nvenc_named(remaining: Seq<NvencView>, name: Seq<char>) -> Option<int> {
    list::first_in(
        0,
        remaining.len() as int,
        |i: int| names_match(name, remaining[i].name),
    )
}

fn find_nvenc(remaining: &Vec<FfmpegNvencDevice>, name: &str) -> (r: Option<usize>)
    ensures
        match r {
            Some(i) => nvenc_named(nvenc_views(remaining@), name@) == Some(i as int) && i
                < remaining@.len(),
            None => nvenc_named(nvenc_views(remaining@), name@) is None,
        },
{
    let ghost views = nvenc_views(remaining@);
    let ghost p = |i: int| names_match(name@, views[i].name);
    let mut i: usize = 0;
    while i < remaining.len()
        invariant
            i <= remaining@.len(),
            views == nvenc_views(remaining@),
            p == (|i: int| names_match(name@, views[i].name)),
            forall|j: int| 0 <= j < i ==> !#[trigger] p(j),
        decreases remaining@.len() - i,
    {
        assert(views[i as int] == remaining@[i as int]@);
        if device_names_match(name, remaining[i].name.as_str()) {
            assert(p(i as int));
            proof {
                list::lemma_first_found(0, views.len() as int, p, i as int);
            }
            return Some(i);
        }
        assert(!p(i as int));
        i += 1;
    }
    proof {
        list::lemma_first_missing(0, views.len() as int, p);
    }
    None
}

/// The devices of the adapters below `n`, behind those given, and the NVENC adapters that no
/// adapter has taken. An adapter counts once and only if it is no software; one of NVIDIA takes the
/// NVENC adapter of its name, where FFmpeg listed any, and is left out if there is none.
pub open spec fn adapter_devices(
    adapters: Seq<AdapterData>,
    n: int,
    listing: Seq<char>,
    nvenc: Option<Seq<NvencView>>,
    devices: Seq<DeviceView>,
) -> (Seq<DeviceView>, Option<Seq<NvencView>>)
    decreases n,
{
    if n <= 0 {
        (devices, nvenc)
    } else {
        let (devices, nvenc) = adapter_devices(adapters, n - 1, listing, nvenc, devices);
        let adapter = adapters[n - 1];
        let vendor = vendor_of(adapter.vendor_id);
        if seen_before(adapters, n - 1) || adapter.software {
            (devices, nvenc)
        } else if vendor == "NVIDIA"@ && nvenc is Some {
            match nvenc_named(nvenc->0, adapter.name@) {
                Some(i) => (
                    devices.push(nvidia_view(nvenc->0[i], listing)),
                    Some(nvenc->0.remove(i)),
                ),
                None => (devices, nvenc),
            }
        } else {
            (devices.push(adapter_device(adapter.index, vendor, adapter.name@, listing)), nvenc)
        }
    }
}

pub open spec fn optional_nvencs(devices: Option<Vec<FfmpegNvencDevice>>) -> Option<Seq<NvencView>> {
    match devices {
        Some(devices) => Some(nvenc_views(devices@)),
        None => None,
    }
}

/// All devices of a host: software, the adapters, and the NVENC adapters that are left. Where the
/// adapters cannot be listed, software is all there is.
pub open spec fn host_devices(
    listing: Seq<char>,
    nvenc: Option<Seq<NvencView>>,
    adapters: Option<Seq<AdapterData>>,
) -> Seq<DeviceView> {
    match adapters {
        Some(adapters) => {
            let (devices, remaining) = adapter_devices(
                adapters,
                adapters.len() as int,
                listing,
                nvenc,
                seq![software_view()],
            );
            match remaining {
                Some(remaining) => devices + remaining.map_values(
                    |d: NvencView| nvidia_view(d, listing),
                ),
                None => devices,
            }
        },
        None => seq![software_view()],
    }
}

pub open spec fn adapter_list(adapters: Option<&Vec<AdapterData>>) -> Option<Seq<AdapterData>> {
    match adapters {
        Some(adapters) => Some(adapters@),
        None => None,
    }
}

/// Enumerates the devices of a host. `adapters` is what the platform lists, in its order, if it can.
pub fn discover_encoding_devices(
    listing: &str,
    nvenc_devices: Option<Vec<FfmpegNvencDevice>>,
    adapters: Option<&Vec<AdapterData>>,
) -> (r: Vec<EncodingDevice>)
    ensures
        device_views(r@) == host_devices(
            listing@,
            optional_nvencs(nvenc_devices),
            adapter_list(adapters),
        ),
{
    let mut remaining = nvenc_devices;
    let mut devices: Vec<EncodingDevice> = Vec::new();
    devices.push(software_device());
    let ghost first = seq![software_view()];
    let ghost given = optional_nvencs(nvenc_devices);
    assert(device_views(devices@) =~= first);
    let adapters = match adapters {
        Some(adapters) => adapters,
        None => {
            return devices;
        },
    };
    let mut n: usize = 0;
    while n < adapters.len()
        invariant
            n <= adapters@.len(),
            first == seq![software_view()],
            (device_views(devices@), optional_nvencs(remaining)) == adapter_devices(
                adapters@,
                n as int,
                listing@,
                given,
                first,
            ),
        decreases adapters@.len() - n,
    {
        let ghost before = devices@;
        let adapter = &adapters[n];
        if !was_seen(adapters, n) && !adapter.software {
            let vendor = vendor_name(adapter.vendor_id);
            let nvidia = text::text_eq(vendor, "NVIDIA");
            if nvidia && remaining.is_some() {
                remaining = match remaining {
                    Some(list) => {
                        let mut list = list;
                        let ghost all = nvenc_views(list@);
                        if let Some(at) = find_nvenc(&list, adapter.name.as_str()) {
                            let device = list.remove(at);
                            assert(all[at as int] == device@);
                            assert(nvenc_views(list@) =~= all.remove(at as int));
                            devices.push(
                                nvidia_device(device.index, device.name.as_str(), listing),
                            );
                            assert(device_views(devices@) =~= device_views(before).push(
                                nvidia_view(device@, listing@),
                            ));
                        }
                        Some(list)
                    },
                    None => None,
                };
            } else {
                devices.push(
                    describe_adapter(adapter.index, vendor, adapter.name.as_str(), listing),
                );
                assert(device_views(devices@) =~= device_views(before).push(devices@.last()@));
            }
        }
        n += 1;
    }
    let ghost found = device_views(devices@);
    if let Some(list) = remaining {
        let ghost left = nvenc_views(list@).map_values(|d: NvencView| nvidia_view(d, listing@));
        let mut k: usize = 0;
        assert(device_views(devices@) =~= found + left.take(0));
        while k < list.len()
            invariant
                k <= list@.len(),
                left == nvenc_views(list@).map_values(|d: NvencView| nvidia_view(d, listing@)),
                device_views(devices@) == found + left.take(k as int),
            decreases list@.len() - k,
        {
            let ghost before = devices@;
            devices.push(nvidia_device(list[k].index, list[k].name.as_str(), listing));
            assert(left[k as int] == nvidia_view(list@[k as int]@, listing@));
            assert(device_views(devices@) =~= device_views(before).push(left[k as int]));
            k += 1;
            assert(device_views(devices@) =~= found + left.take(k as int));
        }
        assert(left.take(k as int) =~= left);
    }
    devices
}

/// The devices that were discovered with the host's FFmpeg. Without one, software is all there is.
pub fn discover_local_encoding_devices(discovered: Option<Vec<EncodingDevice>>) -> (r: Vec<
    EncodingDevice,
>)
    ensures
        device_views(r@) == match discovered {
            Some(devices) => device_views(devices@),
            None => seq![software_view()],
        },
{
    match discovered {
        Some(devices) => devices,
        None => {
            let mut devices: Vec<EncodingDevice> = Vec::new();
            devices.push(software_device());
            assert(device_views(devices@) =~= seq![software_view()]);
            devices
        },
    }
}

/// Which encoder FFmpeg is asked for its NVENC adapters, if it has one.
pub fn nvenc_probe_encoder(listing: &str) -> (r: Option<&'static str>)
    ensures
        match r {
            Some(encoder) => encoder@ == if text::contains_seq(listing@, "h264_nvenc"@) {
                "h264_nvenc"@
            } else {
                "hevc_nvenc"@
            } && text::contains_seq(listing@, encoder@),
            None => !text::contains_seq(listing@, "h264_nvenc"@) && !text::contains_seq(
                listing@,
                "hevc_nvenc"@,
            ),
        },
{
    if text::contains_text(listing, "h264_nvenc") {
        Some("h264_nvenc")
    } else if text::contains_text(listing, "hevc_nvenc") {
        Some("hevc_nvenc")
    } else {
        None
    }
}

/// The encoder that is chosen is one of a device that was asked for, or of a hardware device if any
/// will do, and it encodes the wanted codec.
pub proof fn lemma_selected_encoder_fits(
    requested: Seq<char>,
    codec: Seq<char>,
    devices: Seq<DeviceView>,
)
    ensures
        selection(requested, codec, devices) matches Some(selected) ==> exists|i: int|
            {
                &&& 0 <= i < devices.len()
                &&& (#[trigger] devices[i]).gpu_index == selected.gpu_index
                &&& selected.gpu_index is Some
                &&& devices[i].id == requested || (devices[i].hardware && text::ascii_lower(
                    requested,
                ) == text::ascii_lower("auto"@))
                &&& (text::ascii_lower(codec) == "h264"@ && devices[i].h264_encoder == Some(
                    selected.name,
                )) || (text::ascii_lower(codec) != "h264"@ && devices[i].h265_encoder == Some(
                    selected.name,
                ))
                &&& devices[i].vendor == "Intel"@ ==> selected.qsv_device == selected.gpu_index
            },
        text::ascii_lower(codec) == "vp8"@ || text::ascii_lower(codec) == "vp9"@ ==> selection(
            requested,
            codec,
            devices,
        ) is None,
{
    reveal_strlit("vp8");
    reveal_strlit("vp9");
    reveal_strlit("h264");
    reveal_strlit("h265");
    reveal_strlit("hevc");
    assert("vp8"@.len() == 3 && "vp9"@.len() == 3 && "h264"@.len() == 4 && "h265"@.len() == 4
        && "hevc"@.len() == 4);
    let auto = text::ascii_lower(requested) == text::ascii_lower("auto"@);
    let p = |i: int|
        if auto {
            devices[i].hardware && encoder_for(devices[i], codec) is Some
        } else {
            devices[i].id == requested
        };
    list::lemma_first_in_range(0, devices.len() as int, p);
    if let Some(i) = device_for(requested, codec, devices) {
        assert(devices[i] == devices[i]);
    }
}

/// The first device that fits is the one that is chosen.
pub proof fn lemma_first_fitting_device_is_chosen(
    requested: Seq<char>,
    codec: Seq<char>,
    devices: Seq<DeviceView>,
    at: int,
    gpu: usize,
)
    requires
        0 <= at < devices.len(),
        text::ascii_lower(requested) == text::ascii_lower("auto"@),
        text::ascii_lower(codec) == "h264"@,
        devices[at].hardware,
        devices[at].h264_encoder is Some,
        devices[at].gpu_index == Some(gpu),
        forall|j: int|
            0 <= j < at ==> !(#[trigger] devices[j]).hardware || devices[j].h264_encoder is None,
    ensures
        ({
            let selected = selection(requested, codec, devices);
            &&& selected is Some
            &&& devices[at].h264_encoder == Some(selected->0.name)
            &&& selected->0.gpu_index == Some(gpu)
        }),
{
    let p = |i: int|
        if text::ascii_lower(requested) == text::ascii_lower("auto"@) {
            devices[i].hardware && encoder_for(devices[i], codec) is Some
        } else {
            devices[i].id == requested
        };
    list::lemma_first_found(0, devices.len() as int, p, at);
}

/// A device that cannot say how many streams it encodes is trusted with four, software with two; one
/// that can is believed, up to the most groups there may be.
pub proof fn lemma_device_budgets(device: DeviceView)
    ensures
        !device.hardware ==> device_budget(device) == 2,
        device.hardware && device.max_sessions is None ==> device_budget(device) == 4,
        device.hardware && device.max_sessions is Some && 1 <= device.max_sessions->0
            <= MAX_QUALITY_GROUPS ==> device_budget(device) == device.max_sessions->0,
        1 <= device_budget(device) <= MAX_QUALITY_GROUPS,
{
}

/// Software comes first among the devices, and all others are hardware with a number.
pub proof fn lemma_software_comes_first(
    listing: Seq<char>,
    nvenc: Option<Seq<NvencView>>,
    adapters: Option<Seq<AdapterData>>,
)
    ensures
        ({
            let devices = host_devices(listing, nvenc, adapters);
            &&& devices.len() > 0
            &&& !devices[0].hardware
            &&& devices[0].id == "software"@
            &&& forall|i: int|
                0 < i < devices.len() ==> (#[trigger] devices[i]).hardware && devices[i].gpu_index
                    is Some
            &&& adapters is None ==> devices.len() == 1
        }),
{
    if let Some(list) = adapters {
        lemma_adapters_are_hardware(list, list.len() as int, listing, nvenc);
        let (devices, remaining) = adapter_devices(
            list,
            list.len() as int,
            listing,
            nvenc,
            seq![software_view()],
        );
        if let Some(left) = remaining {
            let more = left.map_values(|d: NvencView| nvidia_view(d, listing));
            assert forall|i: int| 0 < i < (devices + more).len() implies (#[trigger] (devices
                + more)[i]).hardware && (devices + more)[i].gpu_index is Some by {
                if i >= devices.len() {
                    assert((devices + more)[i] == nvidia_view(left[i - devices.len()], listing));
                }
            }
        }
    }
}

proof fn lemma_adapters_are_hardware(
    adapters: Seq<AdapterData>,
    n: int,
    listing: Seq<char>,
    nvenc: Option<Seq<NvencView>>,
)
    requires
        n <= adapters.len(),
    ensures
        ({
            let devices = adapter_devices(adapters, n, listing, nvenc, seq![software_view()]).0;
            &&& devices.len() > 0
            &&& devices[0] == software_view()
            &&& forall|i: int|
                0 < i < devices.len() ==> (#[trigger] devices[i]).hardware && devices[i].gpu_index
                    is Some
        }),
    decreases n,
{
    if n > 0 {
        lemma_adapters_are_hardware(adapters, n - 1, listing, nvenc);
    }
}

/// The same adapter under two numbers is listed once, and a software adapter not at all: neither adds
/// a device.
pub proof fn lemma_repeated_adapters_add_nothing(
    adapters: Seq<AdapterData>,
    adapter: AdapterData,
    listing: Seq<char>,
    nvenc: Option<Seq<NvencView>>,
)
    requires
        adapter.software || exists|j: int|
            0 <= j < adapters.len() && (#[trigger] adapters[j]).luid == adapter.luid,
    ensures
        host_devices(listing, nvenc, Some(adapters.push(adapter))) == host_devices(
            listing,
            nvenc,
            Some(adapters),
        ),
{
    let more = adapters.push(adapter);
    let n = adapters.len() as int;
    lemma_same_adapters(adapters, more, n, listing, nvenc);
    assert(more[n] == adapter);
    if !adapter.software {
        let j = choose|j: int| 0 <= j < n && (#[trigger] adapters[j]).luid == adapter.luid;
        assert(more[j] == adapters[j]);
        assert(seen_before(more, n));
    }
}

proof fn lemma_same_adapters(
    a: Seq<AdapterData>,
    b: Seq<AdapterData>,
    n: int,
    listing: Seq<char>,
    nvenc: Option<Seq<NvencView>>,
)
    requires
        0 <= n <= a.len(),
        n <= b.len(),
        forall|i: int| 0 <= i < n ==> a[i] == b[i],
    ensures
        adapter_devices(a, n, listing, nvenc, seq![software_view()]) == adapter_devices(
            b,
            n,
            listing,
            nvenc,
            seq![software_view()],
        ),
    decreases n,
{
    if n > 0 {
        lemma_same_adapters(a, b, n - 1, listing, nvenc);
        assert(seen_before(a, n - 1) == seen_before(b, n - 1)) by {
            if seen_before(a, n - 1) {
                let j = choose|j: int|
                    0 <= j < n - 1 && (#[trigger] a[j]).luid == a[n - 1].luid;
                assert(b[j] == a[j]);
            }
            if seen_before(b, n - 1) {
                let j = choose|j: int|
                    0 <= j < n - 1 && (#[trigger] b[j]).luid == b[n - 1].luid;
                assert(a[j] == b[j]);
            }
        }
    }
}

/// An encoder counts as available exactly where its name stands in the listing.
pub proof fn lemma_listed_encoders(before: Seq<char>, encoder: Seq<char>, after: Seq<char>)
    requires
        encoder.len() > 0,
    ensures
        listed_encoder(before + encoder + after, encoder) == Some(encoder),
        listed_encoder(Seq::empty(), encoder) is None,
{
    let listing = before + encoder + after;
    let at = before.len() as int;
    assert(listing.skip(at) =~= encoder + after);
    assert(encoder =~= listing.skip(at).take(encoder.len() as int));
    assert(encoder.is_prefix_of(listing.skip(at)));
}

} // verus!

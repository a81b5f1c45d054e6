//! Which source is selected, and what a selection does to the configuration.

use vstd::prelude::*;
use vstd::string::*;

use crate::capture;
use crate::capture::{CaptureSourceInfo, SourceInfoView};
use crate::config;
use crate::config::{
    default_audio_exclusions, AppConfig, AppConfigView, SourceSpecView,
};
use crate::list;
use crate::network;
use crate::preview::CapturePreviewSnapshot;
use crate::text;

verus! {

#[derive(Clone, Copy, Debug, PartialEq, Eq, Structural)]
pub enum SourceTab {
    Displays,
    Windows,
    TestPattern,
}

/// The tab that shows a kind of source.
pub fn tab_for_kind(kind: &str) -> (r: SourceTab)
    ensures
        r == if kind@ == "window"@ {
            SourceTab::Windows
        } else if kind@ == "test"@ {
            SourceTab::TestPattern
        } else {
            SourceTab::Displays
        },
{
    if text::text_eq(kind, "window") {
        SourceTab::Windows
    } else if text::text_eq(kind, "test") {
        SourceTab::TestPattern
    } else {
        SourceTab::Displays
    }
}

/// Whether a source is the selected one: by its native number where the selection has one, else by
/// its place.
pub fn source_matches_selection(
    source: &CaptureSourceInfo,
    source_kind: &str,
    source_index: usize,
    source_native_id: Option<u64>,
) -> (r: bool)
    ensures
        r == capture::is_source(
            SourceSpecView {
                kind: source_kind@,
                index: source_index,
                native_id: source_native_id,
            },
            source@,
        ),
{
    let same = match source_native_id {
        Some(native_id) => match source.native_id {
            Some(id) => id == native_id,
            None => false,
        },
        None => source.index == source_index,
    };
    same && text::text_eq(source.kind.as_str(), source_kind)
}

/// The first listed source that a selection means.
pub open spec fn selected_at(selection: SourceSpecView, sources: Seq<SourceInfoView>) -> Option<int> {
    list::first_in(
        0,
        sources.len() as int,
        |i: int| capture::is_source(selection, sources[i]),
    )
}

pub fn find_selected(
    sources: &Vec<CaptureSourceInfo>,
    source_kind: &str,
    source_index: usize,
    source_native_id: Option<u64>,
) -> (r: Option<usize>)
    ensures
        ({
            let selection = SourceSpecView {
                kind: source_kind@,
                index: source_index,
                native_id: source_native_id,
            };
            match r {
                Some(i) => selected_at(selection, capture::source_views(sources@)) == Some(
                    i as int,
                ) && i < sources@.len() && capture::is_source(
                    selection,
                    capture::source_views(sources@)[i as int],
                ),
                None => selected_at(selection, capture::source_views(sources@)) is None
                    && forall|i: int|
                    0 <= i < sources@.len() ==> !capture::is_source(
                        selection,
                        #[trigger] capture::source_views(sources@)[i],
                    ),
            }
        }),
{
    let ghost selection = SourceSpecView {
        kind: source_kind@,
        index: source_index,
        native_id: source_native_id,
    };
    let ghost views = capture::source_views(sources@);
    let ghost p = |i: int| capture::is_source(selection, views[i]);
    let mut i: usize = 0;
    while i < sources.len()
        invariant
            i <= sources@.len(),
            selection == (SourceSpecView {
                kind: source_kind@,
                index: source_index,
                native_id: source_native_id,
            }),
            views == capture::source_views(sources@),
            p == (|i: int| capture::is_source(selection, views[i])),
            forall|j: int| 0 <= j < i ==> !#[trigger] p(j),
            forall|j: int| 0 <= j < i ==> !capture::is_source(selection, #[trigger] views[j]),
        decreases sources@.len() - i,
    {
        assert(views[i as int] == sources@[i as int]@);
        if source_matches_selection(&sources[i], source_kind, source_index, source_native_id) {
            assert(p(i as int));
            proof {
                list::lemma_first_found(0, views.len() as int, p, i as int);
            }
            return Some(i);
        }
        assert(!p(i as int));
        i += 1;
    }
    proof {
        list::lemma_first_missing(0, views.len() as int, p);
    }
    None
}

pub open spec fn is_valid_selection(
    source_selected: bool,
    selection: SourceSpecView,
    sources: Seq<SourceInfoView>,
) -> bool {
    source_selected && (selection.kind == "test"@ || exists|i: int|
        0 <= i < sources.len() && capture::is_source(selection, #[trigger] sources[i]))
}

/// A stream can start only from a source that was chosen and is there.
pub fn source_selection_is_valid(
    source_selected: bool,
    source_kind: &str,
    source_index: usize,
    source_native_id: Option<u64>,
    sources: &Vec<CaptureSourceInfo>,
) -> (r: bool)
    ensures
        r == is_valid_selection(
            source_selected,
            SourceSpecView {
                kind: source_kind@,
                index: source_index,
                native_id: source_native_id,
            },
            capture::source_views(sources@),
        ),
{
    if !source_selected {
        return false;
    }
    text::text_eq(source_kind, "test") || find_selected(
        sources,
        source_kind,
        source_index,
        source_native_id,
    ).is_some()
}

/// Whether a chosen source gives the selection another place: not if it is the same window, whose
/// place among the windows means nothing.
pub fn source_index_should_update(
    current_kind: &str,
    current_native_id: Option<u64>,
    next_kind: &str,
    next_native_id: Option<u64>,
) -> (r: bool)
    ensures
        r == !(current_kind@ == "window"@ && next_kind@ == "window"@ && next_native_id is Some
            && current_native_id == next_native_id),
{
    let same = match (current_native_id, next_native_id) {
        (Some(current), Some(next)) => current == next,
        _ => false,
    };
    !(same && text::text_eq(current_kind, "window") && text::text_eq(next_kind, "window"))
}

pub open spec fn other_kinds(sources: Seq<SourceInfoView>, kind: Seq<char>) -> Seq<SourceInfoView> {
    list::kept(sources, |s: SourceInfoView| s.kind != kind)
}

/// Replaces the sources of one kind.
pub fn replace_sources_for_kind(
    sources: &mut Vec<CaptureSourceInfo>,
    kind: &str,
    replacements: Vec<CaptureSourceInfo>,
)
    ensures
        capture::source_views(final(sources)@) == other_kinds(
            capture::source_views(old(sources)@),
            kind@,
        ) + capture::source_views(replacements@),
{
    let ghost before = capture::source_views(sources@);
    let ghost keeps = |s: SourceInfoView| s.kind != kind@;
    let ghost mut seen: int = 0;
    let mut i: usize = 0;
    assert(list::kept(before.take(0), keeps) + before.skip(0) =~= before);
    while i < sources.len()
        invariant
            keeps == (|s: SourceInfoView| s.kind != kind@),
            before == capture::source_views(old(sources)@),
            0 <= seen <= before.len(),
            i == list::kept(before.take(seen), keeps).len(),
            capture::source_views(sources@) == list::kept(before.take(seen), keeps) + before.skip(
                seen,
            ),
        decreases sources@.len() - i,
    {
        let ghost front = list::kept(before.take(seen), keeps);
        let ghost all = capture::source_views(sources@);
        assert(all.len() == sources@.len());
        assert(seen < before.len());
        assert(all[i as int] == before[seen]);
        assert(all[i as int] == sources@[i as int]@);
        assert(before.take(seen + 1).drop_last() =~= before.take(seen));
        if text::text_eq(sources[i].kind.as_str(), kind) {
            let _ = sources.remove(i);
            assert(capture::source_views(sources@) =~= all.remove(i as int));
            assert(capture::source_views(sources@) =~= front + before.skip(seen + 1));
        } else {
            i += 1;
            assert(capture::source_views(sources@) =~= front.push(before[seen]) + before.skip(
                seen + 1,
            ));
        }
        proof {
            seen = seen + 1;
        }
    }
    proof {
        assert(capture::source_views(sources@).len() == sources@.len());
        assert(before.skip(seen).len() == 0);
        assert(before.take(seen) =~= before);
        assert(capture::source_views(sources@) =~= other_kinds(before, kind@));
    }
    let ghost front = sources@;
    let ghost back = replacements@;
    let mut more = replacements;
    sources.append(&mut more);
    assert(capture::source_views(sources@) =~= capture::source_views(front)
        + capture::source_views(back));
}

/// Whether a list holds a window of a native number.
pub open spec fn has_native(sources: Seq<SourceInfoView>, native_id: u64) -> bool {
    exists|i: int| 0 <= i < sources.len() && (#[trigger] sources[i]).native_id == Some(native_id)
}

fn holds_native(sources: &Vec<CaptureSourceInfo>, native_id: u64) -> (r: bool)
    ensures
        r == has_native(capture::source_views(sources@), native_id),
{
    find_native(sources, native_id).is_some()
}

pub open spec fn native_at(sources: Seq<SourceInfoView>, native_id: u64) -> Option<int> {
    list::first_in(0, sources.len() as int, |i: int| sources[i].native_id == Some(native_id))
}

fn find_native(sources: &Vec<CaptureSourceInfo>, native_id: u64) -> (r: Option<usize>)
    ensures
        match r {
            Some(i) => native_at(capture::source_views(sources@), native_id) == Some(i as int) && i
                < sources@.len() && has_native(capture::source_views(sources@), native_id),
            None => native_at(capture::source_views(sources@), native_id) is None && !has_native(
                capture::source_views(sources@),
                native_id,
            ),
        },
{
    let ghost views = capture::source_views(sources@);
    let ghost p = |i: int| views[i].native_id == Some(native_id);
    let mut i: usize = 0;
    while i < sources.len()
        invariant
            i <= sources@.len(),
            views == capture::source_views(sources@),
            p == (|i: int| views[i].native_id == Some(native_id)),
            forall|j: int| 0 <= j < i ==> !#[trigger] p(j),
            forall|j: int| 0 <= j < i ==> (#[trigger] views[j]).native_id != Some(native_id),
        decreases sources@.len() - i,
    {
        assert(views[i as int] == sources@[i as int]@);
        let named = match sources[i].native_id {
            Some(id) => id == native_id,
            None => false,
        };
        if named {
            assert(p(i as int));
            proof {
                list::lemma_first_found(0, views.len() as int, p, i as int);
            }
            return Some(i);
        }
        assert(!p(i as int));
        i += 1;
    }
    proof {
        list::lemma_first_missing(0, views.len() as int, p);
    }
    None
}

/// What the platform says of the selected window.
#[derive(Clone, Copy, Debug, PartialEq, Eq, Structural)]
pub struct WindowPresence {
    pub exists: bool,
    pub is_element: bool,
}

/// The listed sources with the selected window, which stays selected while it exists, though the
/// platform may not list it for a while.
pub open spec fn with_selected_native(
    sources: Seq<SourceInfoView>,
    previous: Seq<SourceInfoView>,
    source_selected: bool,
    kind: Seq<char>,
    native_id: Option<u64>,
    presence: WindowPresence,
    with_elements: bool,
) -> Seq<SourceInfoView> {
    match native_id {
        None => sources,
        Some(id) => if source_selected && kind == "window"@ && presence.exists && !has_native(
            sources,
            id,
        ) && (with_elements || !presence.is_element) {
            match native_at(previous, id) {
                Some(i) => sources.push(previous[i]),
                None => sources,
            }
        } else {
            sources
        },
    }
}

pub fn retain_selected_native_source(
    sources: &mut Vec<CaptureSourceInfo>,
    previous_sources: &Vec<CaptureSourceInfo>,
    source_selected: bool,
    source_kind: &str,
    source_native_id: Option<u64>,
    presence: WindowPresence,
    display_non_window_elements: bool,
)
    ensures
        capture::source_views(final(sources)@) == with_selected_native(
            capture::source_views(old(sources)@),
            capture::source_views(previous_sources@),
            source_selected,
            source_kind@,
            source_native_id,
            presence,
            display_non_window_elements,
        ),
{
    let native_id = match source_native_id {
        Some(native_id) => native_id,
        None => {
            return;
        },
    };
    if !source_selected || !text::text_eq(source_kind, "window") || !presence.exists
        || holds_native(sources, native_id) {
        return;
    }
    if !display_non_window_elements && presence.is_element {
        return;
    }
    if let Some(at) = find_native(previous_sources, native_id) {
        let ghost before = sources@;
        sources.push(previous_sources[at].clone());
        assert(capture::source_views(previous_sources@)[at as int] == previous_sources@[at as int]@);
        assert(capture::source_views(sources@) =~= capture::source_views(before).push(
            previous_sources@[at as int]@,
        ));
    }
}

/// The listed windows with those below `n` of the previous list that still exist though they were
/// not listed this time. `available` are the native numbers that the platform still knows,
/// `elements` those of surfaces that are no windows.
pub open spec fn with_unlisted(
    sources: Seq<SourceInfoView>,
    previous: Seq<SourceInfoView>,
    n: int,
    with_elements: bool,
    available: Seq<u64>,
    elements: Seq<u64>,
) -> Seq<SourceInfoView>
    decreases n,
{
    if n <= 0 {
        sources
    } else {
        let rest = with_unlisted(sources, previous, n - 1, with_elements, available, elements);
        let source = previous[n - 1];
        match source.native_id {
            Some(id) => if source.kind == "window"@ && !has_native(rest, id) && available.contains(
                id,
            ) && (with_elements || !elements.contains(id)) {
                rest.push(source)
            } else {
                rest
            },
            None => rest,
        }
    }
}

fn holds_number(numbers: &Vec<u64>, number: u64) -> (r: bool)
    ensures
        r == numbers@.contains(number),
{
    let mut i: usize = 0;
    while i < numbers.len()
        invariant
            i <= numbers@.len(),
            forall|j: int| 0 <= j < i ==> numbers@[j] != number,
        decreases numbers@.len() - i,
    {
        if numbers[i] == number {
            return true;
        }
        i += 1;
    }
    false
}

pub fn retain_temporarily_unenumerated_windows(
    sources: &mut Vec<CaptureSourceInfo>,
    previous_sources: &Vec<CaptureSourceInfo>,
    display_non_window_elements: bool,
    available: &Vec<u64>,
    elements: &Vec<u64>,
)
    ensures
        capture::source_views(final(sources)@) == with_unlisted(
            capture::source_views(old(sources)@),
            capture::source_views(previous_sources@),
            previous_sources@.len() as int,
            display_non_window_elements,
            available@,
            elements@,
        ),
{
    let ghost before = capture::source_views(sources@);
    let ghost previous = capture::source_views(previous_sources@);
    let mut n: usize = 0;
    while n < previous_sources.len()
        invariant
            n <= previous_sources@.len(),
            before == capture::source_views(old(sources)@),
            previous == capture::source_views(previous_sources@),
            capture::source_views(sources@) == with_unlisted(
                before,
                previous,
                n as int,
                display_non_window_elements,
                available@,
                elements@,
            ),
        decreases previous_sources@.len() - n,
    {
        assert(previous[n as int] == previous_sources@[n as int]@);
        if let Some(native_id) = previous_sources[n].native_id {
            if text::text_eq(previous_sources[n].kind.as_str(), "window") && !holds_native(
                sources,
                native_id,
            ) && holds_number(available, native_id) && (display_non_window_elements
                || !holds_number(elements, native_id)) {
                let ghost shorter = sources@;
                sources.push(previous_sources[n].clone());
                assert(capture::source_views(sources@) =~= capture::source_views(shorter).push(
                    previous[n as int],
                ));
            }
        }
        n += 1;
    }
}

/// Whether a snapshot of the running capture shows a source.
pub open spec fn shows_source(snapshot: CapturePreviewSnapshot, source: SourceInfoView) -> bool {
    snapshot.settings@.source_kind == source.kind && match (
        snapshot.settings@.source_native_id,
        source.native_id,
    ) {
        (Some(active), Some(requested)) => active == requested,
        (None, None) => snapshot.settings@.source_index == source.index,
        _ => false,
    }
}

pub fn snapshot_matches_source(snapshot: &CapturePreviewSnapshot, source: &CaptureSourceInfo) -> (r:
    bool)
    ensures
        r == shows_source(*snapshot, source@),
{
    let same = match (snapshot.settings.source_native_id, source.native_id) {
        (Some(active), Some(requested)) => active == requested,
        (None, None) => snapshot.settings.source_index == source.index,
        _ => false,
    };
    same && text::text_eq(snapshot.settings.source_kind.as_str(), source.kind.as_str())
}

/// The configuration with which the viewer server starts before a source is chosen. A remembered
/// window is not trusted.
pub open spec fn bootstrap_config(config: AppConfigView) -> AppConfigView {
    AppConfigView {
        source: SourceSpecView { kind: "test"@, index: 0, native_id: None },
        audio_mode: "off"@,
        ..config
    }
}

pub fn server_bootstrap_config(config: &AppConfig) -> (r: AppConfig)
    ensures
        r@ == bootstrap_config(config@),
{
    let mut bootstrap = config.clone();
    bootstrap.source.kind = "test".to_owned();
    bootstrap.source.index = 0;
    bootstrap.source.native_id = None;
    bootstrap.audio_mode = "off".to_owned();
    bootstrap
}

/// A test pattern has no size and no rate of its own: presets take the place of the source's.
pub open spec fn with_pattern_presets(config: AppConfigView) -> AppConfigView {
    AppConfigView {
        quality: if config.quality == "source"@ {
            "1080p"@
        } else {
            config.quality
        },
        fps_preset: if config.fps_preset == "source"@ {
            "60"@
        } else {
            config.fps_preset
        },
        adaptive_quality_ceiling: if config.adaptive_quality_ceiling == "source"@ {
            "1080p"@
        } else {
            config.adaptive_quality_ceiling
        },
        adaptive_fps_ceiling: if config.adaptive_fps_ceiling == "source"@ {
            "60"@
        } else {
            config.adaptive_fps_ceiling
        },
        ..config
    }
}

pub fn apply_pattern_presets(config: &mut AppConfig)
    ensures
        final(config)@ == with_pattern_presets(old(config)@),
{
    if text::text_eq(config.quality.as_str(), "source") {
        config.quality = "1080p".to_owned();
    }
    if text::text_eq(config.fps_preset.as_str(), "source") {
        config.fps_preset = "60".to_owned();
    }
    if text::text_eq(config.adaptive_quality_ceiling.as_str(), "source") {
        config.adaptive_quality_ceiling = "1080p".to_owned();
    }
    if text::text_eq(config.adaptive_fps_ceiling.as_str(), "source") {
        config.adaptive_fps_ceiling = "60".to_owned();
    }
}

/// Chooses the test pattern, which has no audio.
pub fn choose_test_pattern(config: &mut AppConfig)
    ensures
        final(config)@ == with_pattern_presets(bootstrap_config(old(config)@)),
{
    config.source.kind = "test".to_owned();
    config.source.index = 0;
    config.source.native_id = None;
    config.audio_mode = "off".to_owned();
    apply_pattern_presets(config);
}

/// The first listed source of a kind.
pub open spec fn first_of_kind(sources: Seq<SourceInfoView>, kind: Seq<char>) -> Option<int> {
    list::first_in(0, sources.len() as int, |i: int| sources[i].kind == kind)
}

/// Another tab is opened: a test pattern is left for the first source of the tab's kind.
pub open spec fn left_test_pattern(
    config: AppConfigView,
    sources: Seq<SourceInfoView>,
    kind: Seq<char>,
) -> AppConfigView {
    if config.source.kind != "test"@ {
        config
    } else {
        AppConfigView {
            source: match first_of_kind(sources, kind) {
                Some(i) => SourceSpecView {
                    kind: sources[i].kind,
                    index: sources[i].index,
                    native_id: sources[i].native_id,
                },
                None => SourceSpecView { kind, index: 0, native_id: None },
            },
            ..config
        }
    }
}

fn find_kind(sources: &Vec<CaptureSourceInfo>, kind: &str) -> (r: Option<usize>)
    ensures
        match r {
            Some(i) => first_of_kind(capture::source_views(sources@), kind@) == Some(i as int) && i
                < sources@.len(),
            None => first_of_kind(capture::source_views(sources@), kind@) is None,
        },
{
    let ghost views = capture::source_views(sources@);
    let ghost p = |i: int| views[i].kind == kind@;
    let mut i: usize = 0;
    while i < sources.len()
        invariant
            i <= sources@.len(),
            views == capture::source_views(sources@),
            p == (|i: int| views[i].kind == kind@),
            forall|j: int| 0 <= j < i ==> !#[trigger] p(j),
        decreases sources@.len() - i,
    {
        assert(views[i as int] == sources@[i as int]@);
        if text::text_eq(sources[i].kind.as_str(), kind) {
            assert(p(i as int));
            proof {
                list::lemma_first_found(0, views.len() as int, p, i as int);
            }
            return Some(i);
        }
        assert(!p(i as int));
        i += 1;
    }
    proof {
        list::lemma_first_missing(0, views.len() as int, p);
    }
    None
}

pub fn leave_test_pattern(config: &mut AppConfig, sources: &Vec<CaptureSourceInfo>, kind: &str)
    ensures
        final(config)@ == left_test_pattern(
            old(config)@,
            capture::source_views(sources@),
            kind@,
        ),
{
    if !text::text_eq(config.source.kind.as_str(), "test") {
        return;
    }
    match find_kind(sources, kind) {
        Some(at) => {
            assert(capture::source_views(sources@)[at as int] == sources@[at as int]@);
            config.source.kind = sources[at].kind.clone();
            config.source.index = sources[at].index;
            config.source.native_id = sources[at].native_id;
        },
        None => {
            config.source.kind = kind.to_owned();
            config.source.index = 0;
            config.source.native_id = None;
        },
    }
}

/// A source is chosen. Audio follows it: that of a window stays with windows, that of the system
/// with displays.
pub open spec fn with_source(config: AppConfigView, source: SourceInfoView) -> AppConfigView {
    let same_window = config.source.kind == "window"@ && source.kind == "window"@
        && source.native_id is Some && config.source.native_id == source.native_id;
    AppConfigView {
        source: SourceSpecView {
            kind: source.kind,
            index: if same_window {
                config.source.index
            } else {
                source.index
            },
            native_id: source.native_id,
        },
        audio_mode: if source.kind == "monitor"@ && config.audio_mode == "window"@ {
            "system"@
        } else if source.kind == "window"@ && config.audio_mode == "system"@ {
            "window"@
        } else {
            config.audio_mode
        },
        ..config
    }
}

pub fn select_source(config: &mut AppConfig, source: &CaptureSourceInfo)
    ensures
        final(config)@ == with_source(old(config)@, source@),
{
    let update_index = source_index_should_update(
        config.source.kind.as_str(),
        config.source.native_id,
        source.kind.as_str(),
        source.native_id,
    );
    config.source.kind = source.kind.clone();
    if update_index {
        config.source.index = source.index;
    }
    config.source.native_id = source.native_id;
    if text::text_eq(source.kind.as_str(), "monitor") && text::text_eq(
        config.audio_mode.as_str(),
        "window",
    ) {
        config.audio_mode = "system".to_owned();
    } else if text::text_eq(source.kind.as_str(), "window") && text::text_eq(
        config.audio_mode.as_str(),
        "system",
    ) {
        config.audio_mode = "window".to_owned();
    }
}

/// A chosen source is the selected one, until the platform numbers its windows anew.
pub proof fn lemma_chosen_source_is_selected(
    config: AppConfigView,
    source: SourceInfoView,
    sources: Seq<SourceInfoView>,
)
    requires
        sources.contains(source),
    ensures
        is_valid_selection(true, with_source(config, source).source, sources),
{
    let i = choose|i: int| 0 <= i < sources.len() && sources[i] == source;
    assert(capture::is_source(with_source(config, source).source, sources[i]));
}

/// The application in a window's name.
pub open spec fn process_of(name: Seq<char>) -> Seq<char> {
    match text::split_once_seq(name, ':') {
        Some((before, _)) => text::trim_seq(before),
        None => name,
    }
}

/// Whether some listed window belongs to an application.
pub open spec fn runs(sources: Seq<SourceInfoView>, process: Seq<char>) -> bool {
    process.len() > 0 && exists|i: int|
        0 <= i < sources.len() && (#[trigger] sources[i]).kind == "window"@ && process_of(
            sources[i].name,
        ) == process
}

/// Texts in the order of their small letters.
pub open spec fn is_ordered(names: Seq<Seq<char>>) -> bool {
    forall|i: int, j: int|
        0 <= i < j < names.len() ==> !text::precedes(
            text::ascii_lower(#[trigger] names[j]),
            text::ascii_lower(#[trigger] names[i]),
        )
}

fn insert_name(names: &mut Vec<String>, name: String)
    requires
        is_ordered(config::texts(old(names)@)),
        list::distinct(config::texts(old(names)@)),
    ensures
        is_ordered(config::texts(final(names)@)),
        list::distinct(config::texts(final(names)@)),
        forall|s: Seq<char>| #[trigger]
            config::texts(final(names)@).contains(s) <==> config::texts(old(names)@).contains(s)
                || s == name@,
{
    let ghost before = config::texts(names@);
    let ghost added = name@;
    let lower = text::to_ascii_lowercase(name.as_str());
    let mut at: usize = 0;
    let mut i: usize = 0;
    let mut found = false;
    while i < names.len()
        invariant
            i <= names@.len(),
            names@ == old(names)@,
            before == config::texts(names@),
            is_ordered(before),
            list::distinct(before),
            name@ == added,
            lower@ == text::ascii_lower(added),
            found ==> at < i && text::precedes(
                text::ascii_lower(added),
                text::ascii_lower(before[at as int]),
            ),
            !found ==> at == i,
            forall|j: int|
                0 <= j < at ==> !text::precedes(
                    text::ascii_lower(added),
                    text::ascii_lower(#[trigger] before[j]),
                ),
            forall|j: int| 0 <= j < i ==> before[j] != added,
        decreases names@.len() - i,
    {
        assert(before[i as int] == names@[i as int]@);
        if text::text_eq(names[i].as_str(), name.as_str()) {
            assert(before.contains(added));
            return;
        }
        if !found {
            let other = text::to_ascii_lowercase(names[i].as_str());
            if text::text_precedes(lower.as_str(), other.as_str()) {
                found = true;
            } else {
                at = i + 1;
            }
        }
        i += 1;
    }
    names.insert(at, name);
    let ghost after = config::texts(names@);
    proof {
        assert(after =~= before.insert(at as int, added));
        assert forall|a: int, b: int| 0 <= a < b < after.len() implies !text::precedes(
            text::ascii_lower(#[trigger] after[b]),
            text::ascii_lower(#[trigger] after[a]),
        ) by {
            let low = |k: int| if k < at { k } else { k - 1 };
            if a != at && b != at {
                assert(after[a] == before[low(a)] && after[b] == before[low(b)]);
            } else if b == at {
                assert(after[a] == before[a]);
            } else {
                assert(after[b] == before[b - 1]);
                if text::precedes(text::ascii_lower(before[b - 1]), text::ascii_lower(added)) {
                    text::lemma_precedes_is_transitive(
                        text::ascii_lower(before[b - 1]),
                        text::ascii_lower(added),
                        text::ascii_lower(before[at as int]),
                    );
                    if b - 1 > at {
                        assert(!text::precedes(
                            text::ascii_lower(before[b - 1]),
                            text::ascii_lower(before[at as int]),
                        ));
                    } else {
                        lemma_never_before_itself(text::ascii_lower(before[at as int]));
                    }
                }
            }
        }
        assert forall|a: int, b: int| 0 <= a < b < after.len() implies after[a] != after[b] by {
            let low = |k: int| if k < at { k } else { k - 1 };
            if a != at {
                assert(after[a] == before[low(a)]);
            }
            if b != at {
                assert(after[b] == before[low(b)]);
            }
        }
        assert forall|s: Seq<char>| #[trigger]
            after.contains(s) <==> before.contains(s) || s == added by {
            if before.contains(s) {
                let k = choose|k: int| 0 <= k < before.len() && before[k] == s;
                if k < at {
                    assert(after[k] == s);
                } else {
                    assert(after[k + 1] == s);
                }
            }
            if s == added {
                assert(after[at as int] == s);
            }
            if after.contains(s) && s != added {
                let k = choose|k: int| 0 <= k < after.len() && after[k] == s;
                if k < at {
                    assert(before[k] == s);
                } else {
                    assert(before[k - 1] == s);
                }
            }
        }
    }
}

proof fn lemma_never_before_itself(s: Seq<char>)
    ensures
        !text::precedes(s, s),
    decreases s.len(),
{
    if s.len() > 0 {
        lemma_never_before_itself(s.drop_first());
    }
}

/// The applications whose audio can be left out: those of the listed windows, each once, in
/// alphabetical order. The order of names that differ only in the case of their letters is open.
pub fn available_audio_processes(sources: &Vec<CaptureSourceInfo>) -> (r: Vec<String>)
    ensures
        is_ordered(config::texts(r@)),
        list::distinct(config::texts(r@)),
        forall|process: Seq<char>| #[trigger]
            config::texts(r@).contains(process) <==> runs(capture::source_views(sources@), process),
{
    let ghost views = capture::source_views(sources@);
    let mut names: Vec<String> = Vec::new();
    let mut i: usize = 0;
    while i < sources.len()
        invariant
            i <= sources@.len(),
            views == capture::source_views(sources@),
            is_ordered(config::texts(names@)),
            list::distinct(config::texts(names@)),
            forall|process: Seq<char>| #[trigger]
                config::texts(names@).contains(process) <==> runs(views.take(i as int), process),
        decreases sources@.len() - i,
    {
        let ghost earlier = config::texts(names@);
        assert(views[i as int] == sources@[i as int]@);
        let process = match text::split_once(sources[i].name.as_str(), ':') {
            Some((before, _)) => text::trim(before).to_owned(),
            None => sources[i].name.clone(),
        };
        assert(process@ == process_of(views[i as int].name));
        let ghost named = process@;
        let counts = text::text_eq(sources[i].kind.as_str(), "window")
            && !process.as_str().is_empty();
        if counts {
            insert_name(&mut names, process);
        }
        proof {
            let front = views.take(i as int);
            let more = views.take(i + 1);
            assert forall|p: Seq<char>| #[trigger]
                config::texts(names@).contains(p) <==> runs(more, p) by {
                if runs(front, p) {
                    let k = choose|k: int|
                        0 <= k < front.len() && (#[trigger] front[k]).kind == "window"@
                            && process_of(front[k].name) == p;
                    assert(more[k] == front[k]);
                }
                if runs(more, p) {
                    let k = choose|k: int|
                        0 <= k < more.len() && (#[trigger] more[k]).kind == "window"@
                            && process_of(more[k].name) == p;
                    if k < i {
                        assert(front[k] == more[k]);
                    }
                }
                if counts && p == named {
                    assert(more[i as int] == views[i as int]);
                }
                assert(earlier.contains(p) <==> runs(front, p));
            }
        }
        i += 1;
    }
    assert(views.take(i as int) =~= views);
    names
}

/// The audio that a tab offers.
pub fn audio_mode_for_tab(tab: SourceTab) -> (r: &'static str)
    ensures
        r@ == if tab == SourceTab::Windows {
            "window"@
        } else {
            "system"@
        },
{
    match tab {
        SourceTab::Windows => "window",
        _ => "system",
    }
}

/// Whether a name is on the list of what is left out, in any case of its letters.
pub open spec fn is_listed(names: Seq<Seq<char>>, name: Seq<char>) -> bool {
    exists|i: int|
        0 <= i < names.len() && text::ascii_lower(#[trigger] names[i]) == text::ascii_lower(name)
}

pub fn is_excluded(names: &Vec<String>, name: &str) -> (r: bool)
    ensures
        r == is_listed(config::texts(names@), name@),
{
    let ghost views = config::texts(names@);
    let mut i: usize = 0;
    while i < names.len()
        invariant
            i <= names@.len(),
            views == config::texts(names@),
            forall|j: int|
                0 <= j < i ==> text::ascii_lower(#[trigger] views[j]) != text::ascii_lower(name@),
        decreases names@.len() - i,
    {
        assert(views[i as int] == names@[i as int]@);
        if text::eq_ignore_ascii_case(names[i].as_str(), name) {
            return true;
        }
        i += 1;
    }
    false
}

/// Takes a name off the list, wherever it stands on it.
pub fn remove_exclusion(names: &mut Vec<String>, name: &str)
    ensures
        config::texts(final(names)@) == list::kept(
            config::texts(old(names)@),
            |n: Seq<char>| n != name@,
        ),
{
    let ghost before = config::texts(names@);
    let ghost p = |n: Seq<char>| n != name@;
    let mut kept: Vec<String> = Vec::new();
    let mut i: usize = 0;
    assert(config::texts(kept@) =~= list::kept(before.take(0), p));
    while i < names.len()
        invariant
            i <= names@.len(),
            before == config::texts(names@),
            p == (|n: Seq<char>| n != name@),
            config::texts(kept@) == list::kept(before.take(i as int), p),
        decreases names@.len() - i,
    {
        assert(before[i as int] == names@[i as int]@);
        assert(before.take(i + 1).drop_last() =~= before.take(i as int));
        if !text::text_eq(names[i].as_str(), name) {
            let ghost shorter = kept@;
            kept.push(names[i].clone());
            assert(config::texts(kept@) =~= config::texts(shorter).push(before[i as int]));
        }
        i += 1;
    }
    assert(before.take(i as int) =~= before);
    *names = kept;
}

/// The list with the usual names among the first `n` that are running and not on it yet.
pub open spec fn with_defaults(
    excluded: Seq<Seq<char>>,
    defaults: Seq<Seq<char>>,
    n: int,
    available: Seq<Seq<char>>,
) -> Seq<Seq<char>>
    decreases n,
{
    if n <= 0 {
        excluded
    } else {
        let rest = with_defaults(excluded, defaults, n - 1, available);
        if is_listed(available, defaults[n - 1]) && !is_listed(rest, defaults[n - 1]) {
            rest.push(defaults[n - 1])
        } else {
            rest
        }
    }
}

/// Puts the usual applications on the list, as far as they are running.
pub fn add_default_exclusions(excluded: &mut Vec<String>, available: &Vec<String>)
    ensures
        config::texts(final(excluded)@) == with_defaults(
            config::texts(old(excluded)@),
            config::default_exclusions(),
            config::default_exclusions().len() as int,
            config::texts(available@),
        ),
{
    let defaults = default_audio_exclusions();
    let ghost usual = config::default_exclusions();
    let ghost before = config::texts(excluded@);
    let mut n: usize = 0;
    while n < defaults.len()
        invariant
            n <= defaults@.len(),
            defaults@.len() == usual.len(),
            config::texts(defaults@) == usual,
            before == config::texts(old(excluded)@),
            config::texts(excluded@) == with_defaults(
                before,
                usual,
                n as int,
                config::texts(available@),
            ),
        decreases defaults@.len() - n,
    {
        assert(usual[n as int] == defaults@[n as int]@);
        if is_excluded(available, defaults[n].as_str()) && !is_excluded(
            excluded,
            defaults[n].as_str(),
        ) {
            let ghost shorter = excluded@;
            excluded.push(defaults[n].clone());
            assert(config::texts(excluded@) =~= config::texts(shorter).push(usual[n as int]));
        }
        n += 1;
    }
}

#[derive(Clone, Copy, Debug, PartialEq, Eq, Structural)]
pub enum ViewerUrlMode {
    Local,
    Lan,
    Public,
    Custom,
}

/// How the viewer URL names this host at first.
pub open spec fn initial_mode(config: AppConfigView, local: Option<Seq<char>>) -> ViewerUrlMode {
    match config.advertise_host {
        Some(host) => if host == "127.0.0.1"@ {
            ViewerUrlMode::Local
        } else if local == Some(host) {
            ViewerUrlMode::Lan
        } else if config.bind == "public"@ && network::ipv4_of(host) is Some {
            ViewerUrlMode::Public
        } else {
            ViewerUrlMode::Custom
        },
        None => if config.bind == "localhost"@ || config.bind == "loopback"@ {
            ViewerUrlMode::Local
        } else if config.bind == "lan"@ || config.bind == "all"@ || config.bind == "public"@ {
            ViewerUrlMode::Public
        } else {
            ViewerUrlMode::Custom
        },
    }
}

pub open spec fn initial_custom_host(config: AppConfigView, local: Option<Seq<char>>) -> Seq<char> {
    if initial_mode(config, local) == ViewerUrlMode::Custom {
        match config.advertise_host {
            Some(host) => host,
            None => config.bind,
        }
    } else {
        Seq::empty()
    }
}

pub open spec fn initial_public_address(config: AppConfigView, local: Option<Seq<char>>) -> Option<
    Seq<char>,
> {
    match config.advertise_host {
        Some(host) => if initial_mode(config, local) == ViewerUrlMode::Public && network::ipv4_of(
            host,
        ) is Some {
            Some(host)
        } else {
            None
        },
        None => None,
    }
}

/// How the viewer URL names this host at first, a name of its own, and the public address.
pub fn initial_viewer_url_state(config: &AppConfig, local: Option<&str>) -> (r: (
    ViewerUrlMode,
    String,
    Option<String>,
))
    ensures
        ({
            let local = match local {
                Some(address) => Some(address@),
                None => None,
            };
            &&& r.0 == initial_mode(config@, local)
            &&& r.1@ == initial_custom_host(config@, local)
            &&& config::optional_text(r.2) == initial_public_address(config@, local)
        }),
{
    let bind = config.bind.as_str();
    match &config.advertise_host {
        Some(host) => {
            let is_local = match local {
                Some(address) => text::text_eq(address, host.as_str()),
                None => false,
            };
            let is_address = network::parse_ipv4(host.as_str()).is_some();
            if text::text_eq(host.as_str(), "127.0.0.1") {
                (ViewerUrlMode::Local, String::new(), None)
            } else if is_local {
                (ViewerUrlMode::Lan, String::new(), None)
            } else if text::text_eq(bind, "public") && is_address {
                (ViewerUrlMode::Public, String::new(), Some(host.clone()))
            } else {
                (ViewerUrlMode::Custom, host.clone(), None)
            }
        },
        None => {
            if text::text_eq(bind, "localhost") || text::text_eq(bind, "loopback") {
                (ViewerUrlMode::Local, String::new(), None)
            } else if text::text_eq(bind, "lan") || text::text_eq(bind, "all") || text::text_eq(
                bind,
                "public",
            ) {
                (ViewerUrlMode::Public, String::new(), None)
            } else {
                (ViewerUrlMode::Custom, config.bind.clone(), None)
            }
        },
    }
}

/// A character that cannot stand in a host's name.
pub open spec fn is_forbidden(c: char) -> bool {
    text::is_white_space(c) || c == '/' || c == '\\' || c == '?' || c == '#' || c == '@' || c == ':'
}

pub open spec fn is_plain_host(value: Seq<char>) -> bool {
    value.len() > 0 && forall|i: int| 0 <= i < value.len() ==> !is_forbidden(#[trigger] value[i])
}

/// A host's name as it was typed, if it can stand in a URL: no scheme, no path, no port.
pub fn custom_viewer_host(value: &str) -> (r: Option<String>)
    ensures
        match r {
            Some(host) => is_plain_host(value@) && host@ == value@,
            None => !is_plain_host(value@),
        },
{
    let chars = text::chars_of(value);
    if chars.len() == 0 {
        return None;
    }
    let mut i: usize = 0;
    while i < chars.len()
        invariant
            i <= chars@.len(),
            chars@ == value@,
            forall|j: int| 0 <= j < i ==> !is_forbidden(#[trigger] value@[j]),
        decreases chars@.len() - i,
    {
        let c = chars[i];
        if text::white_space(c) || c == '/' || c == '\\' || c == '?' || c == '#' || c == '@' || c
            == ':' {
            assert(is_forbidden(value@[i as int]));
            return None;
        }
        i += 1;
    }
    Some(value.to_owned())
}

/// The server starts with the test pattern and without audio, whatever the configuration names.
pub proof fn lemma_server_starts_with_the_pattern(config: AppConfigView)
    ensures
        ({
            let start = bootstrap_config(config);
            &&& start.source.kind == "test"@
            &&& start.source.native_id is None
            &&& start.audio_mode == "off"@
            &&& start.token == config.token && start.http_port == config.http_port
            &&& start.quality == config.quality && start.codec == config.codec
        }),
{
}

/// A source that is chosen brings the kind of audio that it can have, and nothing else changes; a
/// window that is chosen again keeps its place.
pub proof fn lemma_chosen_source(config: AppConfigView, source: SourceInfoView)
    ensures
        ({
            let after = with_source(config, source);
            &&& after.source.kind == source.kind
            &&& after.source.native_id == source.native_id
            &&& source.native_id is None ==> after.source.index == source.index
            &&& source.kind == "monitor"@ ==> after.audio_mode != "window"@
            &&& source.kind == "window"@ ==> after.audio_mode != "system"@
            &&& config.audio_mode == "off"@ ==> after.audio_mode == "off"@
            &&& after == (AppConfigView {
                source: after.source,
                audio_mode: after.audio_mode,
                ..config
            })
        }),
{
    reveal_strlit("window");
    reveal_strlit("system");
    reveal_strlit("monitor");
    reveal_strlit("off");
    assert("window"@[0] != "system"@[0] && "off"@.len() == 3 && "window"@.len() == 6 && "system"@.len()
        == 6 && "monitor"@.len() == 7);
}

/// Sources of other kinds stay when those of one kind are listed anew.
pub proof fn lemma_other_kinds_stay(sources: Seq<SourceInfoView>, kind: Seq<char>, source: SourceInfoView)
    ensures
        other_kinds(sources, kind).contains(source) <==> sources.contains(source) && source.kind
            != kind,
{
    list::lemma_kept_contains(sources, |s: SourceInfoView| s.kind != kind, source);
}

/// A selected window that is still there is kept in the list though a search does not find it; one
/// that is gone is not.
pub proof fn lemma_selected_window_stays(
    sources: Seq<SourceInfoView>,
    previous: Seq<SourceInfoView>,
    native_id: u64,
    presence: WindowPresence,
    with_elements: bool,
    k: int,
)
    requires
        0 <= k < previous.len(),
        previous[k].native_id == Some(native_id),
    ensures
        ({
            let after = with_selected_native(
                sources,
                previous,
                true,
                "window"@,
                Some(native_id),
                presence,
                with_elements,
            );
            &&& presence.exists && (with_elements || !presence.is_element) ==> has_native(
                after,
                native_id,
            )
            &&& !presence.exists ==> after == sources
        }),
{
    let p = |i: int| previous[i].native_id == Some(native_id);
    list::lemma_first_is_least(0, previous.len() as int, p, k);
    list::lemma_first_in_range(0, previous.len() as int, p);
    let after = with_selected_native(
        sources,
        previous,
        true,
        "window"@,
        Some(native_id),
        presence,
        with_elements,
    );
    if presence.exists && (with_elements || !presence.is_element) {
        if !has_native(sources, native_id) {
            assert(after[after.len() - 1].native_id == Some(native_id));
        }
    }
}

/// The pattern cannot follow a source, so its presets name a size and a rate.
pub proof fn lemma_pattern_presets(config: AppConfigView)
    ensures
        ({
            let after = with_pattern_presets(config);
            &&& after.quality != "source"@ && after.fps_preset != "source"@
            &&& after.adaptive_quality_ceiling != "source"@ && after.adaptive_fps_ceiling
                != "source"@
            &&& config.quality != "source"@ ==> after.quality == config.quality
            &&& config.fps_preset != "source"@ ==> after.fps_preset == config.fps_preset
        }),
{
    reveal_strlit("source");
    reveal_strlit("1080p");
    reveal_strlit("60");
    assert("source"@.len() == 6 && "1080p"@.len() == 5 && "60"@.len() == 2);
}

/// The window shows at first what the configuration names: a host of its own where one is advertised,
/// in whichever way it is counted.
pub proof fn lemma_first_viewer_host(config: AppConfigView, local: Option<Seq<char>>)
    ensures
        config.advertise_host matches Some(host) ==> match initial_mode(config, local) {
            ViewerUrlMode::Local => host == "127.0.0.1"@,
            ViewerUrlMode::Lan => local == Some(host),
            ViewerUrlMode::Public => initial_public_address(config, local) == Some(host)
                && network::ipv4_of(host) is Some,
            ViewerUrlMode::Custom => initial_custom_host(config, local) == host && local != Some(
                host,
            ),
        },
        initial_mode(config, local) != ViewerUrlMode::Custom ==> initial_custom_host(config, local)
            == Seq::<char>::empty(),
        config.advertise_host is None && (config.bind == "localhost"@ || config.bind == "loopback"@)
            ==> initial_mode(config, local) == ViewerUrlMode::Local,
        config.advertise_host is None && (config.bind == "public"@ || config.bind == "lan"@)
            ==> initial_mode(config, local) != ViewerUrlMode::Custom,
{
}

/// A stream can start only from a source that was chosen; the test pattern needs no other source, and
/// any other has to be listed.
pub proof fn lemma_valid_selections(
    selection: SourceSpecView,
    sources: Seq<SourceInfoView>,
    i: int,
)
    ensures
        !is_valid_selection(false, selection, sources),
        selection.kind == "test"@ ==> is_valid_selection(true, selection, sources),
        sources.len() == 0 && selection.kind != "test"@ ==> !is_valid_selection(
            true,
            selection,
            sources,
        ),
        0 <= i < sources.len() && sources[i].kind == selection.kind && sources[i].index
            == selection.index && sources[i].native_id is None && selection.native_id is None
            ==> is_valid_selection(true, selection, sources),
        (forall|j: int| 0 <= j < sources.len() ==> (#[trigger] sources[j]).kind != selection.kind)
            && selection.kind != "test"@ ==> !is_valid_selection(true, selection, sources),
{
    if 0 <= i < sources.len() {
        assert(sources[i] == sources[i]);
    }
}

} // verus!

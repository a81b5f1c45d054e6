//! The small pictures of the sources: which are there, which are on their way, and which are asked
//! for next.

use vstd::prelude::*;

use crate::capture;
use crate::capture::{CaptureSourceInfo, SourceInfoView, SourceKind};
use crate::config;
use crate::config::SourceSpecView;
use crate::control;
use crate::control::following_revision;
use crate::list;
use crate::preview;
use crate::preview::{
    capture_frame_preview, CapturePreview, CapturePreviewSnapshot, PreviewError,
};
use crate::table;
use crate::table::{Key, Table};
use crate::text;
use crate::ui::selection;
use crate::ui::selection::{
    find_selected, replace_sources_for_kind, retain_selected_native_source,
    retain_temporarily_unenumerated_windows, snapshot_matches_source, WindowPresence,
};
use crate::window_resize::Dimensions;

verus! {

/// No more pictures are kept than these.
pub const MAX_CACHED_PREVIEWS: usize = 64;

pub const SOURCE_REFRESH_INTERVAL_NANOS: u64 = 1_000_000_000;

pub const SOURCE_EVENT_DEBOUNCE_NANOS: u64 = 150_000_000;

/// How long a picture of the running capture that failed is not asked for again.
pub const LIVE_PREVIEW_RETRY_DELAY_NANOS: u64 = 2_000_000_000;

/// What a picture belongs to: a window by its native number and its process, anything else by its
/// place and its name.
#[derive(Debug, PartialEq, Eq)]
pub enum PreviewIdentity {
    NativeWindow { native_id: u64, pid: Option<u32> },
    Indexed { index: usize, name: String },
}

pub enum IdentityView {
    NativeWindow { native_id: u64, pid: Option<u32> },
    Indexed { index: usize, name: Seq<char> },
}

#[derive(Debug, PartialEq, Eq)]
pub struct PreviewKey {
    pub kind: String,
    pub identity: PreviewIdentity,
}

pub struct PreviewKeyView {
    pub kind: Seq<char>,
    pub identity: IdentityView,
}

impl View for PreviewKey {
    type V = PreviewKeyView;

    open spec fn view(&self) -> PreviewKeyView {
        PreviewKeyView {
            kind: self.kind@,
            identity: match self.identity {
                PreviewIdentity::NativeWindow { native_id, pid } => IdentityView::NativeWindow {
                    native_id,
                    pid,
                },
                PreviewIdentity::Indexed { index, name } => IdentityView::Indexed {
                    index,
                    name: name@,
                },
            },
        }
    }
}

impl Key for PreviewKey {
    fn same(&self, other: &Self) -> (r: bool) {
        let same_identity = match (&self.identity, &other.identity) {
            (
                PreviewIdentity::NativeWindow { native_id, pid },
                PreviewIdentity::NativeWindow { native_id: other_id, pid: other_pid },
            ) => {
                let same_pid = match (pid, other_pid) {
                    (Some(a), Some(b)) => *a == *b,
                    (None, None) => true,
                    _ => false,
                };
                *native_id == *other_id && same_pid
            },
            (
                PreviewIdentity::Indexed { index, name },
                PreviewIdentity::Indexed { index: other_index, name: other_name },
            ) => *index == *other_index && text::text_eq(name.as_str(), other_name.as_str()),
            _ => false,
        };
        same_identity && text::text_eq(self.kind.as_str(), other.kind.as_str())
    }
}

impl Clone for PreviewKey {
    fn clone(&self) -> (r: Self)
        ensures
            r@ == self@,
    {
        PreviewKey {
            kind: self.kind.clone(),
            identity: match &self.identity {
                PreviewIdentity::NativeWindow { native_id, pid } => PreviewIdentity::NativeWindow {
                    native_id: *native_id,
                    pid: *pid,
                },
                PreviewIdentity::Indexed { index, name } => PreviewIdentity::Indexed {
                    index: *index,
                    name: name.clone(),
                },
            },
        }
    }
}

pub open spec fn key_of(source: SourceInfoView) -> PreviewKeyView {
    PreviewKeyView {
        kind: source.kind,
        identity: match source.native_id {
            Some(native_id) => IdentityView::NativeWindow { native_id, pid: source.pid },
            None => IdentityView::Indexed { index: source.index, name: source.name },
        },
    }
}

impl PreviewKey {
    pub fn for_source(source: &CaptureSourceInfo) -> (r: Self)
        ensures
            r@ == key_of(source@),
    {
        PreviewKey {
            kind: source.kind.clone(),
            identity: match source.native_id {
                Some(native_id) => PreviewIdentity::NativeWindow { native_id, pid: source.pid },
                None => PreviewIdentity::Indexed {
                    index: source.index,
                    name: source.name.clone(),
                },
            },
        }
    }
}

/// A window keeps its picture when the platform lists it elsewhere or it changes its size or title;
/// another process behind the same number does not.
pub proof fn lemma_window_key_is_stable(source: SourceInfoView, other: SourceInfoView)
    requires
        source.native_id is Some,
        other.native_id == source.native_id,
        other.kind == source.kind,
    ensures
        key_of(source) == key_of(other) <==> source.pid == other.pid,
{
}

pub open spec fn source_keys(sources: Seq<SourceInfoView>) -> Seq<PreviewKeyView> {
    sources.map_values(|s: SourceInfoView| key_of(s))
}

fn keys_of(sources: &Vec<CaptureSourceInfo>) -> (r: Vec<PreviewKey>)
    ensures
        table::key_views(r@) == source_keys(capture::source_views(sources@)),
{
    let mut keys: Vec<PreviewKey> = Vec::new();
    let mut i: usize = 0;
    while i < sources.len()
        invariant
            i <= sources@.len(),
            keys@.len() == i,
            forall|j: int|
                0 <= j < i ==> (#[trigger] keys@[j])@ == key_of(sources@[j]@),
        decreases sources@.len() - i,
    {
        keys.push(PreviewKey::for_source(&sources[i]));
        i += 1;
    }
    assert(table::key_views(keys@) =~= source_keys(capture::source_views(sources@)));
    keys
}

/// A picture that is kept. `texture` is the number under which the program has it.
#[derive(Debug)]
pub struct CachedPreview {
    pub texture: u64,
    pub captured_epoch: u64,
    pub source_size: Dimensions,
    pub source_name: String,
    pub last_used: u64,
}

#[verifier::ext_equal]
pub struct CachedView {
    pub texture: u64,
    pub captured_epoch: u64,
    pub source_size: Dimensions,
    pub source_name: Seq<char>,
    pub last_used: u64,
}

impl View for CachedPreview {
    type V = CachedView;

    open spec fn view(&self) -> CachedView {
        CachedView {
            texture: self.texture,
            captured_epoch: self.captured_epoch,
            source_size: self.source_size,
            source_name: self.source_name@,
            last_used: self.last_used,
        }
    }
}

/// Whether a picture is asked for: none of the current epoch is there, none is on its way, and none
/// has failed.
pub fn preview_request_needed(
    captured_epoch: Option<u64>,
    requested_epoch: u64,
    in_flight: bool,
    failed: bool,
) -> (r: bool)
    ensures
        r == ((captured_epoch is None || captured_epoch->0 < requested_epoch) && !in_flight
            && !failed),
{
    let outdated = match captured_epoch {
        Some(captured) => captured < requested_epoch,
        None => true,
    };
    outdated && !in_flight && !failed
}

pub open spec fn signature_matches(name: Seq<char>, size: Dimensions, source: SourceInfoView) -> bool {
    name == source.name && size.width == source.width && size.height == source.height
}

/// Whether a kept picture still shows what a source is.
pub fn source_signature_matches(
    cached_name: &str,
    cached_size: Dimensions,
    source: &CaptureSourceInfo,
) -> (r: bool)
    ensures
        r == signature_matches(cached_name@, cached_size, source@),
{
    cached_size.width == source.width && cached_size.height == source.height && text::text_eq(
        cached_name,
        source.name.as_str(),
    )
}

/// The settings that a picture of the test pattern shows.
#[derive(Clone, Copy, Debug, PartialEq, Eq, Structural)]
pub struct TestPreviewSignature {
    pub width: u32,
    pub height: u32,
    pub fps: u32,
}

#[derive(Clone, Copy, Debug, PartialEq, Eq, Structural)]
pub struct PendingTestPreview {
    pub scope: u64,
    pub signature: TestPreviewSignature,
}

pub open spec fn needs_test_preview(
    loaded: Option<TestPreviewSignature>,
    in_flight: Option<PendingTestPreview>,
    failed: Option<TestPreviewSignature>,
    scope: u64,
    requested: TestPreviewSignature,
) -> bool {
    loaded != Some(requested) && in_flight != Some(
        PendingTestPreview { scope, signature: requested },
    ) && failed != Some(requested)
}

fn is_signature(known: Option<TestPreviewSignature>, signature: TestPreviewSignature) -> (r: bool)
    ensures
        r == (known == Some(signature)),
{
    match known {
        Some(known) => known == signature,
        None => false,
    }
}

fn is_pending(known: Option<PendingTestPreview>, scope: u64, signature: TestPreviewSignature) -> (r: bool)
    ensures
        r == (known == Some(PendingTestPreview { scope, signature })),
{
    match known {
        Some(known) => known.scope == scope && known.signature == signature,
        None => false,
    }
}

/// Whether a picture of the test pattern is asked for. One that failed is not, until other settings
/// are wanted.
pub fn test_preview_request_needed(
    loaded: Option<TestPreviewSignature>,
    in_flight: Option<PendingTestPreview>,
    failed: Option<TestPreviewSignature>,
    scope: u64,
    requested: TestPreviewSignature,
) -> (r: bool)
    ensures
        r == needs_test_preview(loaded, in_flight, failed, scope, requested),
{
    !is_signature(loaded, requested) && !is_pending(in_flight, scope, requested) && !is_signature(
        failed,
        requested,
    )
}

/// What pruning does to the kept pictures: only unprotected ones go, the oldest first, until no
/// more than the maximum are left or all that are left are protected.
pub open spec fn is_pruned(
    before: Map<PreviewKeyView, CachedView>,
    after: Map<PreviewKeyView, CachedView>,
    maximum: nat,
    protected: Seq<PreviewKeyView>,
) -> bool {
    &&& forall|key: PreviewKeyView| #[trigger]
        after.contains_key(key) ==> before.contains_key(key) && after[key] == before[key]
    &&& forall|key: PreviewKeyView| #[trigger]
        before.contains_key(key) && protected.contains(key) ==> after.contains_key(key)
    &&& before.dom().len() <= maximum ==> after == before
    &&& after.dom().len() >= maximum || after == before
    &&& after.dom().len() <= maximum || forall|key: PreviewKeyView| #[trigger]
        after.contains_key(key) ==> protected.contains(key)
    &&& forall|gone: PreviewKeyView, kept: PreviewKeyView|
        #![trigger before.contains_key(gone), after.contains_key(kept)]
        before.contains_key(gone) && !after.contains_key(gone) && after.contains_key(kept)
            && !protected.contains(kept) ==> before[gone].last_used <= after[kept].last_used
}

/// A picture that was removed, under its texture.
pub open spec fn is_released(
    before: Map<PreviewKeyView, CachedView>,
    after: Map<PreviewKeyView, CachedView>,
    key: PreviewKeyView,
    texture: u64,
) -> bool {
    before.contains_key(key) && !after.contains_key(key) && before[key].texture == texture
}

pub open spec fn was_released(
    before: Map<PreviewKeyView, CachedView>,
    after: Map<PreviewKeyView, CachedView>,
    texture: u64,
) -> bool {
    exists|key: PreviewKeyView| #[trigger] is_released(before, after, key, texture)
}

/// The textures of the removed pictures, and no others.
pub open spec fn are_released(
    before: Map<PreviewKeyView, CachedView>,
    after: Map<PreviewKeyView, CachedView>,
    textures: Seq<u64>,
) -> bool {
    &&& forall|i: int|
        0 <= i < textures.len() ==> was_released(before, after, #[trigger] textures[i])
    &&& forall|key: PreviewKeyView| #[trigger]
        before.contains_key(key) && !after.contains_key(key) ==> textures.contains(
            before[key].texture,
        )
}

pub open spec fn cache_view(cache: Map<PreviewKeyView, CachedPreview>) -> Map<
    PreviewKeyView,
    CachedView,
> {
    cache.map_values(|c: CachedPreview| c@)
}

/// The oldest picture that is not protected.
fn oldest_unprotected(cache: &Table<PreviewKey, CachedPreview>, protected: &Vec<PreviewKey>) -> (r:
    Option<PreviewKey>)
    ensures
        ({
            let map = cache_view(cache@);
            let kept = table::key_views(protected@);
            match r {
                Some(key) => {
                    &&& map.contains_key(key@)
                    &&& !kept.contains(key@)
                    &&& forall|other: PreviewKeyView| #[trigger]
                        map.contains_key(other) && !kept.contains(other) ==> map[key@].last_used
                            <= map[other].last_used
                },
                None => forall|other: PreviewKeyView| #[trigger]
                    map.contains_key(other) ==> kept.contains(other),
            }
        }),
{
    let entries = cache.entries();
    let ghost map = table::entry_map(entries@);
    let ghost kept = table::key_views(protected@);
    let mut best: Option<usize> = None;
    let mut i: usize = 0;
    while i < entries.len()
        invariant
            i <= entries@.len(),
            kept == table::key_views(protected@),
            match best {
                Some(b) => {
                    &&& b < i
                    &&& !kept.contains(entries@[b as int].key@)
                    &&& forall|j: int|
                        0 <= j < i && !kept.contains((#[trigger] entries@[j]).key@)
                            ==> entries@[b as int].value.last_used <= entries@[j].value.last_used
                },
                None => forall|j: int|
                    0 <= j < i ==> kept.contains((#[trigger] entries@[j]).key@),
            },
        decreases entries@.len() - i,
    {
        if !table::holds_key(protected, &entries[i].key) {
            let better = match best {
                Some(b) => entries[i].value.last_used < entries[b].value.last_used,
                None => true,
            };
            if better {
                best = Some(i);
            }
        }
        i += 1;
    }
    proof {
        let keys = table::entry_keys(entries@);
        assert forall|other: PreviewKeyView| #[trigger] map.contains_key(other) implies exists|
            j: int,
        |
            0 <= j < entries@.len() && (#[trigger] entries@[j]).key@ == other && map[other]
                == entries@[j].value by {
            let j = choose|j: int| 0 <= j < keys.len() && keys[j] == other;
            table::lemma_entry_found(entries@, j);
            assert(entries@[j].key@ == other);
        }
    }
    match best {
        Some(b) => {
            proof {
                table::lemma_entry_found(entries@, b as int);
            }
            Some(entries[b].key.clone())
        },
        None => None,
    }
}

/// Removes the oldest pictures that are not protected, until no more than a maximum are left. The
/// textures of the removed ones are returned.
pub fn prune_preview_cache(
    cache: &mut Table<PreviewKey, CachedPreview>,
    maximum: usize,
    protected: &Vec<PreviewKey>,
) -> (r: Vec<u64>)
    ensures
        is_pruned(
            cache_view(old(cache)@),
            cache_view(final(cache)@),
            maximum as nat,
            table::key_views(protected@),
        ),
        are_released(cache_view(old(cache)@), cache_view(final(cache)@), r@),
{
    let ghost before = cache_view(cache@);
    let ghost kept = table::key_views(protected@);
    let mut removed: Vec<u64> = Vec::new();
    let mut count = cache.len();
    proof {
        assert(cache_view(cache@).dom() =~= cache@.dom());
    }
    while count > maximum
        invariant
            count == cache@.dom().len(),
            cache@.dom().finite(),
            cache_view(cache@).dom() == cache@.dom(),
            before == cache_view(old(cache)@),
            kept == table::key_views(protected@),
            before.dom().finite(),
            before.dom().len() >= count,
            cache_view(cache@) == before || before.dom().len() > maximum,
            cache_view(cache@) == before || count >= maximum,
            forall|key: PreviewKeyView| #[trigger]
                cache_view(cache@).contains_key(key) ==> before.contains_key(key) && cache_view(
                    cache@,
                )[key] == before[key],
            forall|key: PreviewKeyView| #[trigger]
                before.contains_key(key) && kept.contains(key) ==> cache_view(
                    cache@,
                ).contains_key(key),
            forall|gone: PreviewKeyView, stays: PreviewKeyView|
                #![trigger before.contains_key(gone), cache_view(cache@).contains_key(stays)]
                before.contains_key(gone) && !cache_view(cache@).contains_key(gone) && cache_view(
                    cache@,
                ).contains_key(stays) && !kept.contains(stays) ==> before[gone].last_used
                    <= cache_view(cache@)[stays].last_used,
            are_released(before, cache_view(cache@), removed@),
        decreases count,
    {
        let ghost current = cache_view(cache@);
        match oldest_unprotected(cache, protected) {
            Some(key) => {
                let ghost dom = cache@.dom();
                let ghost gone_key = key@;
                let ghost textures = removed@;
                if let Some(entry) = cache.remove(&key) {
                    removed.push(entry.texture);
                }
                proof {
                    assert(cache@.dom() =~= dom.remove(gone_key));
                    assert(cache_view(cache@) =~= current.remove(gone_key));
                    let after = cache_view(cache@);
                    assert(removed@ == textures.push(before[gone_key].texture));
                    assert forall|i: int| 0 <= i < removed@.len() implies was_released(
                        before,
                        after,
                        #[trigger] removed@[i],
                    ) by {
                        if i < textures.len() {
                            assert(was_released(before, current, textures[i]));
                            let key = choose|key: PreviewKeyView|
                                is_released(before, current, key, textures[i]);
                            assert(is_released(before, after, key, removed@[i]));
                        } else {
                            assert(is_released(before, after, gone_key, removed@[i]));
                        }
                    }
                    assert forall|key: PreviewKeyView| #[trigger]
                        before.contains_key(key) && !after.contains_key(key) implies removed@.contains(
                        before[key].texture,
                    ) by {
                        if key == gone_key {
                            assert(removed@[textures.len() as int] == before[key].texture);
                        } else {
                            assert(!current.contains_key(key));
                            let i = choose|i: int|
                                0 <= i < textures.len() && textures[i] == before[key].texture;
                            assert(removed@[i] == before[key].texture);
                        }
                    }
                    assert forall|gone: PreviewKeyView, stays: PreviewKeyView|
                        #![trigger before.contains_key(gone), cache_view(cache@).contains_key(stays)]
                        before.contains_key(gone) && !cache_view(cache@).contains_key(gone)
                            && cache_view(cache@).contains_key(stays) && !kept.contains(
                            stays,
                        ) implies before[gone].last_used <= cache_view(
                        cache@,
                    )[stays].last_used by {
                        assert(current.contains_key(stays));
                        if gone == gone_key {
                            assert(current.contains_key(gone));
                        } else {
                            assert(!current.contains_key(gone));
                        }
                    }
                }
                count -= 1;
            },
            None => {
                return removed;
            },
        }
    }
    removed
}

/// The textures of the pictures whose keys do not stand in a list.
fn textures_without(cache: &Table<PreviewKey, CachedPreview>, keys: &Vec<PreviewKey>) -> (r: Vec<u64>)
    ensures
        are_released(
            cache_view(cache@),
            table::only_keys(cache_view(cache@), table::key_views(keys@)),
            r@,
        ),
{
    let entries = cache.entries();
    let ghost before = cache_view(cache@);
    let ghost kept = table::key_views(keys@);
    let ghost after = table::only_keys(before, kept);
    let mut textures: Vec<u64> = Vec::new();
    let mut i: usize = 0;
    while i < entries.len()
        invariant
            i <= entries@.len(),
            before == cache_view(table::entry_map(entries@)),
            list::distinct(table::entry_keys(entries@)),
            kept == table::key_views(keys@),
            after == table::only_keys(before, kept),
            forall|j: int|
                0 <= j < textures@.len() ==> was_released(before, after, #[trigger] textures@[j]),
            forall|j: int|
                0 <= j < i && !kept.contains((#[trigger] entries@[j]).key@) ==> textures@.contains(
                    entries@[j].value.texture,
                ),
        decreases entries@.len() - i,
    {
        let ghost shorter = textures@;
        proof {
            table::lemma_entry_found(entries@, i as int);
        }
        if !table::holds_key(keys, &entries[i].key) {
            textures.push(entries[i].value.texture);
            assert(is_released(
                before,
                after,
                entries@[i as int].key@,
                entries@[i as int].value.texture,
            ));
            assert(textures@[shorter.len() as int] == entries@[i as int].value.texture);
        }
        assert forall|j: int|
            0 <= j <= i && !kept.contains((#[trigger] entries@[j]).key@) implies textures@.contains(
            entries@[j].value.texture,
        ) by {
            if j < i {
                let k = choose|k: int|
                    0 <= k < shorter.len() && shorter[k] == entries@[j].value.texture;
                assert(textures@[k] == entries@[j].value.texture);
            }
        }
        i += 1;
    }
    proof {
        let names = table::entry_keys(entries@);
        assert forall|key: PreviewKeyView| #[trigger]
            before.contains_key(key) && !after.contains_key(key) implies textures@.contains(
            before[key].texture,
        ) by {
            let j = choose|j: int| 0 <= j < names.len() && names[j] == key;
            table::lemma_entry_found(entries@, j);
            assert(entries@[j].key@ == key);
        }
    }
    textures
}

/// Why there is no picture of the source that is being streamed.
#[derive(Clone, Copy, Debug, PartialEq, Eq, Structural)]
pub enum LivePreviewError {
    NoFrame,
    OtherSource,
    Frame(PreviewError),
}

impl LivePreviewError {
    pub open spec fn text(self) -> Seq<char> {
        match self {
            LivePreviewError::NoFrame => "live capture has no current frame"@,
            LivePreviewError::OtherSource =>
                "live capture source changed before preview delivery"@,
            LivePreviewError::Frame(e) => e.text(),
        }
    }

    pub fn message(self) -> (r: String)
        ensures
            r@ == self.text(),
    {
        match self {
            LivePreviewError::NoFrame => "live capture has no current frame".to_owned(),
            LivePreviewError::OtherSource =>
                "live capture source changed before preview delivery".to_owned(),
            LivePreviewError::Frame(e) => e.message(),
        }
    }
}

/// A picture of the source that is being streamed, from its own capture. A snapshot of another
/// source is not shown for it.
pub fn live_preview(
    snapshot: &Option<CapturePreviewSnapshot>,
    source: &CaptureSourceInfo,
    max_width: usize,
    max_height: usize,
) -> (r: Result<CapturePreview, LivePreviewError>)
    ensures
        match snapshot {
            None => r == Err::<CapturePreview, LivePreviewError>(LivePreviewError::NoFrame),
            Some(snapshot) => if !selection::shows_source(*snapshot, source@) {
                r == Err::<CapturePreview, LivePreviewError>(LivePreviewError::OtherSource)
            } else {
                match r {
                    Ok(picture) => preview::is_preview(
                        snapshot.frame,
                        max_width,
                        max_height,
                        Ok(picture),
                    ),
                    Err(LivePreviewError::Frame(e)) => preview::is_preview(
                        snapshot.frame,
                        max_width,
                        max_height,
                        Err(e),
                    ),
                    Err(_) => false,
                }
            },
        },
{
    match snapshot {
        None => Err(LivePreviewError::NoFrame),
        Some(snapshot) => {
            if !snapshot_matches_source(snapshot, source) {
                return Err(LivePreviewError::OtherSource);
            }
            match capture_frame_preview(&snapshot.frame, max_width, max_height) {
                Ok(picture) => Ok(picture),
                Err(e) => Err(LivePreviewError::Frame(e)),
            }
        },
    }
}

/// What is known of the search for the sources of one kind.
#[derive(Clone, Copy, Debug, PartialEq, Eq, Structural)]
pub struct Discovery {
    pub generation: Option<u64>,
    pub in_flight: bool,
}

/// The sources that are known and their pictures.
#[derive(Debug)]
pub struct PreviewBoard {
    /// Changes when the pictures on their way are no longer wanted.
    pub scope: u64,
    pub epoch: u64,
    pub monitors: Discovery,
    pub windows: Discovery,
    pub in_flight: Table<PreviewKey, u64>,
    pub failed_epoch: Table<PreviewKey, u64>,
    pub retry_after: Table<PreviewKey, u64>,
    pub cache: Table<PreviewKey, CachedPreview>,
    pub test_loaded: Option<TestPreviewSignature>,
    pub test_in_flight: Option<PendingTestPreview>,
    pub test_failed: Option<TestPreviewSignature>,
    pub source_error: Option<String>,
    pub sources: Vec<CaptureSourceInfo>,
}

#[verifier::ext_equal]
pub struct BoardView {
    pub scope: u64,
    pub epoch: u64,
    pub monitors: Discovery,
    pub windows: Discovery,
    pub in_flight: Map<PreviewKeyView, u64>,
    pub failed_epoch: Map<PreviewKeyView, u64>,
    pub retry_after: Map<PreviewKeyView, u64>,
    pub cache: Map<PreviewKeyView, CachedView>,
    pub test_loaded: Option<TestPreviewSignature>,
    pub test_in_flight: Option<PendingTestPreview>,
    pub test_failed: Option<TestPreviewSignature>,
    pub source_error: Option<Seq<char>>,
    pub sources: Seq<SourceInfoView>,
}

impl View for PreviewBoard {
    type V = BoardView;

    open spec fn view(&self) -> BoardView {
        BoardView {
            scope: self.scope,
            epoch: self.epoch,
            monitors: self.monitors,
            windows: self.windows,
            in_flight: self.in_flight@,
            failed_epoch: self.failed_epoch@,
            retry_after: self.retry_after@,
            cache: cache_view(self.cache@),
            test_loaded: self.test_loaded,
            test_in_flight: self.test_in_flight,
            test_failed: self.test_failed,
            source_error: config::optional_text(self.source_error),
            sources: capture::source_views(self.sources@),
        }
    }
}

pub open spec fn kind_name(kind: SourceKind) -> Seq<char> {
    match kind {
        SourceKind::Monitor => "monitor"@,
        SourceKind::Window => "window"@,
    }
}

pub fn name_of_kind(kind: SourceKind) -> (r: &'static str)
    ensures
        r@ == kind_name(kind),
{
    match kind {
        SourceKind::Monitor => "monitor",
        SourceKind::Window => "window",
    }
}

/// The selection while sources are searched for.
#[derive(Debug)]
pub struct SelectionState {
    pub selected: bool,
    pub kind: String,
    pub index: usize,
    pub native_id: Option<u64>,
    pub presence: WindowPresence,
    pub display_non_window_elements: bool,
}

impl SelectionState {
    pub open spec fn spec_of(&self) -> SourceSpecView {
        SourceSpecView { kind: self.kind@, index: self.index, native_id: self.native_id }
    }
}

/// The keys that are not pruned: that of the selected source, then the visible ones below `n`, up to
/// the maximum.
pub open spec fn protected_keys(selected: Option<PreviewKeyView>, visible: Seq<PreviewKeyView>, n: int) -> Seq<
    PreviewKeyView,
>
    decreases n,
{
    if n <= 0 {
        match selected {
            Some(key) => seq![key],
            None => Seq::empty(),
        }
    } else {
        let rest = protected_keys(selected, visible, n - 1);
        if rest.len() >= MAX_CACHED_PREVIEWS || rest.contains(visible[n - 1]) {
            rest
        } else {
            rest.push(visible[n - 1])
        }
    }
}

pub open spec fn optional_key(key: Option<PreviewKey>) -> Option<PreviewKeyView> {
    match key {
        Some(key) => Some(key@),
        None => None,
    }
}

fn protect(selected: Option<PreviewKey>, visible: &Vec<PreviewKey>) -> (r: Vec<PreviewKey>)
    ensures
        table::key_views(r@) == protected_keys(
            optional_key(selected),
            table::key_views(visible@),
            visible@.len() as int,
        ),
{
    let ghost first = optional_key(selected);
    let ghost views = table::key_views(visible@);
    let mut keys: Vec<PreviewKey> = Vec::new();
    if let Some(key) = selected {
        keys.push(key);
    }
    assert(table::key_views(keys@) =~= protected_keys(first, views, 0));
    let mut n: usize = 0;
    while n < visible.len()
        invariant
            n <= visible@.len(),
            views == table::key_views(visible@),
            table::key_views(keys@) == protected_keys(first, views, n as int),
        decreases visible@.len() - n,
    {
        assert(views[n as int] == visible@[n as int]@);
        assert(table::key_views(keys@).len() == keys@.len());
        if keys.len() < MAX_CACHED_PREVIEWS && !table::holds_key(&keys, &visible[n]) {
            let ghost shorter = keys@;
            keys.push(visible[n].clone());
            assert(table::key_views(keys@) =~= table::key_views(shorter).push(views[n as int]));
        }
        n += 1;
    }
    keys
}

/// The places below `n` of the cards that are selected, or of those that are not.
pub open spec fn places(selected: Seq<bool>, n: int, wanted: bool) -> Seq<usize>
    decreases n,
{
    if n <= 0 {
        Seq::empty()
    } else {
        let rest = places(selected, n - 1, wanted);
        if selected[n - 1] == wanted {
            rest.push((n - 1) as usize)
        } else {
            rest
        }
    }
}

/// The selected cards, then the others, each in their order.
pub open spec fn selected_first(selected: Seq<bool>) -> Seq<usize> {
    places(selected, selected.len() as int, true) + places(selected, selected.len() as int, false)
}

/// No more cards are pictured than pictures are kept.
pub open spec fn first_pictured(order: Seq<usize>) -> Seq<usize> {
    if order.len() <= MAX_CACHED_PREVIEWS {
        order
    } else {
        order.take(MAX_CACHED_PREVIEWS as int)
    }
}

fn append_places(order: &mut Vec<usize>, selected: &Vec<bool>, wanted: bool)
    ensures
        final(order)@ == old(order)@ + places(selected@, selected@.len() as int, wanted),
{
    let ghost before = order@;
    let mut i: usize = 0;
    assert(order@ =~= before + places(selected@, 0, wanted));
    while i < selected.len()
        invariant
            i <= selected@.len(),
            order@ == before + places(selected@, i as int, wanted),
        decreases selected@.len() - i,
    {
        if selected[i] == wanted {
            order.push(i);
        }
        i += 1;
        assert(order@ =~= before + places(selected@, i as int, wanted));
    }
}

/// Which of the cards in sight are pictured, and in what order: `selected` says of each whether it is
/// the selected one.
pub fn picture_order(selected: &Vec<bool>) -> (r: Vec<usize>)
    ensures
        r@ == first_pictured(selected_first(selected@)),
        forall|i: int| 0 <= i < r@.len() ==> #[trigger] r@[i] < selected@.len(),
{
    let mut order: Vec<usize> = Vec::new();
    assert(selected.len() <= usize::MAX);
    append_places(&mut order, selected, true);
    append_places(&mut order, selected, false);
    assert(order@ =~= selected_first(selected@));
    proof {
        lemma_places_in_range(selected@, selected@.len() as int, true);
        lemma_places_in_range(selected@, selected@.len() as int, false);
    }
    order.truncate(MAX_CACHED_PREVIEWS);
    order
}

/// Where a selected card is in sight, one is pictured first.
pub proof fn lemma_selected_card_is_first(selected: Seq<bool>, k: int)
    requires
        0 <= k < selected.len() <= usize::MAX,
        selected[k],
    ensures
        ({
            let order = first_pictured(selected_first(selected));
            order.len() > 0 && order[0] < selected.len() && selected[order[0] as int]
        }),
{
    lemma_places_are_wanted(selected, selected.len() as int, k);
    lemma_places_in_range(selected, selected.len() as int, true);
}

proof fn lemma_places_are_wanted(selected: Seq<bool>, n: int, k: int)
    requires
        0 <= n <= selected.len() <= usize::MAX,
        0 <= k < selected.len(),
        selected[k],
    ensures
        k < n ==> places(selected, n, true).len() > 0,
        places(selected, n, true).len() > 0 ==> selected[places(selected, n, true)[0] as int],
    decreases n,
{
    if n > 0 {
        lemma_places_are_wanted(selected, n - 1, k);
    }
}

proof fn lemma_places_in_range(selected: Seq<bool>, n: int, wanted: bool)
    requires
        0 <= n <= selected.len() <= usize::MAX,
    ensures
        forall|i: int|
            #![trigger places(selected, n, wanted)[i]]
            0 <= i < places(selected, n, wanted).len() ==> places(selected, n, wanted)[i] < n,
    decreases n,
{
    if n > 0 {
        lemma_places_in_range(selected, n - 1, wanted);
        let rest = places(selected, n - 1, wanted);
        let all = places(selected, n, wanted);
        assert forall|i: int| #![trigger all[i]] 0 <= i < all.len() implies all[i] < n by {
            if i < rest.len() {
                assert(all[i] == rest[i]);
            }
        }
    }
}

/// What to ask for about a source.
#[derive(Clone, Copy, Debug, PartialEq, Eq, Structural)]
pub enum PreviewDecision {
    Nothing,
    /// A picture of the running capture.
    Live,
    /// A picture of the source itself.
    Capture,
}

/// What became of a picture that arrived.
#[derive(Clone, Copy, Debug, PartialEq, Eq, Structural)]
pub enum Arrival {
    /// It is no longer wanted.
    Ignored,
    /// It takes the place of the one under this number.
    Updated(u64),
    /// It is kept under the number that was offered.
    Inserted,
}

impl BoardView {
    pub open spec fn discovery(self, kind: SourceKind) -> Discovery {
        match kind {
            SourceKind::Monitor => self.monitors,
            SourceKind::Window => self.windows,
        }
    }

    pub open spec fn with_discovery(self, kind: SourceKind, discovery: Discovery) -> BoardView {
        match kind {
            SourceKind::Monitor => BoardView { monitors: discovery, ..self },
            SourceKind::Window => BoardView { windows: discovery, ..self },
        }
    }

    /// The sources after a search for one kind.
    pub open spec fn listed(
        self,
        kind: SourceKind,
        found: Seq<SourceInfoView>,
        choice: SelectionState,
        available: Seq<u64>,
        elements: Seq<u64>,
    ) -> Seq<SourceInfoView> {
        let lasting = match kind {
            SourceKind::Window => selection::with_unlisted(
                found,
                self.sources,
                self.sources.len() as int,
                choice.display_non_window_elements,
                available,
                elements,
            ),
            SourceKind::Monitor => found,
        };
        selection::other_kinds(self.sources, kind_name(kind)) + selection::with_selected_native(
            lasting,
            self.sources,
            choice.selected,
            choice.kind@,
            choice.native_id,
            choice.presence,
            choice.display_non_window_elements,
        )
    }

    /// The sources of a kind were found. The result of an older search is ignored; pictures of
    /// sources that are gone are dropped.
    pub open spec fn discovered(
        self,
        generation: u64,
        kind: SourceKind,
        found: Seq<SourceInfoView>,
        choice: SelectionState,
        available: Seq<u64>,
        elements: Seq<u64>,
    ) -> BoardView {
        if self.discovery(kind).generation != Some(generation) {
            self
        } else {
            let sources = self.listed(kind, found, choice, available, elements);
            let keys = source_keys(sources);
            BoardView {
                source_error: None,
                sources,
                cache: table::only_keys(self.cache, keys),
                failed_epoch: table::only_keys(self.failed_epoch, keys),
                retry_after: table::only_keys(self.retry_after, keys),
                ..self.with_discovery(
                    kind,
                    Discovery { in_flight: false, ..self.discovery(kind) },
                )
            }
        }
    }

    pub open spec fn arrived(self, scope: u64, key: PreviewKeyView) -> BoardView {
        if self.in_flight.contains_key(key) && self.in_flight[key] == scope {
            BoardView { in_flight: self.in_flight.remove(key), ..self }
        } else {
            self
        }
    }

    pub open spec fn wants(self, scope: u64, key: PreviewKeyView) -> bool {
        scope == self.scope && source_keys(self.sources).contains(key)
    }

    /// A picture is kept, before pruning.
    pub open spec fn kept(self, key: PreviewKeyView, preview: CachedView) -> BoardView {
        let cached = if self.cache.contains_key(key) {
            CachedView {
                texture: self.cache[key].texture,
                captured_epoch: if self.cache[key].captured_epoch > preview.captured_epoch {
                    self.cache[key].captured_epoch
                } else {
                    preview.captured_epoch
                },
                ..preview
            }
        } else {
            preview
        };
        BoardView {
            cache: self.cache.insert(key, cached),
            failed_epoch: self.failed_epoch.remove(key),
            retry_after: self.retry_after.remove(key),
            ..self
        }
    }

    /// The picture of a source, where there is one, was used just now.
    pub open spec fn shown(self, key: PreviewKeyView, now: u64) -> BoardView {
        BoardView {
            cache: if self.cache.contains_key(key) {
                self.cache.insert(key, CachedView { last_used: now, ..self.cache[key] })
            } else {
                self.cache
            },
            ..self
        }
    }

    /// The key of the selected source.
    pub open spec fn selected_key(self, choice: SelectionState) -> Option<PreviewKeyView> {
        if choice.selected {
            match selection::selected_at(choice.spec_of(), self.sources) {
                Some(i) => Some(key_of(self.sources[i])),
                None => None,
            }
        } else {
            None
        }
    }

    pub open spec fn failing(
        self,
        scope: u64,
        epoch: u64,
        key: PreviewKeyView,
        sticky: bool,
        now: u64,
    ) -> BoardView {
        let settled = self.arrived(scope, key);
        if scope != self.scope {
            settled
        } else if sticky {
            BoardView { failed_epoch: settled.failed_epoch.insert(key, epoch), ..settled }
        } else {
            BoardView {
                retry_after: settled.retry_after.insert(
                    key,
                    if now + LIVE_PREVIEW_RETRY_DELAY_NANOS > u64::MAX {
                        u64::MAX
                    } else {
                        (now + LIVE_PREVIEW_RETRY_DELAY_NANOS) as u64
                    },
                ),
                ..settled
            }
        }
    }

    pub open spec fn test_settled(self, scope: u64, signature: TestPreviewSignature) -> BoardView {
        if self.test_in_flight == Some(PendingTestPreview { scope, signature }) {
            BoardView { test_in_flight: None, ..self }
        } else {
            self
        }
    }

    /// Pictures on their way are no longer wanted.
    pub open spec fn rescoped(self) -> BoardView {
        BoardView {
            scope: control::next_revision(self.scope),
            in_flight: Map::empty(),
            test_in_flight: None,
            ..self
        }
    }

    /// Whether a picture of a source is asked for, and of what kind.
    pub open spec fn decision(
        self,
        source: SourceInfoView,
        selected_live: bool,
        running: bool,
        now: u64,
    ) -> PreviewDecision {
        let key = key_of(source);
        let fresh = self.cache.contains_key(key) && signature_matches(
            self.cache[key].source_name,
            self.cache[key].source_size,
            source,
        ) && self.cache[key].captured_epoch >= self.epoch;
        let failed = self.failed_epoch.contains_key(key) && self.failed_epoch[key] >= self.epoch;
        let retrying = self.retry_after.contains_key(key) && self.retry_after[key] > now;
        let on_its_way = self.in_flight.contains_key(key) && self.in_flight[key] == self.scope;
        if selected_live && !running {
            PreviewDecision::Nothing
        } else if fresh || on_its_way || failed || retrying {
            PreviewDecision::Nothing
        } else if selected_live {
            PreviewDecision::Live
        } else {
            PreviewDecision::Capture
        }
    }

    /// The test pattern is shown: a picture on its way for other settings is given up, and one that
    /// is there for other settings is dropped.
    pub open spec fn test_prepared(self, signature: TestPreviewSignature) -> BoardView {
        let scoped = match self.test_in_flight {
            Some(pending) => if pending.scope == self.scope && pending.signature != signature {
                self.rescoped()
            } else {
                self
            },
            None => self,
        };
        if scoped.test_in_flight is None && scoped.test_loaded is Some && scoped.test_loaded
            != Some(signature) {
            BoardView { test_loaded: None, ..scoped }
        } else {
            scoped
        }
    }
}

impl PreviewBoard {
    pub fn new() -> (r: Self)
        ensures
            r@ == (BoardView {
                scope: 1,
                epoch: 1,
                monitors: Discovery { generation: None, in_flight: false },
                windows: Discovery { generation: None, in_flight: false },
                in_flight: Map::empty(),
                failed_epoch: Map::empty(),
                retry_after: Map::empty(),
                cache: Map::empty(),
                test_loaded: None,
                test_in_flight: None,
                test_failed: None,
                source_error: None,
                sources: Seq::empty(),
            }),
    {
        let board = PreviewBoard {
            scope: 1,
            epoch: 1,
            monitors: Discovery { generation: None, in_flight: false },
            windows: Discovery { generation: None, in_flight: false },
            in_flight: Table::new(),
            failed_epoch: Table::new(),
            retry_after: Table::new(),
            cache: Table::new(),
            test_loaded: None,
            test_in_flight: None,
            test_failed: None,
            source_error: None,
            sources: Vec::new(),
        };
        assert(board@.cache =~= Map::empty());
        assert(board@.sources =~= Seq::empty());
        board
    }

    fn discovery_of(&self, kind: SourceKind) -> (r: Discovery)
        ensures
            r == self@.discovery(kind),
    {
        match kind {
            SourceKind::Monitor => self.monitors,
            SourceKind::Window => self.windows,
        }
    }

    fn set_discovery(&mut self, kind: SourceKind, discovery: Discovery)
        ensures
            final(self)@ == old(self)@.with_discovery(kind, discovery),
    {
        match kind {
            SourceKind::Monitor => {
                self.monitors = discovery;
            },
            SourceKind::Window => {
                self.windows = discovery;
            },
        }
    }

    fn is_current_search(&self, kind: SourceKind, generation: u64) -> (r: bool)
        ensures
            r == (self@.discovery(kind).generation == Some(generation)),
    {
        match self.discovery_of(kind).generation {
            Some(current) => current == generation,
            None => false,
        }
    }

    /// The number of the next search for a kind, unless one is under way.
    pub fn next_discovery(&self, kind: SourceKind) -> (r: Option<u64>)
        requires
            self@.discovery(kind).generation matches Some(generation) ==> generation < u64::MAX,
        ensures
            r == if self@.discovery(kind).in_flight {
                None
            } else {
                match self@.discovery(kind).generation {
                    Some(generation) => Some((generation + 1) as u64),
                    None => Some(1u64),
                }
            },
    {
        let discovery = self.discovery_of(kind);
        if discovery.in_flight {
            return None;
        }
        match discovery.generation {
            Some(generation) => Some(generation + 1),
            None => Some(1),
        }
    }

    /// A search is under way.
    pub fn discovery_started(&mut self, kind: SourceKind, generation: u64)
        ensures
            final(self)@ == old(self)@.with_discovery(
                kind,
                Discovery { generation: Some(generation), in_flight: true },
            ),
    {
        self.set_discovery(kind, Discovery { generation: Some(generation), in_flight: true });
    }

    /// Something that searches or captures has ended.
    pub fn worker_stopped(&mut self, message: &str)
        ensures
            final(self)@ == (BoardView { source_error: Some(message@), ..old(self)@ }),
    {
        self.source_error = Some(message.to_owned());
    }

    /// Takes the result of a search. `available` and `elements` are the native numbers, among those
    /// of the known windows, that the platform still knows and that are no windows. The textures
    /// that are no longer needed are returned.
    pub fn sources_discovered(
        &mut self,
        generation: u64,
        kind: SourceKind,
        found: Vec<CaptureSourceInfo>,
        choice: &SelectionState,
        available: &Vec<u64>,
        elements: &Vec<u64>,
    ) -> (r: Vec<u64>)
        ensures
            final(self)@ == old(self)@.discovered(
                generation,
                kind,
                capture::source_views(found@),
                *choice,
                available@,
                elements@,
            ),
            are_released(old(self)@.cache, final(self)@.cache, r@),
    {
        if !self.is_current_search(kind, generation) {
            return Vec::new();
        }
        let discovery = self.discovery_of(kind);
        self.set_discovery(
            kind,
            Discovery { generation: discovery.generation, in_flight: false },
        );
        self.source_error = None;
        let mut listed = found;
        if let SourceKind::Window = kind {
            retain_temporarily_unenumerated_windows(
                &mut listed,
                &self.sources,
                choice.display_non_window_elements,
                available,
                elements,
            );
        }
        retain_selected_native_source(
            &mut listed,
            &self.sources,
            choice.selected,
            choice.kind.as_str(),
            choice.native_id,
            choice.presence,
            choice.display_non_window_elements,
        );
        replace_sources_for_kind(&mut self.sources, name_of_kind(kind), listed);
        let keys = keys_of(&self.sources);
        let ghost cache = self.cache@;
        let released = textures_without(&self.cache, &keys);
        self.cache.retain_keys(&keys);
        assert(cache_view(self.cache@) =~= table::only_keys(
            cache_view(cache),
            table::key_views(keys@),
        ));
        self.failed_epoch.retain_keys(&keys);
        self.retry_after.retain_keys(&keys);
        released
    }

    /// A search has failed.
    pub fn source_discovery_failed(&mut self, generation: u64, kind: SourceKind, error: String)
        ensures
            final(self)@ == if old(self)@.discovery(kind).generation == Some(generation) {
                BoardView {
                    source_error: Some(error@),
                    ..old(self)@.with_discovery(
                        kind,
                        Discovery { in_flight: false, ..old(self)@.discovery(kind) },
                    )
                }
            } else {
                old(self)@
            },
    {
        if self.is_current_search(kind, generation) {
            let discovery = self.discovery_of(kind);
            self.set_discovery(
                kind,
                Discovery { generation: discovery.generation, in_flight: false },
            );
            self.source_error = Some(error);
        }
    }

    fn settle(&mut self, scope: u64, key: &PreviewKey)
        ensures
            final(self)@ == old(self)@.arrived(scope, key@),
    {
        let expected = match self.in_flight.get(key) {
            Some(pending) => *pending == scope,
            None => false,
        };
        if expected {
            let _ = self.in_flight.remove(key);
        }
    }

    /// A picture has arrived. `texture` is the number under which the program keeps a new one;
    /// `visible` are the keys of the sources that are in sight. The textures that are no longer
    /// needed are returned.
    pub fn source_ready(
        &mut self,
        scope: u64,
        key: PreviewKey,
        preview: CachedPreview,
        choice: &SelectionState,
        visible: &Vec<PreviewKey>,
    ) -> (r: (Arrival, Vec<u64>))
        ensures
            ({
                let settled = old(self)@.arrived(scope, key@);
                let kept = settled.kept(key@, preview@);
                if !settled.wants(scope, key@) {
                    r.0 == Arrival::Ignored && r.1@.len() == 0 && final(self)@ == settled
                } else {
                    &&& r.0 == if settled.cache.contains_key(key@) {
                        Arrival::Updated(settled.cache[key@].texture)
                    } else {
                        Arrival::Inserted
                    }
                    &&& final(self)@ == (BoardView { cache: final(self)@.cache, ..kept })
                    &&& is_pruned(
                        kept.cache,
                        final(self)@.cache,
                        MAX_CACHED_PREVIEWS as nat,
                        protected_keys(
                            settled.selected_key(*choice),
                            table::key_views(visible@),
                            visible@.len() as int,
                        ),
                    )
                    &&& are_released(kept.cache, final(self)@.cache, r.1@)
                }
            }),
    {
        self.settle(scope, &key);
        let ghost settled = self@;
        let keys = keys_of(&self.sources);
        if scope != self.scope || !table::holds_key(&keys, &key) {
            return (Arrival::Ignored, Vec::new());
        }
        let ghost added = key@;
        let ghost given = preview@;
        let ghost cache = self.cache@;
        let mut preview = preview;
        let mut arrival = Arrival::Inserted;
        if let Some(cached) = self.cache.get(&key) {
            assert(cache_view(cache)[added] == cached@);
            arrival = Arrival::Updated(cached.texture);
            preview.texture = cached.texture;
            if cached.captured_epoch > preview.captured_epoch {
                preview.captured_epoch = cached.captured_epoch;
            }
        }
        let _ = self.failed_epoch.remove(&key);
        let _ = self.retry_after.remove(&key);
        let ghost stored = preview@;
        let _ = self.cache.insert(key, preview);
        assert(cache_view(self.cache@) =~= cache_view(cache).insert(added, stored));
        assert(self@ == settled.kept(added, given));
        let selected = if choice.selected {
            match find_selected(&self.sources, choice.kind.as_str(), choice.index, choice.native_id) {
                Some(at) => {
                    assert(capture::source_views(self.sources@)[at as int]
                        == self.sources@[at as int]@);
                    Some(PreviewKey::for_source(&self.sources[at]))
                },
                None => None,
            }
        } else {
            None
        };
        let protected = protect(selected, visible);
        let removed = prune_preview_cache(&mut self.cache, MAX_CACHED_PREVIEWS, &protected);
        (arrival, removed)
    }

    /// The picture of a source is in sight: it counts as used now.
    pub fn preview_shown(&mut self, key: &PreviewKey, now: u64)
        ensures
            final(self)@ == old(self)@.shown(key@, now),
    {
        let ghost cache = self.cache@;
        if let Some(cached) = self.cache.remove(key) {
            let ghost used = cached@;
            let mut cached = cached;
            cached.last_used = now;
            let _ = self.cache.insert(key.clone(), cached);
            assert(cache_view(self.cache@) =~= cache_view(cache).insert(
                key@,
                CachedView { last_used: now, ..used },
            ));
        } else {
            assert(self.cache@ =~= cache);
        }
    }

    /// A picture could not be made. A failure that will not pass is remembered for the epoch,
    /// another one for a while.
    pub fn source_failed(&mut self, scope: u64, epoch: u64, key: PreviewKey, sticky: bool, now: u64)
        ensures
            final(self)@ == old(self)@.failing(scope, epoch, key@, sticky, now),
    {
        self.settle(scope, &key);
        if scope != self.scope {
            return;
        }
        if sticky {
            let _ = self.failed_epoch.insert(key, epoch);
        } else {
            let _ = self.retry_after.insert(
                key,
                now.saturating_add(LIVE_PREVIEW_RETRY_DELAY_NANOS),
            );
        }
    }

    fn settle_test(&mut self, scope: u64, signature: TestPreviewSignature)
        ensures
            final(self)@ == old(self)@.test_settled(scope, signature),
    {
        if is_pending(self.test_in_flight, scope, signature) {
            self.test_in_flight = None;
        }
    }

    /// A picture of the test pattern has arrived; says whether it is shown.
    pub fn test_pattern_ready(&mut self, scope: u64, signature: TestPreviewSignature) -> (r: bool)
        ensures
            r == (scope == old(self)@.scope),
            final(self)@ == if r {
                BoardView {
                    source_error: None,
                    test_loaded: Some(signature),
                    test_failed: None,
                    ..old(self)@.test_settled(scope, signature)
                }
            } else {
                old(self)@.test_settled(scope, signature)
            },
    {
        self.settle_test(scope, signature);
        if scope != self.scope {
            return false;
        }
        self.source_error = None;
        self.test_loaded = Some(signature);
        self.test_failed = None;
        true
    }

    pub fn test_pattern_failed(
        &mut self,
        scope: u64,
        signature: TestPreviewSignature,
        error: String,
    )
        ensures
            final(self)@ == if scope == old(self)@.scope {
                BoardView {
                    source_error: Some(error@),
                    test_failed: Some(signature),
                    ..old(self)@.test_settled(scope, signature)
                }
            } else {
                old(self)@.test_settled(scope, signature)
            },
    {
        self.settle_test(scope, signature);
        if scope == self.scope {
            self.test_failed = Some(signature);
            self.source_error = Some(error);
        }
    }

    pub fn begin_preview_scope(&mut self) -> (r: u64)
        ensures
            final(self)@ == old(self)@.rescoped(),
            r == final(self)@.scope,
    {
        self.scope = following_revision(self.scope);
        self.in_flight = Table::new();
        self.test_in_flight = None;
        self.scope
    }

    /// The test pattern is chosen: its picture is made anew.
    pub fn forget_test_pattern(&mut self)
        ensures
            final(self)@ == (BoardView { test_loaded: None, test_failed: None, ..old(self)@ }),
    {
        self.test_loaded = None;
        self.test_failed = None;
    }

    /// Whether a picture of a source is asked for. `selected_live` says that the source is the one
    /// that is being streamed; `running` that it is streamed already.
    pub fn ensure_source_preview(
        &self,
        source: &CaptureSourceInfo,
        selected_live: bool,
        running: bool,
        now: u64,
    ) -> (r: PreviewDecision)
        ensures
            r == self@.decision(source@, selected_live, running, now),
    {
        if selected_live && !running {
            return PreviewDecision::Nothing;
        }
        let key = PreviewKey::for_source(source);
        let captured_epoch = match self.cache.get(&key) {
            Some(cached) => {
                assert(self@.cache[key@] == cached@);
                if source_signature_matches(
                    cached.source_name.as_str(),
                    cached.source_size,
                    source,
                ) {
                    Some(cached.captured_epoch)
                } else {
                    None
                }
            },
            None => None,
        };
        let failed = match self.failed_epoch.get(&key) {
            Some(epoch) => *epoch >= self.epoch,
            None => false,
        };
        let retrying = match self.retry_after.get(&key) {
            Some(until) => *until > now,
            None => false,
        };
        let on_its_way = match self.in_flight.get(&key) {
            Some(scope) => *scope == self.scope,
            None => false,
        };
        if !preview_request_needed(captured_epoch, self.epoch, on_its_way, failed || retrying) {
            return PreviewDecision::Nothing;
        }
        if selected_live {
            PreviewDecision::Live
        } else {
            PreviewDecision::Capture
        }
    }

    /// A picture of a source is on its way.
    pub fn preview_requested(&mut self, source: &CaptureSourceInfo)
        ensures
            final(self)@ == (BoardView {
                in_flight: old(self)@.in_flight.insert(key_of(source@), old(self)@.scope),
                ..old(self)@
            }),
    {
        let _ = self.in_flight.insert(PreviewKey::for_source(source), self.scope);
    }

    /// Whether a picture of the test pattern is asked for, and in which scope.
    pub fn ensure_test_pattern_preview(&mut self, signature: TestPreviewSignature) -> (r: Option<u64>)
        ensures
            final(self)@ == old(self)@.test_prepared(signature),
            r == if needs_test_preview(
                final(self)@.test_loaded,
                final(self)@.test_in_flight,
                final(self)@.test_failed,
                final(self)@.scope,
                signature,
            ) {
                Some(final(self)@.scope)
            } else {
                None
            },
    {
        let outdated = match self.test_in_flight {
            Some(pending) => pending.scope == self.scope && pending.signature != signature,
            None => false,
        };
        if outdated {
            let _ = self.begin_preview_scope();
        }
        if self.test_in_flight.is_none() && self.test_loaded.is_some() && !is_signature(
            self.test_loaded,
            signature,
        ) {
            self.test_loaded = None;
        }
        if test_preview_request_needed(
            self.test_loaded,
            self.test_in_flight,
            self.test_failed,
            self.scope,
            signature,
        ) {
            Some(self.scope)
        } else {
            None
        }
    }

    /// A picture of the test pattern is on its way.
    pub fn test_pattern_requested(&mut self, scope: u64, signature: TestPreviewSignature)
        ensures
            final(self)@ == (BoardView {
                test_in_flight: Some(PendingTestPreview { scope, signature }),
                ..old(self)@
            }),
    {
        self.test_in_flight = Some(PendingTestPreview { scope, signature });
    }
}

/// When sources are searched for again.
#[derive(Clone, Copy, Debug, PartialEq, Eq, Structural)]
pub struct SourceRefresh {
    pub next: u64,
}

pub open spec fn later(now: u64, nanos: u64) -> u64 {
    if now + nanos > u64::MAX {
        u64::MAX
    } else {
        (now + nanos) as u64
    }
}

impl SourceRefresh {
    pub fn new(now: u64) -> (r: Self)
        ensures
            r.next == later(now, SOURCE_REFRESH_INTERVAL_NANOS),
    {
        SourceRefresh { next: now.saturating_add(SOURCE_REFRESH_INTERVAL_NANOS) }
    }

    /// Whether it is time for a search. A change that the platform reported is looked at shortly
    /// after it.
    pub fn is_due(&mut self, change_reported: bool, now: u64) -> (r: bool)
        ensures
            ({
                let next = if change_reported {
                    later(now, SOURCE_EVENT_DEBOUNCE_NANOS)
                } else {
                    old(self).next
                };
                &&& r == (now >= next)
                &&& final(self).next == if r {
                    later(now, SOURCE_REFRESH_INTERVAL_NANOS)
                } else {
                    next
                }
            }),
    {
        if change_reported {
            self.next = now.saturating_add(SOURCE_EVENT_DEBOUNCE_NANOS);
        }
        if now < self.next {
            return false;
        }
        self.next = now.saturating_add(SOURCE_REFRESH_INTERVAL_NANOS);
        true
    }
}

/// Among the pictures that are not protected, one that was shown after another is not removed before
/// it.
pub proof fn lemma_shown_picture_outlasts(
    v: BoardView,
    key: PreviewKeyView,
    other: PreviewKeyView,
    now: u64,
    after: Map<PreviewKeyView, CachedView>,
    maximum: nat,
    protected: Seq<PreviewKeyView>,
)
    requires
        v.cache.contains_key(key),
        v.cache.contains_key(other),
        v.cache[other].last_used < now,
        key != other,
        !protected.contains(other),
        is_pruned(v.shown(key, now).cache, after, maximum, protected),
    ensures
        after.contains_key(other) ==> after.contains_key(key),
{
    let before = v.shown(key, now).cache;
    assert(before.contains_key(key) && before.contains_key(other));
    assert(before[other] == v.cache[other]);
}

/// A picture of a scope that is over changes nothing that is shown.
pub proof fn lemma_old_scope_is_ignored(v: BoardView, scope: u64, key: PreviewKeyView)
    requires
        scope != v.scope,
    ensures
        !v.arrived(scope, key).wants(scope, key),
        v.arrived(scope, key).cache == v.cache,
        v.arrived(scope, key).sources == v.sources,
{
}

/// A card whose picture nobody took is pictured: from the stream where it is selected and the stream
/// runs, by a capture of its own where it is not selected.
pub proof fn lemma_missing_picture_is_taken(
    board: BoardView,
    source: SourceInfoView,
    selected_live: bool,
    running: bool,
    now: u64,
)
    requires
        ({
            let key = key_of(source);
            &&& !board.cache.contains_key(key)
            &&& !board.failed_epoch.contains_key(key)
            &&& !board.retry_after.contains_key(key)
            &&& !board.in_flight.contains_key(key)
        }),
    ensures
        board.decision(source, selected_live, running, now) == (if !selected_live {
            PreviewDecision::Capture
        } else if running {
            PreviewDecision::Live
        } else {
            PreviewDecision::Nothing
        }),
{
}

/// A picture that was taken in this round is not taken again; in the next one, or once the card shows
/// another name or size, it is.
pub proof fn lemma_taken_picture_is_kept(
    board: BoardView,
    source: SourceInfoView,
    preview: CachedView,
    now: u64,
)
    requires
        preview.source_name == source.name,
        preview.source_size.width == source.width,
        preview.source_size.height == source.height,
        preview.captured_epoch == board.epoch,
        board.epoch < u64::MAX,
        !board.in_flight.contains_key(key_of(source)),
        board.cache.contains_key(key_of(source)) ==> board.cache[key_of(source)].captured_epoch
            <= board.epoch,
    ensures
        ({
            let after = board.kept(key_of(source), preview);
            let next = BoardView { epoch: (board.epoch + 1) as u64, ..after };
            let resized = SourceInfoView { width: (source.width + 1) as u32, ..source };
            &&& after.decision(source, false, true, now) == PreviewDecision::Nothing
            &&& next.decision(source, false, true, now) == PreviewDecision::Capture
            &&& source.native_id is Some && source.width < u32::MAX ==> after.decision(
                resized,
                false,
                true,
                now,
            ) == PreviewDecision::Capture
            &&& board.cache.contains_key(key_of(source)) ==> after.cache[key_of(source)].texture
                == board.cache[key_of(source)].texture
        }),
{
    let resized = SourceInfoView { width: (source.width + 1) as u32, ..source };
    if source.native_id is Some {
        assert(key_of(resized) == key_of(source));
    }
}

/// A capture that failed for good is not tried again in this round; one that may yet succeed is tried
/// again two seconds later.
pub proof fn lemma_failed_picture_waits(
    board: BoardView,
    source: SourceInfoView,
    now: u64,
    later: u64,
)
    requires
        now + 2_000_000_000 <= u64::MAX,
        now <= later,
        ({
            let key = key_of(source);
            &&& !board.cache.contains_key(key)
            &&& !board.failed_epoch.contains_key(key)
            &&& !board.in_flight.contains_key(key)
        }),
    ensures
        board.failing(board.scope, board.epoch, key_of(source), true, now).decision(
            source,
            false,
            true,
            later,
        ) == PreviewDecision::Nothing,
        board.failing(board.scope, board.epoch, key_of(source), false, now).decision(
            source,
            false,
            true,
            later,
        ) == (if later - now < 2_000_000_000 {
            PreviewDecision::Nothing
        } else {
            PreviewDecision::Capture
        }),
{
}

/// A picture that is on its way is waited for in its own scope, and forgotten in the next.
pub proof fn lemma_awaited_picture(board: BoardView, source: SourceInfoView, now: u64)
    requires
        board.in_flight.contains_key(key_of(source)),
        board.in_flight[key_of(source)] == board.scope,
    ensures
        board.decision(source, false, true, now) == PreviewDecision::Nothing,
        board.rescoped().in_flight == Map::<PreviewKeyView, u64>::empty(),
        board.rescoped().scope != board.scope,
        !board.arrived(board.scope, key_of(source)).in_flight.contains_key(key_of(source)),
        forall|scope: u64|
            scope != board.scope ==> #[trigger] board.arrived(scope, key_of(source)) == board,
{
}

/// What a search finds is listed, those of the other kind stay, and only what is listed keeps its
/// picture. A search that was overtaken by another changes nothing.
pub proof fn lemma_found_sources_are_listed(
    board: BoardView,
    generation: u64,
    kind: SourceKind,
    found: Seq<SourceInfoView>,
    choice: SelectionState,
    available: Seq<u64>,
    elements: Seq<u64>,
)
    ensures
        ({
            let after = board.discovered(generation, kind, found, choice, available, elements);
            let current = board.discovery(kind).generation == Some(generation);
            &&& !current ==> after == board
            &&& current ==> forall|i: int|
                0 <= i < found.len() ==> after.sources.contains(#[trigger] found[i])
            &&& current ==> forall|i: int|
                0 <= i < board.sources.len() && board.sources[i].kind != kind_name(kind)
                    ==> after.sources.contains(#[trigger] board.sources[i])
            &&& current ==> forall|key: PreviewKeyView| #[trigger]
                after.cache.contains_key(key) ==> source_keys(after.sources).contains(key)
                    && board.cache.contains_key(key) && after.cache[key] == board.cache[key]
            &&& current ==> after.source_error is None && !after.discovery(kind).in_flight
        }),
{
    let other = selection::other_kinds(board.sources, kind_name(kind));
    let lasting = match kind {
        SourceKind::Window => selection::with_unlisted(
            found,
            board.sources,
            board.sources.len() as int,
            choice.display_non_window_elements,
            available,
            elements,
        ),
        SourceKind::Monitor => found,
    };
    let native = selection::with_selected_native(
        lasting,
        board.sources,
        choice.selected,
        choice.kind@,
        choice.native_id,
        choice.presence,
        choice.display_non_window_elements,
    );
    if kind == SourceKind::Window {
        lemma_unlisted_extends(
            found,
            board.sources,
            board.sources.len() as int,
            choice.display_non_window_elements,
            available,
            elements,
        );
    }
    let all = other + native;
    assert forall|i: int| 0 <= i < found.len() implies all.contains(#[trigger] found[i]) by {
        assert(lasting[i] == found[i]);
        assert(native[i] == lasting[i]);
        assert(all[other.len() + i] == found[i]);
    }
    assert forall|i: int|
        0 <= i < board.sources.len() && board.sources[i].kind != kind_name(kind) implies all.contains(
        #[trigger] board.sources[i],
    ) by {
        selection::lemma_other_kinds_stay(board.sources, kind_name(kind), board.sources[i]);
        assert(board.sources.contains(board.sources[i]));
        let j = choose|j: int| 0 <= j < other.len() && other[j] == board.sources[i];
        assert(all[j] == board.sources[i]);
    }
}

/// Windows that a search has not found are added behind those that it found.
proof fn lemma_unlisted_extends(
    sources: Seq<SourceInfoView>,
    previous: Seq<SourceInfoView>,
    n: int,
    with_elements: bool,
    available: Seq<u64>,
    elements: Seq<u64>,
)
    ensures
        ({
            let all = selection::with_unlisted(
                sources,
                previous,
                n,
                with_elements,
                available,
                elements,
            );
            &&& all.len() >= sources.len()
            &&& forall|i: int| 0 <= i < sources.len() ==> (#[trigger] all[i]) == sources[i]
        }),
    decreases n,
{
    if n > 0 {
        lemma_unlisted_extends(sources, previous, n - 1, with_elements, available, elements);
    }
}

/// The selected card is always protected, the others in sight as far as there is room, and nothing
/// else.
pub proof fn lemma_cards_in_sight_are_protected(
    selected: Option<PreviewKeyView>,
    visible: Seq<PreviewKeyView>,
    n: int,
    k: int,
)
    requires
        0 <= k < n <= visible.len(),
        n < 64,
    ensures
        ({
            let kept = protected_keys(selected, visible, n);
            &&& kept.len() <= n + 1
            &&& selected is Some ==> kept.contains(selected->0)
            &&& kept.contains(visible[k])
            &&& forall|key: PreviewKeyView| #[trigger]
                kept.contains(key) ==> Some(key) == selected || visible.contains(key)
        }),
    decreases n,
{
    let rest = protected_keys(selected, visible, n - 1);
    let kept = protected_keys(selected, visible, n);
    let last = visible[n - 1];
    if n > 1 {
        lemma_cards_in_sight_are_protected(
            selected,
            visible,
            n - 1,
            if k < n - 1 {
                k
            } else {
                0
            },
        );
    } else {
        assert(protected_keys(selected, visible, 0).len() <= 1);
        if selected is Some {
            assert(rest[0] == selected->0);
        }
    }
    if !rest.contains(last) {
        assert(kept[rest.len() as int] == last);
        assert forall|key: PreviewKeyView| rest.contains(key) implies #[trigger] kept.contains(key) by {
            let i = choose|i: int| 0 <= i < rest.len() && rest[i] == key;
            assert(kept[i] == key);
        }
        assert forall|key: PreviewKeyView| #[trigger] kept.contains(key) implies Some(key)
            == selected || visible.contains(key) by {
            let i = choose|i: int| 0 <= i < kept.len() && kept[i] == key;
            if i < rest.len() {
                assert(rest[i] == key);
                assert(rest.contains(key));
            } else {
                assert(visible[n - 1] == key);
            }
        }
    }
}

/// Every card in sight is pictured in its turn, the selected ones before the others.
pub proof fn lemma_every_card_has_its_turn(selected: Seq<bool>, k: int)
    requires
        0 <= k < selected.len() <= usize::MAX,
    ensures
        selected_first(selected).len() == selected.len(),
        selected_first(selected).contains(k as usize),
        forall|i: int, j: int|
            #![trigger selected_first(selected)[i], selected_first(selected)[j]]
            0 <= i < j < selected_first(selected).len()
                && selected[selected_first(selected)[j] as int]
                ==> selected[selected_first(selected)[i] as int],
{
    let n = selected.len() as int;
    let first = places(selected, n, true);
    let second = places(selected, n, false);
    lemma_places_counted(selected, n);
    lemma_place_is_found(selected, n, selected[k], k);
    let all = first + second;
    if selected[k] {
        let i = choose|i: int| 0 <= i < first.len() && first[i] == k;
        assert(all[i] == k);
    } else {
        let i = choose|i: int| 0 <= i < second.len() && second[i] == k;
        assert(all[first.len() + i] == k);
    }
    lemma_places_have_it(selected, n, true);
    lemma_places_have_it(selected, n, false);
}

proof fn lemma_places_counted(selected: Seq<bool>, n: int)
    requires
        0 <= n <= selected.len(),
    ensures
        places(selected, n, true).len() + places(selected, n, false).len() == n,
    decreases n,
{
    if n > 0 {
        lemma_places_counted(selected, n - 1);
    }
}

proof fn lemma_place_is_found(selected: Seq<bool>, n: int, wanted: bool, k: int)
    requires
        0 <= k < n <= selected.len() <= usize::MAX,
        selected[k] == wanted,
    ensures
        exists|i: int|
            0 <= i < places(selected, n, wanted).len() && (#[trigger] places(
                selected,
                n,
                wanted,
            )[i]) == k,
    decreases n,
{
    let all = places(selected, n, wanted);
    let rest = places(selected, n - 1, wanted);
    if k < n - 1 {
        lemma_place_is_found(selected, n - 1, wanted, k);
        let i = choose|i: int| 0 <= i < rest.len() && (#[trigger] rest[i]) == k;
        assert(all[i] == k);
    } else {
        assert(all[rest.len() as int] == k);
    }
}

proof fn lemma_places_have_it(selected: Seq<bool>, n: int, wanted: bool)
    requires
        0 <= n <= selected.len() <= usize::MAX,
    ensures
        forall|i: int|
            0 <= i < places(selected, n, wanted).len() ==> selected[(#[trigger] places(
                selected,
                n,
                wanted,
            )[i]) as int] == wanted,
    decreases n,
{
    let all = places(selected, n, wanted);
    if n > 0 {
        lemma_places_have_it(selected, n - 1, wanted);
        let rest = places(selected, n - 1, wanted);
        assert forall|i: int| 0 <= i < all.len() implies selected[(#[trigger] all[i]) as int]
            == wanted by {
            if i < rest.len() {
                assert(all[i] == rest[i]);
            } else {
                assert(all[i] as int == n - 1);
            }
        }
    }
}

} // verus!

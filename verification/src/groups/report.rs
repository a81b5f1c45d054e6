//! What viewers are told of the quality groups.

use vstd::prelude::*;

use vstd::string::*;

use crate::groups::{GroupsView, TranscodeGroups};
use crate::groups::codecs;
use crate::groups::codecs::display_codec_name;
use crate::list;
use crate::profile::{profile_fps, profile_height};
use crate::text;

verus! {

/// A quality group as a viewer sees it.
#[derive(Debug)]
pub struct GroupSummary {
    pub id: String,
    pub index: usize,
    pub label: String,
    pub quality: String,
    pub fps: u32,
    pub bitrate_bps: u32,
    pub codec: String,
    pub state: &'static str,
    pub reason: String,
    pub restart: bool,
    pub sync_mode: &'static str,
}

#[verifier::ext_equal]
pub struct SummaryView {
    pub id: Seq<char>,
    pub index: usize,
    pub label: Seq<char>,
    pub quality: Seq<char>,
    pub fps: u32,
    pub bitrate_bps: u32,
    pub codec: Seq<char>,
    pub state: Seq<char>,
    pub reason: Seq<char>,
    pub restart: bool,
    pub sync_mode: Seq<char>,
}

impl View for GroupSummary {
    type V = SummaryView;

    open spec fn view(&self) -> SummaryView {
        SummaryView {
            id: self.id@,
            index: self.index,
            label: self.label@,
            quality: self.quality@,
            fps: self.fps,
            bitrate_bps: self.bitrate_bps,
            codec: self.codec@,
            state: self.state@,
            reason: self.reason@,
            restart: self.restart,
            sync_mode: self.sync_mode@,
        }
    }
}

pub open spec fn summary_views(summaries: Seq<GroupSummary>) -> Seq<SummaryView> {
    summaries.map_values(|s: GroupSummary| s@)
}

impl GroupsView {
    /// The number that a viewer sees: the place among the offered groups, counted from one.
    pub open spec fn shown_index(self, group_id: usize) -> int {
        let place = list::position(self.active_ids(), group_id);
        if place < self.active_ids().len() {
            place + 1
        } else {
            group_id + 1
        }
    }

    pub open spec fn summary(self, group_id: usize, reason: Seq<char>, restart: bool) -> SummaryView {
        let group = self.group(group_id);
        let settings = group.settings;
        let height = match settings.output_height {
            Some(height) => height,
            None => settings.height,
        };
        let fps = match settings.output_fps {
            Some(fps) => fps,
            None => settings.fps,
        };
        SummaryView {
            id: "group-"@ + text::decimal(self.shown_index(group_id) as nat),
            index: self.shown_index(group_id) as usize,
            label: text::decimal(height as nat) + "p · "@ + text::decimal(fps as nat) + " FPS"@,
            quality: text::decimal(height as nat) + "p"@,
            fps,
            bitrate_bps: settings.bitrate,
            codec: codecs::codec_display(group.codec),
            state: group.lifecycle.state_name(),
            reason,
            restart,
            sync_mode: "latest-frame"@,
        }
    }

    /// The offered groups as viewers see them.
    pub open spec fn offered_summaries(self) -> Seq<SummaryView> {
        self.active_ids().map_values(|id: usize| self.summary(id, "available"@, false))
    }
}

proof fn lemma_active_below_len(v: GroupsView, n: int)
    requires
        0 <= n,
    ensures
        v.active_below(n).len() <= n,
    decreases n,
{
    if n > 0 {
        lemma_active_below_len(v, n - 1);
    }
}

impl TranscodeGroups {
    /// The place of a group among the offered ones, or the number of those.
    fn place_among(&self, ids: &Vec<usize>, group_id: usize) -> (r: usize)
        ensures
            r == list::position(ids@, group_id),
            r <= ids@.len(),
    {
        let mut i: usize = 0;
        while i < ids.len()
            invariant
                i <= ids@.len(),
                forall|j: int| 0 <= j < i ==> ids@[j] != group_id,
            decreases ids@.len() - i,
        {
            if ids[i] == group_id {
                proof {
                    list::lemma_position_found(ids@, group_id, i as int);
                }
                return i;
            }
            i += 1;
        }
        proof {
            list::lemma_position_missing(ids@, group_id);
        }
        ids.len()
    }

    /// What a viewer is told of a group.
    pub fn summary_of(&self, group_id: usize, reason: &str, restart: bool) -> (r: GroupSummary)
        requires
            self@.wf(),
            group_id < usize::MAX,
        ensures
            r@ == self@.summary(group_id, reason@, restart),
    {
        let ids = self.active_group_ids();
        let place = self.place_among(&ids, group_id);
        proof {
            lemma_active_below_len(self@, self@.groups.len() as int);
        }
        let index: usize = if place < ids.len() {
            place + 1
        } else {
            group_id + 1
        };
        let at = self.index(group_id);
        let height = profile_height(&self.groups[at].settings);
        let fps = profile_fps(&self.groups[at].settings);
        let quality = text::around_number("", height as u64, "p");
        let mut label = text::around_number("", height as u64, "p · ");
        text::push_decimal(&mut label, fps as u64);
        label.append(" FPS");
        proof {
            reveal_strlit("");
        }
        assert(quality@ =~= text::decimal(height as nat) + "p"@);
        assert(label@ =~= text::decimal(height as nat) + "p · "@ + text::decimal(fps as nat)
            + " FPS"@);
        let mut id = "group-".to_owned();
        text::push_decimal(&mut id, index as u64);
        GroupSummary {
            id,
            index,
            label,
            quality,
            fps,
            bitrate_bps: self.groups[at].settings.bitrate,
            codec: display_codec_name(self.groups[at].codec.as_str()).to_owned(),
            state: self.groups[at].lifecycle.client_state(),
            reason: reason.to_owned(),
            restart,
            sync_mode: "latest-frame",
        }
    }

    /// What viewers are told of the offered groups.
    pub fn summaries(&self) -> (r: Vec<GroupSummary>)
        requires
            self@.wf(),
        ensures
            summary_views(r@) == self@.offered_summaries(),
    {
        let ids = self.active_group_ids();
        let mut summaries: Vec<GroupSummary> = Vec::new();
        let mut i: usize = 0;
        while i < ids.len()
            invariant
                i <= ids@.len(),
                self@.wf(),
                ids@ == self@.active_ids(),
                forall|k: int| 0 <= k < ids@.len() ==> self@.is_active(#[trigger] ids@[k] as int),
                summaries@.len() == i,
                forall|k: int|
                    0 <= k < i ==> (#[trigger] summaries@[k])@ == self@.summary(
                        ids@[k],
                        "available"@,
                        false,
                    ),
            decreases ids@.len() - i,
        {
            assert(self@.is_active(ids@[i as int] as int));
            summaries.push(self.summary_of(ids[i], "available", false));
            i += 1;
        }
        assert(summary_views(summaries@) =~= self@.offered_summaries());
        summaries
    }
}

/// A group is shown with its own height, frame rate and bitrate, and the groups that are offered are
/// numbered from one on.
pub proof fn lemma_shown_groups(v: GroupsView, group_id: usize, reason: Seq<char>, restart: bool, k: int)
    requires
        v.wf(),
    ensures
        ({
            let shown = v.summary(group_id, reason, restart);
            let settings = v.group(group_id).settings;
            &&& shown.bitrate_bps == settings.bitrate
            &&& shown.fps == (match settings.output_fps {
                Some(fps) => fps,
                None => settings.fps,
            })
            &&& shown.quality.len() > 0 && shown.quality.last() == 'p' && text::parse_unsigned(
                shown.quality.drop_last(),
                u32::MAX as nat,
            ) == Some(
                (match settings.output_height {
                    Some(height) => height,
                    None => settings.height,
                }) as nat,
            )
            &&& shown.reason == reason && shown.restart == restart
        }),
        0 <= k < v.active_ids().len() && v.active_ids()[k] == group_id && (forall|j: int|
            0 <= j < k ==> v.active_ids()[j] != group_id) ==> v.shown_index(group_id) == k + 1,
{
    reveal_strlit("p");
    let settings = v.group(group_id).settings;
    let height = match settings.output_height {
        Some(height) => height,
        None => settings.height,
    };
    let shown = v.summary(group_id, reason, restart);
    text::lemma_decimal_round_trip(height as nat, u32::MAX as nat);
    assert(shown.quality.drop_last() =~= text::decimal(height as nat));
    if 0 <= k < v.active_ids().len() && v.active_ids()[k] == group_id && (forall|j: int|
        0 <= j < k ==> v.active_ids()[j] != group_id) {
        list::lemma_position_found(v.active_ids(), group_id, k);
    }
}

} // verus!

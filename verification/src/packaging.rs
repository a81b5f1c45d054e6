//! Where FFmpeg comes from.

use vstd::prelude::*;
use vstd::string::*;

use crate::random::random_number;
use crate::text;

verus! {

/// A runtime directory that has not changed for longer than this belongs to no running host.
pub const STALE_RUNTIME_AGE_NANOS: u64 = 60_000_000_000;

/// The command by which FFmpeg is run, and the directory that goes when the host does.
#[derive(Debug)]
pub struct PreparedFfmpeg {
    pub command: String,
    pub cleanup_dir: Option<String>,
}

/// The name of a runtime directory.
pub open spec fn run_name(pid: u32, number: u64) -> Seq<char> {
    "run-"@ + text::decimal(pid as nat) + "-"@ + text::decimal(number as nat)
}

pub fn run_directory(pid: u32, number: u64) -> (r: String)
    ensures
        r@ == run_name(pid, number),
{
    let mut name = text::around_number("run-", pid as u64, "-");
    text::push_decimal(&mut name, number);
    name
}

/// A fresh name for a runtime directory of this process.
pub fn fresh_run_directory(pid: u32) -> (r: String)
    ensures
        exists|number: u64| r@ == #[trigger] run_name(pid, number),
{
    run_directory(pid, random_number())
}

/// Whether an entry of the runtime directory is left over. `age_nanos` is the time since it last
/// changed, where that is known.
pub fn is_stale_runtime_dir(is_directory: bool, name: Option<&str>, age_nanos: Option<u64>) -> (r: bool)
    ensures
        r == (is_directory && name is Some && "run-"@.is_prefix_of(name->0@) && age_nanos is Some
            && age_nanos->0 > STALE_RUNTIME_AGE_NANOS),
{
    let named = match name {
        Some(name) => text::starts_with(name, "run-"),
        None => false,
    };
    let old_enough = match age_nanos {
        Some(age) => age > STALE_RUNTIME_AGE_NANOS,
        None => false,
    };
    is_directory && named && old_enough
}

/// The names of directories that hosts make are recognized by their prefix.
pub proof fn lemma_run_directories_are_recognized(pid: u32, number: u64)
    ensures
        "run-"@.is_prefix_of(run_name(pid, number)),
{
    assert(run_name(pid, number).subrange(0, "run-"@.len() as int) =~= "run-"@);
}

pub open spec fn candidates() -> Seq<Seq<char>> {
    seq!["ffmpeg"@, "ffmpeg.exe"@, "ffmpeg/ffmpeg.exe"@, "ffmpeg/ffmpeg"@]
}

/// The commands under which an installed FFmpeg is looked for, in this order.
pub fn candidate_paths() -> (r: Vec<&'static str>)
    ensures
        text::views_of(r@) == candidates(),
{
    let paths = vec!["ffmpeg", "ffmpeg.exe", "ffmpeg/ffmpeg.exe", "ffmpeg/ffmpeg"];
    assert(text::views_of(paths@) =~= candidates());
    paths
}

/// Where FFmpeg is taken from.
#[derive(Clone, Copy, Debug, PartialEq, Eq, Structural)]
pub enum FfmpegChoice {
    /// The executable that is part of the program is written out.
    Extract,
    /// An installed one runs, the candidate of this number.
    Installed(usize),
    EmbeddedEmpty,
    NotFound,
}

impl FfmpegChoice {
    /// Why there is none.
    pub fn failure(self) -> (r: Option<&'static str>)
        ensures
            match r {
                Some(message) => message@ == match self {
                    FfmpegChoice::EmbeddedEmpty =>
                        "embedded FFmpeg is empty; rebuild with a valid FFmpeg executable"@,
                    _ =>
                        "FFmpeg was not found. Put it on PATH or build with ILS_FFMPEG_PATH pointing to an FFmpeg executable"@,
                } && (self == FfmpegChoice::EmbeddedEmpty || self == FfmpegChoice::NotFound),
                None => self == FfmpegChoice::Extract || self is Installed,
            },
    {
        match self {
            FfmpegChoice::EmbeddedEmpty => Some(
                "embedded FFmpeg is empty; rebuild with a valid FFmpeg executable",
            ),
            FfmpegChoice::NotFound => Some(
                "FFmpeg was not found. Put it on PATH or build with ILS_FFMPEG_PATH pointing to an FFmpeg executable",
            ),
            _ => None,
        }
    }
}

pub open spec fn first_working(works: Seq<bool>) -> Option<int>
    decreases works.len(),
{
    if works.len() == 0 {
        None
    } else if works[0] {
        Some(0)
    } else {
        match first_working(works.drop_first()) {
            Some(i) => Some(i + 1),
            None => None,
        }
    }
}

/// Chooses where FFmpeg is taken from: the executable that is part of the program, of which the
/// size is given, goes before the first installed one that runs.
pub fn choose_ffmpeg(embedded_size: Option<usize>, works: &Vec<bool>) -> (r: FfmpegChoice)
    ensures
        r == match embedded_size {
            Some(size) => if size == 0 {
                FfmpegChoice::EmbeddedEmpty
            } else {
                FfmpegChoice::Extract
            },
            None => match first_working(works@) {
                Some(i) => FfmpegChoice::Installed(i as usize),
                None => FfmpegChoice::NotFound,
            },
        },
{
    if let Some(size) = embedded_size {
        return if size == 0 {
            FfmpegChoice::EmbeddedEmpty
        } else {
            FfmpegChoice::Extract
        };
    }
    let mut i: usize = 0;
    assert(works@.skip(0) =~= works@);
    while i < works.len()
        invariant
            i <= works@.len(),
            embedded_size is None,
            first_working(works@) == match first_working(works@.skip(i as int)) {
                Some(k) => Some(k + i),
                None => None,
            },
        decreases works@.len() - i,
    {
        if works[i] {
            return FfmpegChoice::Installed(i);
        }
        assert(works@.skip(i as int).drop_first() =~= works@.skip(i + 1));
        i += 1;
    }
    FfmpegChoice::NotFound
}

/// The first encoder program that works is taken.
pub proof fn lemma_first_working_program(works: Seq<bool>, k: int)
    requires
        0 <= k < works.len(),
        works[k],
        forall|j: int| 0 <= j < k ==> !#[trigger] works[j],
    ensures
        first_working(works) == Some(k),
    decreases works.len(),
{
    if k > 0 {
        let rest = works.drop_first();
        assert(!works[0]);
        assert forall|j: int| 0 <= j < k - 1 implies !#[trigger] rest[j] by {
            assert(rest[j] == works[j + 1]);
        }
        lemma_first_working_program(rest, k - 1);
    }
}

} // verus!

//! Which codec a viewer is sent.

use vstd::prelude::*;

use crate::config;
use crate::text;

verus! {

pub open spec fn codec_display(codec: Seq<char>) -> Seq<char> {
    let name = text::ascii_lower(codec);
    if name == "vp8"@ {
        "VP8"@
    } else if name == "vp9"@ {
        "VP9"@
    } else if name == "h264"@ {
        "H.264"@
    } else if name == "av1"@ {
        "AV1"@
    } else {
        "Unknown"@
    }
}

/// The name of a codec as viewers see it.
pub fn display_codec_name(codec: &str) -> (r: &'static str)
    ensures
        r@ == codec_display(codec@),
{
    let name = text::to_ascii_lowercase(codec);
    if text::text_eq(name.as_str(), "vp8") {
        "VP8"
    } else if text::text_eq(name.as_str(), "vp9") {
        "VP9"
    } else if text::text_eq(name.as_str(), "h264") {
        "H.264"
    } else if text::text_eq(name.as_str(), "av1") {
        "AV1"
    } else {
        "Unknown"
    }
}

/// The codec with which a stream begins under a policy.
pub open spec fn initial_codec(policy: Seq<char>) -> Seq<char> {
    let name = text::ascii_lower(policy);
    if name == "vp9"@ {
        "vp9"@
    } else if name == "h264"@ {
        "h264"@
    } else {
        "vp8"@
    }
}

pub fn initial_codec_for_policy(policy: &str) -> (r: &'static str)
    ensures
        r@ == initial_codec(policy@),
{
    let name = text::to_ascii_lowercase(policy);
    if text::text_eq(name.as_str(), "vp9") {
        "vp9"
    } else if text::text_eq(name.as_str(), "h264") {
        "h264"
    } else {
        "vp8"
    }
}

/// Whether a text stands in a list.
pub fn contains_codec(codecs: &Vec<String>, codec: &str) -> (r: bool)
    ensures
        r == config::texts(codecs@).contains(codec@),
{
    let mut i: usize = 0;
    while i < codecs.len()
        invariant
            i <= codecs@.len(),
            forall|j: int| 0 <= j < i ==> config::texts(codecs@)[j] != codec@,
        decreases codecs@.len() - i,
    {
        if text::text_eq(codecs[i].as_str(), codec) {
            assert(config::texts(codecs@)[i as int] == codec@);
            return true;
        }
        i += 1;
    }
    false
}

/// The codecs with a new one, unless it is among them.
pub open spec fn with_codec(codecs: Seq<Seq<char>>, codec: Seq<char>) -> Seq<Seq<char>> {
    if codecs.contains(codec) {
        codecs
    } else {
        codecs.push(codec)
    }
}

pub fn insert_codec(codecs: &mut Vec<String>, codec: String)
    ensures
        config::texts(final(codecs)@) == with_codec(config::texts(old(codecs)@), codec@),
{
    if !contains_codec(codecs, codec.as_str()) {
        codecs.push(codec);
        assert(config::texts(codecs@) =~= config::texts(old(codecs)@).push(codec@));
    }
}

/// The codecs that a host with the given encoder listing can produce, besides the first one.
pub open spec fn listed_codecs(initial: Seq<char>, listing: Option<Seq<char>>) -> Seq<Seq<char>> {
    let basic = with_codec(seq!["vp8"@], text::ascii_lower(initial));
    match listing {
        None => basic,
        Some(listing) => {
            let with_vp9 = if text::contains_seq(listing, "libvpx-vp9"@) {
                with_codec(basic, "vp9"@)
            } else {
                basic
            };
            if text::contains_seq(listing, "libx264"@) || text::contains_seq(
                listing,
                "h264_nvenc"@,
            ) {
                with_codec(with_vp9, "h264"@)
            } else {
                with_vp9
            }
        },
    }
}

/// The codecs of this host. `listing` is what FFmpeg prints about its encoders, if it could be
/// asked.
pub fn discover_host_codecs(initial: &str, listing: Option<&str>) -> (r: Vec<String>)
    ensures
        config::texts(r@) == listed_codecs(
            initial@,
            match listing {
                Some(listing) => Some(listing@),
                None => None,
            },
        ),
{
    let mut codecs: Vec<String> = Vec::new();
    codecs.push("vp8".to_owned());
    assert(config::texts(codecs@) =~= seq!["vp8"@]);
    insert_codec(&mut codecs, text::to_ascii_lowercase(initial));
    if let Some(listing) = listing {
        if text::contains_text(listing, "libvpx-vp9") {
            insert_codec(&mut codecs, "vp9".to_owned());
        }
        if text::contains_text(listing, "libx264") || text::contains_text(listing, "h264_nvenc") {
            insert_codec(&mut codecs, "h264".to_owned());
        }
    }
    codecs
}

/// The codec that a MIME type names: what stands behind its last slash, in small letters.
pub open spec fn mime_codec(mime: Seq<char>) -> Seq<char> {
    text::ascii_lower(text::after_last(text::trim_seq(mime), '/'))
}

pub open spec fn is_known_codec(codec: Seq<char>) -> bool {
    codec == "vp8"@ || codec == "vp9"@ || codec == "h264"@ || codec == "av1"@
}

/// The known codecs among some MIME types.
pub open spec fn known_codecs(mimes: Seq<Seq<char>>) -> Seq<Seq<char>>
    decreases mimes.len(),
{
    if mimes.len() == 0 {
        Seq::empty()
    } else {
        let rest = known_codecs(mimes.drop_last());
        let codec = mime_codec(mimes.last());
        if is_known_codec(codec) {
            with_codec(rest, codec)
        } else {
            rest
        }
    }
}

/// What a viewer measured before it joined, and what it can decode.
#[derive(Debug)]
pub struct ViewerBootstrap {
    pub download_bps: u64,
    pub latency_ms: u64,
    pub timed_out: bool,
    pub video_capabilities: Vec<String>,
}

pub fn viewer_supported_codecs(probe: &ViewerBootstrap) -> (r: Vec<String>)
    ensures
        config::texts(r@) == known_codecs(config::texts(probe.video_capabilities@)),
{
    let ghost mimes = config::texts(probe.video_capabilities@);
    let mut codecs: Vec<String> = Vec::new();
    let mut i: usize = 0;
    assert(config::texts(codecs@) =~= known_codecs(mimes.take(0)));
    while i < probe.video_capabilities.len()
        invariant
            i <= probe.video_capabilities@.len(),
            mimes == config::texts(probe.video_capabilities@),
            config::texts(codecs@) == known_codecs(mimes.take(i as int)),
        decreases probe.video_capabilities@.len() - i,
    {
        let trimmed = text::trim(probe.video_capabilities[i].as_str());
        let codec = text::to_ascii_lowercase(text::after_last_char(trimmed, '/'));
        assert(mimes.take(i + 1).drop_last() =~= mimes.take(i as int));
        if text::text_eq(codec.as_str(), "vp8") || text::text_eq(codec.as_str(), "vp9")
            || text::text_eq(codec.as_str(), "h264") || text::text_eq(codec.as_str(), "av1") {
            insert_codec(&mut codecs, codec);
        }
        i += 1;
    }
    assert(mimes.take(i as int) =~= mimes);
    codecs
}

/// Whether a viewer can be sent a codec. A viewer that reported nothing is taken to decode VP8.
pub open spec fn is_eligible(
    codec: Seq<char>,
    host: Seq<Seq<char>>,
    supported: Seq<Seq<char>>,
    rejected: Seq<Seq<char>>,
) -> bool {
    &&& host.contains(codec)
    &&& !rejected.contains(codec)
    &&& supported.contains(codec) || (supported.len() == 0 && codec == "vp8"@)
}

/// The codec for a viewer: the one of the policy if it is eligible, else the first of VP8, VP9
/// and H.264 that is, else VP8. VP8 stands first because every browser decodes it.
pub open spec fn chosen_codec(
    policy: Seq<char>,
    host: Seq<Seq<char>>,
    supported: Seq<Seq<char>>,
    rejected: Seq<Seq<char>>,
) -> Seq<char> {
    let preferred = text::ascii_lower(policy);
    if preferred != "auto"@ && is_eligible(preferred, host, supported, rejected) {
        preferred
    } else if is_eligible("vp8"@, host, supported, rejected) {
        "vp8"@
    } else if is_eligible("vp9"@, host, supported, rejected) {
        "vp9"@
    } else if is_eligible("h264"@, host, supported, rejected) {
        "h264"@
    } else {
        "vp8"@
    }
}

fn eligible(
    codec: &str,
    host: &Vec<String>,
    supported: &Vec<String>,
    rejected: &Vec<String>,
) -> (r: bool)
    ensures
        r == is_eligible(codec@, config::texts(host@), config::texts(supported@), config::texts(rejected@)),
{
    contains_codec(host, codec) && !contains_codec(rejected, codec) && (contains_codec(
        supported,
        codec,
    ) || (supported.len() == 0 && text::text_eq(codec, "vp8")))
}

pub fn choose_codec(
    policy: &str,
    host_codecs: &Vec<String>,
    supported_codecs: &Vec<String>,
    rejected_codecs: &Vec<String>,
) -> (r: String)
    ensures
        r@ == chosen_codec(
            policy@,
            config::texts(host_codecs@),
            config::texts(supported_codecs@),
            config::texts(rejected_codecs@),
        ),
{
    let preferred = text::to_ascii_lowercase(policy);
    if !text::text_eq(preferred.as_str(), "auto") && eligible(
        preferred.as_str(),
        host_codecs,
        supported_codecs,
        rejected_codecs,
    ) {
        return preferred;
    }
    if eligible("vp8", host_codecs, supported_codecs, rejected_codecs) {
        "vp8".to_owned()
    } else if eligible("vp9", host_codecs, supported_codecs, rejected_codecs) {
        "vp9".to_owned()
    } else if eligible("h264", host_codecs, supported_codecs, rejected_codecs) {
        "h264".to_owned()
    } else {
        "vp8".to_owned()
    }
}

/// A codec that a viewer rejected is never chosen for it, VP8 as the last resort aside.
pub proof fn lemma_rejected_codec_is_avoided(
    policy: Seq<char>,
    host: Seq<Seq<char>>,
    supported: Seq<Seq<char>>,
    rejected: Seq<Seq<char>>,
)
    ensures
        ({
            let codec = chosen_codec(policy, host, supported, rejected);
            codec == "vp8"@ || (!rejected.contains(codec) && host.contains(codec)
                && supported.contains(codec))
        }),
{
}

/// A codec that the host encodes, the viewer decodes and has not rejected is chosen if there is one:
/// the one that the host prefers before all, then VP8, VP9 and H.264 in this order.
pub proof fn lemma_common_codec_is_chosen(
    policy: Seq<char>,
    host: Seq<Seq<char>>,
    supported: Seq<Seq<char>>,
    rejected: Seq<Seq<char>>,
    codec: Seq<char>,
)
    requires
        host.contains(codec),
        supported.contains(codec),
        !rejected.contains(codec),
    ensures
        ({
            let chosen = chosen_codec(policy, host, supported, rejected);
            let common = host.contains(chosen) && supported.contains(chosen) && !rejected.contains(
                chosen,
            );
            &&& codec == text::ascii_lower(policy) && codec != "auto"@ ==> chosen == codec
            &&& codec == "vp8"@ || codec == "vp9"@ || codec == "h264"@ || (codec
                == text::ascii_lower(policy) && codec != "auto"@) ==> common
            &&& codec == "vp8"@ && text::ascii_lower(policy) == "auto"@ ==> chosen == "vp8"@
            &&& codec == "vp9"@ && text::ascii_lower(policy) == "auto"@ && chosen != "vp8"@
                ==> chosen == "vp9"@
        }),
{
    assert(supported.len() > 0);
}

/// What a viewer decodes is what its media types name, as far as it is known.
pub proof fn lemma_known_codecs(mimes: Seq<Seq<char>>, codec: Seq<char>)
    ensures
        known_codecs(mimes).contains(codec) <==> (codec == "vp8"@ || codec == "vp9"@ || codec
            == "h264"@ || codec == "av1"@) && exists|i: int|
            0 <= i < mimes.len() && mime_codec(#[trigger] mimes[i]) == codec,
    decreases mimes.len(),
{
    if mimes.len() > 0 {
        let rest = mimes.drop_last();
        let known = known_codecs(rest);
        let last = mime_codec(mimes.last());
        lemma_known_codecs(rest, codec);
        assert(mimes[mimes.len() - 1] == mimes.last());
        assert(known.push(last)[known.len() as int] == last);
        assert forall|c: Seq<char>| known.contains(c) implies known.push(last).contains(c) by {
            let i = choose|i: int| 0 <= i < known.len() && known[i] == c;
            assert(known.push(last)[i] == c);
        }
        if known.push(last).contains(codec) && codec != last {
            let i = choose|i: int|
                0 <= i < known.push(last).len() && known.push(last)[i] == codec;
            assert(known[i] == codec);
        }
        if exists|i: int| 0 <= i < rest.len() && mime_codec(#[trigger] rest[i]) == codec {
            let i = choose|i: int| 0 <= i < rest.len() && mime_codec(#[trigger] rest[i]) == codec;
            assert(mimes[i] == rest[i]);
        }
        if exists|i: int| 0 <= i < mimes.len() && mime_codec(#[trigger] mimes[i]) == codec {
            let i = choose|i: int| 0 <= i < mimes.len() && mime_codec(#[trigger] mimes[i]) == codec;
            if i < rest.len() {
                assert(rest[i] == mimes[i]);
            }
        }
    }
}

/// A codec has one name wherever viewers see it.
pub proof fn lemma_codecs_are_displayed_alike(codec: Seq<char>)
    ensures
        crate::media::codec_of(codec) matches Some(known) ==> codec_display(codec)
            == known.display_name(),
        text::ascii_lower(codec) == "av1"@ ==> codec_display(codec) == "AV1"@,
        !is_known_codec(text::ascii_lower(codec)) ==> codec_display(codec) == "Unknown"@,
{
    reveal_strlit("vp8");
    reveal_strlit("vp9");
    reveal_strlit("av1");
    reveal_strlit("h264");
    assert("vp8"@[0] != "av1"@[0] && "vp9"@[0] != "av1"@[0] && "h264"@.len() == 4 && "av1"@.len()
        == 3);
}

/// A group begins with the codec that the host prefers where it is one that the host encodes, however
/// it is written, and with VP8 otherwise.
pub proof fn lemma_first_codec_of_a_group(policy: Seq<char>)
    ensures
        match crate::media::codec_of(policy) {
            Some(known) => initial_codec(policy) == known.identifier(),
            None => initial_codec(policy) == "vp8"@,
        },
{
}

} // verus!

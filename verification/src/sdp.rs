//! What the host reads from a session description.

use vstd::prelude::*;

use crate::text;

verus! {

/// The lines of a description, without the white space around them.
pub open spec fn lines(sdp: Seq<char>) -> Seq<Seq<char>> {
    text::split_seq(sdp, '\n').map_values(|line: Seq<char>| text::trim_seq(line))
}

/// What stands behind a prefix.
pub open spec fn behind(line: Seq<char>, prefix: Seq<char>) -> Option<Seq<char>> {
    if prefix.is_prefix_of(line) {
        Some(line.skip(prefix.len() as int))
    } else {
        None
    }
}

/// What stands behind a prefix in the first line that has it.
pub open spec fn first_behind(lines: Seq<Seq<char>>, prefix: Seq<char>) -> Option<Seq<char>>
    decreases lines.len(),
{
    if lines.len() == 0 {
        None
    } else {
        match behind(lines[0], prefix) {
            Some(value) => Some(value),
            None => first_behind(lines.drop_first(), prefix),
        }
    }
}

/// The ICE user name fragment that a description offers first.
pub open spec fn offered_ufrag(sdp: Seq<char>) -> Option<Seq<char>> {
    match first_behind(lines(sdp), "a=ice-ufrag:"@) {
        Some(value) => if text::trim_seq(value).len() == 0 {
            None
        } else {
            Some(text::trim_seq(value))
        },
        None => None,
    }
}

pub fn ice_ufrag(sdp: &str) -> (r: Option<String>)
    ensures
        match r {
            Some(ufrag) => offered_ufrag(sdp@) == Some(ufrag@),
            None => offered_ufrag(sdp@) is None,
        },
{
    let parts = text::split(sdp, '\n');
    let ghost all = lines(sdp@);
    let mut i: usize = 0;
    assert(all.skip(0) =~= all);
    while i < parts.len()
        invariant
            i <= parts@.len(),
            text::views_of(parts@) == text::split_seq(sdp@, '\n'),
            all == lines(sdp@),
            all.len() == parts@.len(),
            first_behind(all, "a=ice-ufrag:"@) == first_behind(
                all.skip(i as int),
                "a=ice-ufrag:"@,
            ),
        decreases parts@.len() - i,
    {
        let line = text::trim(parts[i]);
        assert(text::views_of(parts@)[i as int] == parts@[i as int]@);
        assert(all.skip(i as int)[0] == line@);
        if let Some(rest) = text::strip_prefix(line, "a=ice-ufrag:") {
            let value = text::trim(rest);
            if value.is_empty() {
                return None;
            }
            return Some(value.to_owned());
        }
        assert(all.skip(i as int).drop_first() =~= all.skip(i + 1));
        i += 1;
    }
    assert(all.skip(i as int) =~= Seq::empty());
    None
}

/// A line `a=rtpmap:` that maps a payload type to H.264: the payload type.
pub open spec fn h264_mapping(line: Seq<char>) -> Option<Seq<char>> {
    match behind(line, "a=rtpmap:"@) {
        Some(mapping) => match text::split_once_seq(mapping, ' ') {
            Some((payload, encoding)) => if text::ascii_lower(text::split_seq(encoding, '/')[0])
                == text::ascii_lower("H264"@) {
                Some(text::trim_seq(payload))
            } else {
                None
            },
            None => None,
        },
        None => None,
    }
}

/// Whether a description maps a payload type to H.264.
pub open spec fn maps_h264(lines: Seq<Seq<char>>, payload: Seq<char>) -> bool {
    exists|i: int| 0 <= i < lines.len() && h264_mapping(#[trigger] lines[i]) == Some(payload)
}

/// The value of a hexadecimal digit, small letters only.
pub open spec fn hex_value(c: char) -> Option<nat> {
    if '0' <= c <= '9' {
        Some((c as nat - '0' as nat) as nat)
    } else if 'a' <= c <= 'f' {
        Some((c as nat - 'a' as nat + 10) as nat)
    } else {
        None
    }
}

/// Constrained baseline of level 3.1 or above, as `profile-level-id` writes it.
pub open spec fn is_baseline_level_31(id: Seq<char>) -> bool {
    &&& id.len() == 6
    &&& "42e0"@.is_prefix_of(id)
    &&& hex_value(id[4]) is Some
    &&& hex_value(id[5]) is Some
    &&& hex_value(id[4])->0 * 16 + hex_value(id[5])->0 >= 0x1f
}

/// Whether a format parameter names a fitting profile and level.
pub open spec fn is_fitting_parameter(parameter: Seq<char>) -> bool {
    match text::split_once_seq(text::trim_seq(parameter), '=') {
        Some((name, value)) => text::ascii_lower(text::trim_seq(name)) == text::ascii_lower(
            "profile-level-id"@,
        ) && is_baseline_level_31(text::ascii_lower(text::trim_seq(value))),
        None => false,
    }
}

pub open spec fn has_fitting_parameter(parameters: Seq<Seq<char>>) -> bool {
    exists|k: int|
        0 <= k < parameters.len() && is_fitting_parameter(#[trigger] parameters[k])
}

/// A line `a=fmtp:` with a fitting profile and level: its payload type.
pub open spec fn fitting_format(line: Seq<char>) -> Option<Seq<char>> {
    match behind(line, "a=fmtp:"@) {
        Some(format) => match text::split_once_seq(format, ' ') {
            Some((payload, parameters)) => if has_fitting_parameter(
                text::split_seq(parameters, ';'),
            ) {
                Some(text::trim_seq(payload))
            } else {
                None
            },
            None => None,
        },
        None => None,
    }
}

/// Whether a description takes constrained-baseline H.264 of level 3.1: some payload type is mapped
/// to H.264 and has a fitting format.
pub open spec fn supports_level_31(sdp: Seq<char>) -> bool {
    exists|j: int|
        0 <= j < lines(sdp).len() && #[trigger] fitting_format(lines(sdp)[j]) is Some
            && maps_h264(lines(sdp), fitting_format(lines(sdp)[j])->0)
}

fn mapped_payload<'a>(line: &'a str) -> (r: Option<&'a str>)
    ensures
        match r {
            Some(payload) => h264_mapping(line@) == Some(payload@),
            None => h264_mapping(line@) is None,
        },
{
    let mapping = match text::strip_prefix(line, "a=rtpmap:") {
        Some(mapping) => mapping,
        None => {
            return None;
        },
    };
    let (payload, encoding) = match text::split_once(mapping, ' ') {
        Some(parts) => parts,
        None => {
            return None;
        },
    };
    let names = text::split(encoding, '/');
    assert(text::views_of(names@)[0] == names@[0]@);
    if text::eq_ignore_ascii_case(names[0], "H264") {
        Some(text::trim(payload))
    } else {
        None
    }
}

fn hex_digit(c: char) -> (r: Option<u32>)
    ensures
        match r {
            Some(value) => hex_value(c) == Some(value as nat) && value < 16,
            None => hex_value(c) is None,
        },
{
    if '0' <= c && c <= '9' {
        Some(c as u32 - '0' as u32)
    } else if 'a' <= c && c <= 'f' {
        Some(c as u32 - 'a' as u32 + 10)
    } else {
        None
    }
}

fn baseline_level_31(id: &str) -> (r: bool)
    ensures
        r == is_baseline_level_31(id@),
{
    let chars = text::chars_of(id);
    if chars.len() != 6 || !text::starts_with(id, "42e0") {
        return false;
    }
    match (hex_digit(chars[4]), hex_digit(chars[5])) {
        (Some(high), Some(low)) => high * 16 + low >= 0x1f,
        _ => false,
    }
}

fn fitting_parameter(parameter: &str) -> (r: bool)
    ensures
        r == is_fitting_parameter(parameter@),
{
    match text::split_once(text::trim(parameter), '=') {
        Some((name, value)) => {
            let lower = text::to_ascii_lowercase(text::trim(value));
            text::eq_ignore_ascii_case(text::trim(name), "profile-level-id") && baseline_level_31(
                lower.as_str(),
            )
        },
        None => false,
    }
}

fn any_fitting_parameter(parameters: &str) -> (r: bool)
    ensures
        r == has_fitting_parameter(text::split_seq(parameters@, ';')),
{
    let parts = text::split(parameters, ';');
    let ghost all = text::split_seq(parameters@, ';');
    let mut k: usize = 0;
    while k < parts.len()
        invariant
            k <= parts@.len(),
            all == text::split_seq(parameters@, ';'),
            text::views_of(parts@) == all,
            forall|j: int| 0 <= j < k ==> !is_fitting_parameter(#[trigger] all[j]),
        decreases parts@.len() - k,
    {
        assert(all[k as int] == parts@[k as int]@);
        if fitting_parameter(parts[k]) {
            return true;
        }
        k += 1;
    }
    assert(parts@.len() == all.len());
    false
}

fn fitting_payload<'a>(line: &'a str) -> (r: Option<&'a str>)
    ensures
        match r {
            Some(payload) => fitting_format(line@) == Some(payload@),
            None => fitting_format(line@) is None,
        },
{
    let format = match text::strip_prefix(line, "a=fmtp:") {
        Some(format) => format,
        None => {
            return None;
        },
    };
    match text::split_once(format, ' ') {
        Some((payload, parameters)) => {
            if any_fitting_parameter(parameters) {
                Some(text::trim(payload))
            } else {
                None
            }
        },
        None => None,
    }
}

fn any_mapping(parts: &Vec<&str>, payload: &str) -> (r: bool)
    ensures
        r == maps_h264(
            text::views_of(parts@).map_values(|line: Seq<char>| text::trim_seq(line)),
            payload@,
        ),
{
    let ghost all = text::views_of(parts@).map_values(|line: Seq<char>| text::trim_seq(line));
    let mut i: usize = 0;
    while i < parts.len()
        invariant
            i <= parts@.len(),
            all == text::views_of(parts@).map_values(|line: Seq<char>| text::trim_seq(line)),
            forall|j: int| 0 <= j < i ==> h264_mapping(#[trigger] all[j]) != Some(payload@),
        decreases parts@.len() - i,
    {
        let line = text::trim(parts[i]);
        assert(all[i as int] == line@);
        if let Some(mapped) = mapped_payload(line) {
            if text::text_eq(mapped, payload) {
                return true;
            }
        }
        i += 1;
    }
    false
}

pub fn offer_supports_h264_level_31(sdp: &str) -> (r: bool)
    ensures
        r == supports_level_31(sdp@),
{
    let parts = text::split(sdp, '\n');
    let ghost all = lines(sdp@);
    let mut j: usize = 0;
    while j < parts.len()
        invariant
            j <= parts@.len(),
            text::views_of(parts@) == text::split_seq(sdp@, '\n'),
            all == lines(sdp@),
            forall|k: int|
                0 <= k < j ==> !(#[trigger] fitting_format(all[k]) is Some && maps_h264(
                    all,
                    fitting_format(all[k])->0,
                )),
        decreases parts@.len() - j,
    {
        let line = text::trim(parts[j]);
        assert(all[j as int] == line@);
        if let Some(payload) = fitting_payload(line) {
            if any_mapping(&parts, payload) {
                assert(fitting_format(all[j as int]) is Some);
                return true;
            }
        }
        j += 1;
    }
    assert(all.len() == parts@.len());
    false
}

/// The user fragment of an offer is what follows the first line that names one.
pub proof fn lemma_offered_fragment(sdp: Seq<char>, fragment: Seq<char>, k: int)
    requires
        0 <= k < lines(sdp).len(),
        lines(sdp)[k] == "a=ice-ufrag:"@ + fragment,
        fragment.len() > 0,
        !text::is_white_space(fragment[0]),
        !text::is_white_space(fragment.last()),
        forall|j: int| 0 <= j < k ==> !"a=ice-ufrag:"@.is_prefix_of(#[trigger] lines(sdp)[j]),
    ensures
        offered_ufrag(sdp) == Some(fragment),
{
    lemma_first_behind(lines(sdp), "a=ice-ufrag:"@, fragment, k);
    text::lemma_trimmed(Seq::empty(), fragment, Seq::empty());
    assert(Seq::<char>::empty() + fragment + Seq::<char>::empty() =~= fragment);
}

proof fn lemma_first_behind(lines: Seq<Seq<char>>, prefix: Seq<char>, value: Seq<char>, k: int)
    requires
        0 <= k < lines.len(),
        lines[k] == prefix + value,
        forall|j: int| 0 <= j < k ==> !prefix.is_prefix_of(#[trigger] lines[j]),
    ensures
        first_behind(lines, prefix) == Some(value),
    decreases lines.len(),
{
    if k == 0 {
        assert(prefix.is_prefix_of(lines[0]));
        assert(lines[0].skip(prefix.len() as int) =~= value);
    } else {
        let rest = lines.drop_first();
        assert(!prefix.is_prefix_of(lines[0]));
        assert(rest[k - 1] == lines[k]);
        assert forall|j: int| 0 <= j < k - 1 implies !prefix.is_prefix_of(#[trigger] rest[j]) by {
            assert(rest[j] == lines[j + 1]);
        }
        lemma_first_behind(rest, prefix, value, k - 1);
    }
}

/// An offer without a line that names a fragment names none.
pub proof fn lemma_no_fragment(sdp: Seq<char>)
    requires
        forall|j: int|
            0 <= j < lines(sdp).len() ==> !"a=ice-ufrag:"@.is_prefix_of(#[trigger] lines(sdp)[j]),
    ensures
        offered_ufrag(sdp) is None,
{
    lemma_none_behind(lines(sdp), "a=ice-ufrag:"@);
}

proof fn lemma_none_behind(lines: Seq<Seq<char>>, prefix: Seq<char>)
    requires
        forall|j: int| 0 <= j < lines.len() ==> !prefix.is_prefix_of(#[trigger] lines[j]),
    ensures
        first_behind(lines, prefix) is None,
    decreases lines.len(),
{
    if lines.len() > 0 {
        let rest = lines.drop_first();
        assert(!prefix.is_prefix_of(lines[0]));
        assert forall|j: int| 0 <= j < rest.len() implies !prefix.is_prefix_of(#[trigger] rest[j]) by {
            assert(rest[j] == lines[j + 1]);
        }
        lemma_none_behind(rest, prefix);
    }
}

/// The two hexadecimal digits of a level, read together, order levels as numbers: the constrained
/// baseline profile fits from level 3.1 on, whose digits are `1f`.
pub proof fn lemma_levels_are_ordered(high: char, low: char)
    ensures
        is_baseline_level_31("42e0"@.push(high).push(low)) <==> ('0' <= high <= '9' || 'a' <= high
            <= 'f') && ('0' <= low <= '9' || 'a' <= low <= 'f') && (high > '1' || (high == '1' && low
            == 'f')),
{
    reveal_strlit("42e0");
    let id = "42e0"@.push(high).push(low);
    assert("42e0"@.len() == 4);
    assert("42e0"@ =~= id.take(4));
    assert("42e0"@.is_prefix_of(id));
}

/// An offer that maps a payload type to H.264 and gives it the constrained baseline profile of a
/// fitting level is accepted for H.264.
pub proof fn lemma_fitting_offer(
    sdp: Seq<char>,
    payload: Seq<char>,
    id: Seq<char>,
    i: int,
    j: int,
)
    requires
        0 <= i < lines(sdp).len(),
        0 <= j < lines(sdp).len(),
        payload.len() > 0,
        text::all_digits(payload),
        text::all_digits(id.skip(4)) || id == "42e01f"@,
        is_baseline_level_31(id),
        lines(sdp)[i] == "a=rtpmap:"@ + (payload.push(' ') + "H264/90000"@),
        lines(sdp)[j] == "a=fmtp:"@ + (payload.push(' ') + ("profile-level-id"@.push('=') + id)),
    ensures
        supports_level_31(sdp),
{
    let mapping = payload.push(' ') + "H264/90000"@;
    let named = "profile-level-id"@.push('=') + id;
    let format = payload.push(' ') + named;
    reveal_strlit("H264/90000");
    reveal_strlit("H264");
    reveal_strlit("profile-level-id");
    reveal_strlit("42e0");
    reveal_strlit("42e01f");
    assert forall|k: int| 0 <= k < payload.len() implies payload[k] != ' '
        && !text::is_white_space(payload[k]) by {
        assert(text::is_digit(payload[k]));
    }
    assert("42e0"@ =~= id.take(4));
    assert forall|k: int| 0 <= k < id.len() implies text::ascii_lower_char(id[k]) == id[k]
        && !text::is_white_space(id[k]) && id[k] != ';' by {
        if k < 4 {
            assert(id[k] == "42e0"@[k]);
        } else if text::all_digits(id.skip(4)) {
            assert(text::is_digit(id.skip(4)[k - 4]));
        } else {
            assert(id[k] == "42e01f"@[k]);
        }
    }
    // The mapping.
    let encoding = "H264/90000"@;
    assert(("a=rtpmap:"@ + mapping).skip("a=rtpmap:"@.len() as int) =~= mapping);
    assert("a=rtpmap:"@.is_prefix_of(lines(sdp)[i]));
    text::lemma_split(payload, ' ', encoding);
    lemma_first_part("H264"@, '/', "90000"@);
    reveal_strlit("90000");
    assert("H264"@.push('/') + "90000"@ =~= encoding);
    lemma_trimmed_whole(payload);
    assert(h264_mapping(lines(sdp)[i]) == Some(payload));
    // The parameters.
    assert(("a=fmtp:"@ + format).skip("a=fmtp:"@.len() as int) =~= format);
    assert("a=fmtp:"@.is_prefix_of(lines(sdp)[j]));
    text::lemma_split(payload, ' ', named);
    assert(!named.contains(';')) by {
        if named.contains(';') {
            let k = choose|k: int| 0 <= k < named.len() && named[k] == ';';
            if k > 16 {
                assert(named[k] == id[k - 17]);
            }
        }
    }
    text::lemma_first_index(named, ';');
    assert(text::split_seq(named, ';')[0] == named);
    assert(named.last() == id.last());
    assert(!text::is_white_space(id[id.len() - 1]));
    lemma_trimmed_whole(named);
    text::lemma_split("profile-level-id"@, '=', id);
    lemma_trimmed_whole("profile-level-id"@);
    lemma_trimmed_whole(id);
    assert(text::ascii_lower(id) =~= id);
    assert(is_fitting_parameter(text::split_seq(named, ';')[0]));
    assert(fitting_format(lines(sdp)[j]) == Some(payload));
}

proof fn lemma_trimmed_whole(s: Seq<char>)
    requires
        s.len() > 0,
        !text::is_white_space(s[0]),
        !text::is_white_space(s.last()),
    ensures
        text::trim_seq(s) == s,
{
    text::lemma_trimmed(Seq::empty(), s, Seq::empty());
    assert(Seq::<char>::empty() + s + Seq::<char>::empty() =~= s);
}

proof fn lemma_first_part(front: Seq<char>, c: char, back: Seq<char>)
    requires
        !front.contains(c),
    ensures
        text::split_seq(front.push(c) + back, c)[0] == front,
{
    assert forall|i: int| 0 <= i < front.len() implies front[i] != c by {
        assert(front.contains(front[i]));
    }
    text::lemma_split(front, c, back);
    let s = front.push(c) + back;
    text::lemma_first_index(s, c);
    let i = text::first_index(s, c);
    assert(s.take(i) == front);
    let rest = text::split_seq(s.skip(i + 1), c);
    assert(text::split_seq(s, c) == seq![s.take(i)] + rest);
    assert((seq![s.take(i)] + rest)[0] == s.take(i));
}

/// Without format parameters, or without a mapping that they could belong to, H.264 is not accepted.
pub proof fn lemma_unfitting_offer(sdp: Seq<char>)
    requires
        (forall|j: int|
            0 <= j < lines(sdp).len() ==> !"a=fmtp:"@.is_prefix_of(#[trigger] lines(sdp)[j])) || (
        forall|j: int|
            0 <= j < lines(sdp).len() ==> !"a=rtpmap:"@.is_prefix_of(#[trigger] lines(sdp)[j])),
    ensures
        !supports_level_31(sdp),
{
    if supports_level_31(sdp) {
        let j = choose|j: int|
            0 <= j < lines(sdp).len() && #[trigger] fitting_format(lines(sdp)[j]) is Some
                && maps_h264(lines(sdp), fitting_format(lines(sdp)[j])->0);
        assert("a=fmtp:"@.is_prefix_of(lines(sdp)[j]));
        let p = fitting_format(lines(sdp)[j])->0;
        let i = choose|i: int|
            0 <= i < lines(sdp).len() && h264_mapping(#[trigger] lines(sdp)[i]) == Some(p);
        assert("a=rtpmap:"@.is_prefix_of(lines(sdp)[i]));
    }
}

} // verus!

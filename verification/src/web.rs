//! The answers of the web server that carry no stream.

use vstd::prelude::*;
use vstd::string::*;

use crate::config;
use crate::config::{AppConfig, AppConfigView};
use crate::noise;
use crate::sessions::Sessions;
use crate::text;
use crate::udp_mux::PeerAddress;

verus! {

/// The size of the body by which a viewer measures its connection.
pub const PROBE_BYTES: usize = 1_048_576;

pub const PROBE_SEED: u64 = 0xC0FF_EE12_3456_789A;

/// The largest request body.
pub const MAX_REQUEST_BYTES: usize = 262_144;

/// The body by which a viewer measures its connection.
pub fn network_probe_payload() -> (r: Vec<u8>)
    ensures
        r@ == noise::noise(PROBE_SEED, PROBE_BYTES as nat),
        r@.len() == PROBE_BYTES,
{
    noise::fill(PROBE_SEED, PROBE_BYTES).0
}

/// The media type that is guessed from the extension of a path.
pub uninterp spec fn guessed_media_type(path: Seq<char>) -> Seq<char>;

/// Whether every platform reads the same extension out of a path. With a backslash, a colon or two
/// slashes at its start, Windows may take a part of it for the name of a drive or of a share.
pub open spec fn is_plain_path(path: Seq<char>) -> bool {
    &&& !path.contains('\\')
    &&& !path.contains(':')
    &&& !(path.len() >= 2 && path[0] == '/' && path[1] == '/')
}

/// Calls `mime_guess::from_path` and takes its first guess, or `application/octet-stream`. The
/// guess depends on the extension of the path alone. Of a path whose extension platforms read
/// differently, nothing is claimed.
#[verifier::external_body]
fn guess_media_type(path: &str) -> (r: String)
    ensures
        is_plain_path(path@) ==> r@ == guessed_media_type(path@),
{
    mime_guess::from_path(path).first_or_octet_stream().as_ref().to_owned()
}

/// Where a requested file is looked for, and the type it is sent with.
#[derive(Debug)]
pub struct AssetRequest {
    pub name: String,
    /// Looked for if there is no file of that name.
    pub prefixed: String,
    pub content_type: String,
    pub cache_control: &'static str,
}

/// What a request for a file asks for.
pub fn web_asset(path: &str) -> (r: AssetRequest)
    ensures
        r.name@ == text::skip_leading(path@, '/'),
        r.prefixed@ == "assets/"@ + text::skip_leading(path@, '/'),
        is_plain_path(path@) ==> r.content_type@ == guessed_media_type(path@),
        r.cache_control@ == "public, max-age=31536000, immutable"@,
{
    let requested = text::trim_start_matches(path, '/');
    AssetRequest {
        name: requested.to_owned(),
        prefixed: text::joined("assets/", requested),
        content_type: guess_media_type(path),
        cache_control: "public, max-age=31536000, immutable",
    }
}

/// Whether the state of the stream is shown without a token.
pub fn status_is_open(config: &AppConfig) -> (r: bool)
    ensures
        r == (config.bind@ == "localhost"@ || config.bind@ == "loopback"@),
{
    text::text_eq(config.bind.as_str(), "localhost") || text::text_eq(
        config.bind.as_str(),
        "loopback",
    )
}

/// The answer of the session endpoint.
#[derive(Clone, Copy, Debug, PartialEq, Eq, Structural)]
pub enum SessionAnswer {
    TokenMissing,
    InvalidToken,
    Ready,
}

impl SessionAnswer {
    pub fn is_ok(self) -> (r: bool)
        ensures
            r == (self == SessionAnswer::Ready),
    {
        match self {
            SessionAnswer::Ready => true,
            _ => false,
        }
    }

    pub fn message(self) -> (r: &'static str)
        ensures
            r@ == match self {
                SessionAnswer::TokenMissing => "use the token route"@,
                SessionAnswer::InvalidToken => "invalid token"@,
                SessionAnswer::Ready => "signaling session endpoint is ready"@,
            },
    {
        match self {
            SessionAnswer::TokenMissing => "use the token route",
            SessionAnswer::InvalidToken => "invalid token",
            SessionAnswer::Ready => "signaling session endpoint is ready",
        }
    }
}

/// Answers a request for a session with the token of its path, if it has one.
pub fn session(sessions: &Sessions, token: Option<&str>) -> (r: SessionAnswer)
    ensures
        r == match token {
            None => SessionAnswer::TokenMissing,
            Some(token) => if token@ == sessions@.active_token {
                SessionAnswer::Ready
            } else {
                SessionAnswer::InvalidToken
            },
        },
{
    match token {
        None => SessionAnswer::TokenMissing,
        Some(token) => if sessions.token_matches(token) {
            SessionAnswer::Ready
        } else {
            SessionAnswer::InvalidToken
        },
    }
}

/// What a request without a token is told.
pub fn index_without_token() -> (r: &'static str)
    ensures
        r@ == "A stream token is required in the URL"@,
{
    "A stream token is required in the URL"
}

pub open spec fn first_v4(addresses: Seq<PeerAddress>) -> Option<PeerAddress>
    decreases addresses.len(),
{
    if addresses.len() == 0 {
        None
    } else if !addresses[0].is_v6 {
        Some(addresses[0])
    } else {
        first_v4(addresses.drop_first())
    }
}

/// The address that media candidates name, among those that a host name stands for.
pub fn resolve_media_candidate(host: &str, addresses: &Vec<PeerAddress>) -> (r: Result<
    PeerAddress,
    String,
>)
    ensures
        match r {
            Ok(address) => first_v4(addresses@) == Some(address),
            Err(message) => first_v4(addresses@) is None && message@ == "media candidate host '"@
                + host@ + "' has no IPv4 address"@,
        },
{
    let mut i: usize = 0;
    assert(addresses@.skip(0) =~= addresses@);
    while i < addresses.len()
        invariant
            i <= addresses@.len(),
            first_v4(addresses@) == first_v4(addresses@.skip(i as int)),
        decreases addresses@.len() - i,
    {
        let address = addresses[i];
        if !address.is_v6 {
            return Ok(address);
        }
        assert(addresses@.skip(i as int).drop_first() =~= addresses@.skip(i + 1));
        i += 1;
    }
    let mut message = text::joined("media candidate host '", host);
    message.append("' has no IPv4 address");
    Err(message)
}

/// What a host name that cannot be looked up is reported as.
pub fn resolution_failure(host: &str) -> (r: String)
    ensures
        r@ == "resolve media candidate host '"@ + host@ + "'"@,
{
    let mut message = text::joined("resolve media candidate host '", host);
    message.append("'");
    message
}

/// A text with what stands behind its last slash replaced.
pub open spec fn redacted(url: Seq<char>) -> Seq<char> {
    if url.contains('/') {
        url.take(url.len() - text::after_last(url, '/').len() - 1) + "/<token>"@
    } else {
        "<redacted>"@
    }
}

proof fn lemma_after_last_length(s: Seq<char>, c: char)
    ensures
        s.contains(c) ==> text::after_last(s, c).len() < s.len(),
        text::after_last(s, c).len() <= s.len(),
        !text::after_last(s, c).contains(c),
        text::after_last(s, c) == s.skip(s.len() - text::after_last(s, c).len()),
        s.contains(c) ==> s[s.len() - text::after_last(s, c).len() - 1] == c,
    decreases s.len(),
{
    text::lemma_first_index(s, c);
    let i = text::first_index(s, c);
    if 0 <= i < s.len() {
        lemma_after_last_length(s.skip(i + 1), c);
        let rest = s.skip(i + 1);
        let last = text::after_last(s, c);
        assert(rest.skip(rest.len() - last.len()) =~= s.skip(s.len() - last.len()));
        if !rest.contains(c) {
            text::lemma_first_index(rest, c);
            assert(last == rest);
        }
    } else {
        assert(s.skip(0) =~= s);
    }
}

/// The viewer URL with a placeholder for the token.
pub fn redacted_viewer_url(config: &AppConfig, local: Option<&str>) -> (r: String)
    ensures
        r@ == redacted(
            config::viewer_address(
                config@,
                config::url_host(
                    config@,
                    match local {
                        Some(address) => Some(address@),
                        None => None,
                    },
                ),
            ),
        ),
{
    let url = config.viewer_url(local);
    let last = text::after_last_char(url.as_str(), '/');
    if !text::contains_char(url.as_str(), '/') {
        return "<redacted>".to_owned();
    }
    proof {
        lemma_after_last_length(url@, '/');
    }
    let keep: usize = url.as_str().unicode_len() - last.unicode_len() - 1;
    let origin = url.as_str().substring_char(0, keep);
    assert(origin@ =~= url@.take(keep as int));
    text::joined(origin, "/<token>")
}

/// The redacted URL names the host and the port and holds a placeholder where the token stood.
pub proof fn lemma_redacted_url_hides_token(config: AppConfigView, host: Seq<char>)
    requires
        config::is_token(config.token),
    ensures
        redacted(config::viewer_address(config, host)) == "http://"@ + host + ":"@ + text::decimal(
            config.http_port as nat,
        ) + "/<token>"@,
{
    let url = config::viewer_address(config, host);
    let before = "http://"@ + host + ":"@ + text::decimal(config.http_port as nat);
    reveal_strlit("/");
    lemma_after_last_length(url, '/');
    assert(url =~= before + "/"@ + config.token);
    let at = before.len() as int;
    assert(url[at] == '/');
    assert(url.contains('/'));
    let last = text::after_last(url, '/');
    let start = url.len() - last.len();
    if start < at + 1 {
        assert(last[at - start] == url[at]);
        assert(last.contains('/'));
    }
    if start > at + 1 {
        assert(url[start - 1] == config.token[start - 1 - at - 1]);
        assert(config::is_alphanumeric(config.token[start - 1 - at - 1]));
    }
    assert(url.take(at) =~= before);
}

/// The address for media is the first of the old kind among those that a name stands for.
pub proof fn lemma_first_old_address(addresses: Seq<PeerAddress>, k: int)
    requires
        0 <= k < addresses.len(),
        !addresses[k].is_v6,
        forall|j: int| 0 <= j < k ==> (#[trigger] addresses[j]).is_v6,
    ensures
        first_v4(addresses) == Some(addresses[k]),
    decreases addresses.len(),
{
    if k > 0 {
        let rest = addresses.drop_first();
        assert(addresses[0].is_v6);
        assert forall|j: int| 0 <= j < k - 1 implies (#[trigger] rest[j]).is_v6 by {
            assert(rest[j] == addresses[j + 1]);
        }
        lemma_first_old_address(rest, k - 1);
    }
}

} // verus!

//! The record by which a running host is found.

use vstd::prelude::*;
use vstd::string::*;

use crate::config;
use crate::config::AppConfig;
use crate::groups::codecs;
use crate::groups::codecs::{display_codec_name, initial_codec_for_policy};
use crate::text;
use crate::web;
use crate::web::redacted_viewer_url;

verus! {

/// A record of a running host. It is no place for secrets: the token is left out.
#[derive(Debug)]
pub struct RuntimeStatus {
    pub pid: u32,
    pub http_port: u16,
    pub media_port: u16,
    pub viewer_url: String,
    pub source: String,
    pub codec: String,
}

/// The captured source, by its native number where it has one.
pub open spec fn source_label(source: config::SourceSpecView) -> Seq<char> {
    source.kind + ":"@ + match source.native_id {
        Some(native_id) => text::decimal(native_id as nat),
        None => text::decimal(source.index as nat),
    }
}

impl RuntimeStatus {
    pub fn of(config: &AppConfig, pid: u32, local: Option<&str>) -> (r: Self)
        ensures
            r.pid == pid,
            r.http_port == config.http_port,
            r.media_port == config.media_ports.first,
            r.viewer_url@ == web::redacted(
                config::viewer_address(
                    config@,
                    config::url_host(
                        config@,
                        match local {
                            Some(address) => Some(address@),
                            None => None,
                        },
                    ),
                ),
            ),
            r.source@ == source_label(config@.source),
            r.codec@ == codecs::codec_display(codecs::initial_codec(config@.codec)),
    {
        let mut source = text::joined(config.source.kind.as_str(), ":");
        match config.source.native_id {
            Some(native_id) => text::push_decimal(&mut source, native_id),
            None => text::push_decimal(&mut source, config.source.index as u64),
        }
        RuntimeStatus {
            pid,
            http_port: config.http_port,
            media_port: config.media_ports.first,
            viewer_url: redacted_viewer_url(config, local),
            source,
            codec: display_codec_name(
                initial_codec_for_policy(config.codec.as_str()),
            ).to_owned(),
        }
    }
}

/// The file that holds the record of the host on a port.
pub fn status_file_name(http_port: u16) -> (r: String)
    ensures
        r@ == "status-"@ + text::decimal(http_port as nat) + ".json"@,
{
    text::around_number("status-", http_port as u64, ".json")
}

/// The file in which a record is written before it is published.
pub fn temporary_file_name(http_port: u16, pid: u32) -> (r: String)
    ensures
        r@ == "status-"@ + text::decimal(http_port as nat) + "-"@ + text::decimal(pid as nat)
            + ".tmp"@,
{
    let mut name = text::around_number("status-", http_port as u64, "-");
    text::push_decimal(&mut name, pid as u64);
    name.append(".tmp");
    name
}

/// What was found in place of a record.
#[derive(Clone, Copy, Debug, PartialEq, Eq, Structural)]
pub enum FoundRecord {
    Missing,
    Malformed,
    /// `answers` says whether its host takes connections.
    Parsed { answers: bool },
}

/// What becomes of a record.
#[derive(Clone, Copy, Debug, PartialEq, Eq, Structural)]
pub struct RecordDecision {
    pub running: bool,
    pub remove: bool,
}

/// A record counts only while its host answers; one that is of no use is removed.
pub fn judge_record(found: FoundRecord) -> (r: RecordDecision)
    ensures
        r.running == (found == FoundRecord::Parsed { answers: true }),
        r.remove == (found != FoundRecord::Missing && !r.running),
{
    match found {
        FoundRecord::Missing => RecordDecision { running: false, remove: false },
        FoundRecord::Malformed => RecordDecision { running: false, remove: true },
        FoundRecord::Parsed { answers } => RecordDecision { running: answers, remove: !answers },
    }
}

} // verus!

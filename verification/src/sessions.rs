//! Who is connected: control sockets, peer connections, and the token that admits them.

use vstd::prelude::*;

use crate::config;
use crate::control;
use crate::control::following_revision;
use crate::groups::{GroupsView, TranscodeGroups};
use crate::groups::tuning;
use crate::groups::tuning::{find_record, RecordView, ViewerRecord};
use crate::list;
use crate::metrics;
use crate::metrics::ViewerStats;
use crate::sdp;
use crate::sdp::{ice_ufrag, offer_supports_h264_level_31};
use crate::table;
use crate::table::Table;
use crate::text;

verus! {

/// The longest name of a viewer, in bytes.
pub const MAX_CLIENT_ID_BYTES: usize = 128;

/// The encoder, and whether there is audio, that a connection was negotiated with.
#[derive(Clone, Copy, Debug, PartialEq, Eq, Structural)]
pub struct MediaBinding {
    pub media: u64,
    pub audio: bool,
}

/// Why an offer is refused.
#[derive(Clone, Copy, Debug, PartialEq, Eq, Structural)]
pub enum OfferRefusal {
    InvalidToken,
    StreamStopped,
    MissingClientId,
    MissingUfrag,
    NoControlSession,
    NoAssignment,
    UnsupportedH264,
    ViewerLimit,
    Revoked,
}

impl OfferRefusal {
    pub open spec fn code(self) -> u16 {
        match self {
            OfferRefusal::InvalidToken => 404,
            OfferRefusal::StreamStopped => 503,
            OfferRefusal::MissingClientId => 500,
            OfferRefusal::MissingUfrag => 500,
            OfferRefusal::NoControlSession => 401,
            OfferRefusal::NoAssignment => 500,
            OfferRefusal::UnsupportedH264 => 400,
            OfferRefusal::ViewerLimit => 503,
            OfferRefusal::Revoked => 401,
        }
    }

    /// The status of the answer.
    pub fn status(self) -> (r: u16)
        ensures
            r == self.code(),
    {
        match self {
            OfferRefusal::InvalidToken => 404,
            OfferRefusal::StreamStopped => 503,
            OfferRefusal::MissingClientId => 500,
            OfferRefusal::MissingUfrag => 500,
            OfferRefusal::NoControlSession => 401,
            OfferRefusal::NoAssignment => 500,
            OfferRefusal::UnsupportedH264 => 400,
            OfferRefusal::ViewerLimit => 503,
            OfferRefusal::Revoked => 401,
        }
    }

    pub open spec fn wording(self) -> Seq<char> {
        match self {
            OfferRefusal::InvalidToken => "invalid token"@,
            OfferRefusal::StreamStopped => "stream is stopped"@,
            OfferRefusal::MissingClientId => "offer is missing a valid clientId"@,
            OfferRefusal::MissingUfrag => "offer does not contain an ICE username fragment"@,
            OfferRefusal::NoControlSession => "offer requires an authenticated control session"@,
            OfferRefusal::NoAssignment => "control session has no media assignment"@,
            OfferRefusal::UnsupportedH264 =>
                "offer does not support constrained-baseline H.264 level 3.1"@,
            OfferRefusal::ViewerLimit => "viewer limit reached"@,
            OfferRefusal::Revoked => "session was revoked"@,
        }
    }

    pub fn message(self) -> (r: &'static str)
        ensures
            r@ == self.wording(),
    {
        match self {
            OfferRefusal::InvalidToken => "invalid token",
            OfferRefusal::StreamStopped => "stream is stopped",
            OfferRefusal::MissingClientId => "offer is missing a valid clientId",
            OfferRefusal::MissingUfrag => "offer does not contain an ICE username fragment",
            OfferRefusal::NoControlSession => "offer requires an authenticated control session",
            OfferRefusal::NoAssignment => "control session has no media assignment",
            OfferRefusal::UnsupportedH264 =>
                "offer does not support constrained-baseline H.264 level 3.1",
            OfferRefusal::ViewerLimit => "viewer limit reached",
            OfferRefusal::Revoked => "session was revoked",
        }
    }
}

/// A viewer's name without the white space around it, where it is neither empty nor too long.
pub open spec fn usable_client(name: Seq<char>) -> Option<Seq<char>> {
    let trimmed = text::trim_seq(name);
    if trimmed.len() == 0 || vstd::utf8::encode_utf8(trimmed).len() > MAX_CLIENT_ID_BYTES {
        None
    } else {
        Some(trimmed)
    }
}

pub fn client_name<'a>(name: &'a str) -> (r: Option<&'a str>)
    ensures
        match r {
            Some(client) => usable_client(name@) == Some(client@),
            None => usable_client(name@) is None,
        },
{
    let trimmed = text::trim(name);
    if trimmed.is_empty() || trimmed.as_bytes().len() > MAX_CLIENT_ID_BYTES {
        None
    } else {
        Some(trimmed)
    }
}

/// The name in an offer, which has to be there.
pub fn offering_client<'a>(name: Option<&'a str>) -> (r: Result<&'a str, OfferRefusal>)
    ensures
        match r {
            Ok(client) => name is Some && usable_client(name->0@) == Some(client@),
            Err(refusal) => refusal == OfferRefusal::MissingClientId && (name is None
                || usable_client(name->0@) is None),
        },
{
    match name {
        Some(name) => match client_name(name) {
            Some(client) => Ok(client),
            None => Err(OfferRefusal::MissingClientId),
        },
        None => Err(OfferRefusal::MissingClientId),
    }
}

/// What the host knows of its viewers. Sockets are numbers that the program gives them.
#[derive(Debug)]
pub struct Sessions {
    pub active_token: String,
    /// Changes with every token, so that offers under way are refused.
    pub session_generation: u64,
    /// Changes with everything that viewers are told.
    pub settings_revision: u64,
    pub max_viewers: usize,
    pub sockets: Table<String, u64>,
    pub connections: Table<u128, ()>,
    pub pending: Table<u128, ()>,
    pub connected: Table<u128, ()>,
    pub clients: Table<String, u128>,
    pub bindings: Table<u128, MediaBinding>,
    pub metrics: Vec<ViewerRecord>,
}

#[verifier::ext_equal]
pub struct SessionsView {
    pub active_token: Seq<char>,
    pub session_generation: u64,
    pub settings_revision: u64,
    pub max_viewers: usize,
    pub sockets: Map<Seq<char>, u64>,
    pub connections: Set<u128>,
    pub pending: Set<u128>,
    pub connected: Set<u128>,
    pub clients: Map<Seq<char>, u128>,
    pub bindings: Map<u128, MediaBinding>,
    pub metrics: Seq<RecordView>,
}

impl View for Sessions {
    type V = SessionsView;

    open spec fn view(&self) -> SessionsView {
        SessionsView {
            active_token: self.active_token@,
            session_generation: self.session_generation,
            settings_revision: self.settings_revision,
            max_viewers: self.max_viewers,
            sockets: self.sockets@,
            connections: self.connections@.dom(),
            pending: self.pending@.dom(),
            connected: self.connected@.dom(),
            clients: self.clients@,
            bindings: self.bindings@,
            metrics: tuning::record_views(self.metrics@),
        }
    }
}

pub open spec fn at_least_one(n: usize) -> usize {
    if n == 0 {
        1
    } else {
        n
    }
}

/// What a state of a peer connection means for the host.
#[derive(Clone, Copy, Debug, PartialEq, Eq, Structural)]
pub enum PeerState {
    Connected,
    Disconnected,
    Failed,
    Closed,
    Other,
}

/// What the program does when a peer connection has changed its state.
#[derive(Clone, Copy, Debug, PartialEq, Eq, Structural)]
pub struct PeerChange {
    /// Tell every viewer the state of the stream.
    pub broadcast: bool,
    /// Let the connection's encoder and the audio send.
    pub activate: bool,
    /// Release the connection's tracks and its route.
    pub release: bool,
}

/// A connection that is to be closed.
#[derive(Clone, Copy, Debug, PartialEq, Eq, Structural)]
pub struct ClosedConnection {
    pub connection_id: u128,
    /// Whether there is a peer connection to close.
    pub established: bool,
    /// What the connection is subscribed to.
    pub binding: Option<MediaBinding>,
}

/// A number with the version and the variant of a random UUID.
pub open spec fn is_random_id(id: u128) -> bool {
    (id / 0x1000_0000_0000_0000_0000) % 16 == 4 && (id / 0x4000_0000_0000_0000) % 4 == 2
}

/// Calls `uuid::Uuid::new_v4`. Which number comes is open; the bits of its version and its variant
/// are those of a random UUID.
#[verifier::external_body]
fn new_connection_id() -> (r: u128)
    ensures
        is_random_id(r),
{
    uuid::Uuid::new_v4().as_u128()
}

/// What becomes of a control socket.
#[derive(Clone, Copy, Debug, PartialEq, Eq, Structural)]
pub enum SocketDecision {
    Unauthorized,
    AboveLimit,
    /// The socket that it replaces is to be closed.
    Accepted { replaced: Option<u64> },
}

/// Everything that a new token makes void.
#[derive(Debug)]
pub struct Revocation {
    pub sockets: Vec<table::Entry<String, u64>>,
    pub connections: Vec<table::Entry<u128, ()>>,
    pub pending: Vec<table::Entry<u128, ()>>,
    pub clients: Vec<table::Entry<String, u128>>,
    pub bindings: Vec<table::Entry<u128, MediaBinding>>,
}

impl SessionsView {
    pub open spec fn occupied(self) -> nat {
        self.connections.len() + self.pending.len()
    }

    pub open spec fn without_metrics(self, client: Seq<char>) -> SessionsView {
        SessionsView {
            metrics: list::without(self.metrics, tuning::record_at(self.metrics, client)),
            ..self
        }
    }

    /// Another token; offers that are under way are refused.
    pub open spec fn retokened(self, token: Seq<char>) -> SessionsView {
        SessionsView {
            active_token: token,
            session_generation: control::next_revision(self.session_generation),
            ..self
        }
    }

    /// What becomes of a socket that presents a token and a name.
    pub open spec fn socket_decision(self, token: Seq<char>, name: Seq<char>) -> SocketDecision {
        match usable_client(name) {
            Some(client) if token == self.active_token => if !self.sockets.contains_key(client)
                && self.sockets.dom().len() >= at_least_one(self.max_viewers) {
                SocketDecision::AboveLimit
            } else {
                SocketDecision::Accepted {
                    replaced: if self.sockets.contains_key(client) {
                        Some(self.sockets[client])
                    } else {
                        None
                    },
                }
            },
            _ => SocketDecision::Unauthorized,
        }
    }

    pub open spec fn owns_socket(self, client: Seq<char>, socket: u64) -> bool {
        client.len() > 0 && self.sockets.contains_key(client) && self.sockets[client] == socket
    }

    /// Whether an offer may go on: the token is the current one and the stream runs.
    pub open spec fn gate(self, token: Seq<char>, stream_enabled: bool) -> Option<OfferRefusal> {
        if token != self.active_token {
            Some(OfferRefusal::InvalidToken)
        } else if !stream_enabled {
            Some(OfferRefusal::StreamStopped)
        } else {
            None
        }
    }

    /// Why an offer of a viewer is refused before anything is changed for it.
    pub open spec fn offer_refusal(
        self,
        groups: GroupsView,
        token: Seq<char>,
        stream_enabled: bool,
        client: Seq<char>,
        sdp: Seq<char>,
    ) -> Option<OfferRefusal> {
        if self.gate(token, stream_enabled) is Some {
            self.gate(token, stream_enabled)
        } else if sdp::offered_ufrag(sdp) is None {
            Some(OfferRefusal::MissingUfrag)
        } else if !self.sockets.contains_key(client) {
            Some(OfferRefusal::NoControlSession)
        } else if !groups.knows(client) {
            Some(OfferRefusal::NoAssignment)
        } else if groups.group(groups.assignments[groups.client_at(client)].group_id).codec
            == "h264"@ && !sdp::supports_level_31(sdp) {
            Some(OfferRefusal::UnsupportedH264)
        } else {
            None
        }
    }

    /// A viewer's connection is there, with what it was negotiated with.
    pub open spec fn committed(
        self,
        client: Seq<char>,
        connection_id: u128,
        binding: MediaBinding,
    ) -> SessionsView {
        SessionsView {
            connections: self.connections.insert(connection_id),
            pending: self.pending.remove(connection_id),
            clients: self.clients.insert(client, connection_id),
            bindings: self.bindings.insert(connection_id, binding),
            ..self
        }
    }

    /// The connection of a viewer and what it is subscribed to.
    pub open spec fn closing(self, client: Seq<char>) -> Option<ClosedConnection> {
        if self.clients.contains_key(client) {
            let connection_id = self.clients[client];
            Some(
                ClosedConnection {
                    connection_id,
                    established: self.connections.contains(connection_id),
                    binding: if self.bindings.contains_key(connection_id) {
                        Some(self.bindings[connection_id])
                    } else {
                        None
                    },
                },
            )
        } else {
            None
        }
    }

    /// Without the connection of a viewer.
    pub open spec fn closed(self, client: Seq<char>) -> SessionsView {
        if self.clients.contains_key(client) {
            let connection_id = self.clients[client];
            SessionsView {
                clients: self.clients.remove(client),
                bindings: self.bindings.remove(connection_id),
                connections: self.connections.remove(connection_id),
                pending: self.pending.remove(connection_id),
                connected: self.connected.remove(connection_id),
                ..self
            }.without_metrics(client)
        } else {
            self
        }
    }

    /// Nobody is connected.
    pub open spec fn revoked(self) -> SessionsView {
        SessionsView {
            sockets: Map::empty(),
            connections: Set::empty(),
            pending: Set::empty(),
            connected: Set::empty(),
            clients: Map::empty(),
            bindings: Map::empty(),
            metrics: Seq::empty(),
            ..self
        }
    }

    /// What a change of a peer connection's state means.
    pub open spec fn peer_changed(
        self,
        connection_id: u128,
        client: Seq<char>,
        state: PeerState,
        stream_enabled: bool,
    ) -> (SessionsView, PeerChange) {
        match state {
            PeerState::Connected => (
                SessionsView { connected: self.connected.insert(connection_id), ..self },
                PeerChange { broadcast: true, activate: stream_enabled, release: false },
            ),
            PeerState::Disconnected => (
                SessionsView { connected: self.connected.remove(connection_id), ..self },
                PeerChange {
                    broadcast: self.connected.contains(connection_id),
                    activate: false,
                    release: false,
                },
            ),
            PeerState::Other => (
                self,
                PeerChange { broadcast: false, activate: false, release: false },
            ),
            _ => (
                SessionsView {
                    connections: self.connections.remove(connection_id),
                    connected: self.connected.remove(connection_id),
                    clients: if self.clients.contains_key(client) && self.clients[client]
                        == connection_id {
                        self.clients.remove(client)
                    } else {
                        self.clients
                    },
                    bindings: self.bindings.remove(connection_id),
                    ..self
                },
                PeerChange { broadcast: true, activate: false, release: true },
            ),
        }
    }
}

/// Who is told of a new state of the stream, under which revision.
#[derive(Debug)]
pub struct Broadcast {
    pub revision: u64,
    pub recipients: Vec<Recipient>,
}

#[derive(Debug)]
pub struct Recipient {
    pub client_id: String,
    pub socket: u64,
}

/// The sockets of a list of recipients.
pub open spec fn reaches(recipients: Seq<Recipient>, client: Seq<char>, socket: u64) -> bool {
    exists|i: int|
        0 <= i < recipients.len() && (#[trigger] recipients[i]).client_id@ == client
            && recipients[i].socket == socket
}

impl Sessions {
    /// A host without viewers.
    pub fn new(token: String, max_viewers: usize) -> (r: Self)
        ensures
            r@ == (SessionsView {
                active_token: token@,
                session_generation: 0,
                settings_revision: 0,
                max_viewers: at_least_one(max_viewers),
                sockets: Map::empty(),
                connections: Set::empty(),
                pending: Set::empty(),
                connected: Set::empty(),
                clients: Map::empty(),
                bindings: Map::empty(),
                metrics: Seq::empty(),
            }),
    {
        let mut sessions = Sessions {
            active_token: token,
            session_generation: 0,
            settings_revision: 0,
            max_viewers: 1,
            sockets: Table::new(),
            connections: Table::new(),
            pending: Table::new(),
            connected: Table::new(),
            clients: Table::new(),
            bindings: Table::new(),
            metrics: Vec::new(),
        };
        sessions.set_max_viewers(max_viewers);
        assert(sessions@.metrics =~= Seq::empty());
        assert(sessions@.connections =~= Set::empty());
        sessions
    }

    pub fn set_max_viewers(&mut self, max_viewers: usize)
        ensures
            final(self)@ == (SessionsView {
                max_viewers: at_least_one(max_viewers),
                ..old(self)@
            }),
    {
        self.max_viewers = if max_viewers == 0 {
            1
        } else {
            max_viewers
        };
    }

    pub fn token_matches(&self, token: &str) -> (r: bool)
        ensures
            r == (token@ == self@.active_token),
    {
        text::text_eq(token, self.active_token.as_str())
    }

    pub fn reset_token(&mut self, token: String)
        ensures
            final(self)@ == old(self)@.retokened(token@),
    {
        self.active_token = token;
        self.session_generation = following_revision(self.session_generation);
    }

    /// The number of viewers whose connection stands.
    pub fn viewer_count(&self) -> (r: usize)
        ensures
            r == self@.connected.len(),
    {
        self.connected.len()
    }

    fn viewer_limit(&self) -> (r: usize)
        ensures
            r == at_least_one(self.max_viewers),
    {
        if self.max_viewers == 0 {
            1
        } else {
            self.max_viewers
        }
    }

    /// Takes a control socket in, in place of an older one of the same viewer.
    pub fn connect_socket(&mut self, token: &str, name: &str, socket: u64) -> (r: SocketDecision)
        ensures
            r == old(self)@.socket_decision(token@, name@),
            final(self)@ == match r {
                SocketDecision::Accepted { .. } => SessionsView {
                    sockets: old(self)@.sockets.insert(usable_client(name@)->0, socket),
                    ..old(self)@
                },
                _ => old(self)@,
            },
    {
        let client = match client_name(name) {
            Some(client) => client.to_owned(),
            None => {
                return SocketDecision::Unauthorized;
            },
        };
        if !self.token_matches(token) {
            return SocketDecision::Unauthorized;
        }
        if !self.sockets.contains(&client) && self.sockets.len() >= self.viewer_limit() {
            return SocketDecision::AboveLimit;
        }
        let replaced = self.sockets.insert(client, socket);
        SocketDecision::Accepted { replaced }
    }

    /// Whether a socket is the one through which a viewer is controlled.
    pub fn is_current_socket(&self, client_id: &str, socket: u64) -> (r: bool)
        ensures
            r == self@.owns_socket(client_id@, socket),
    {
        if client_id.is_empty() {
            return false;
        }
        match self.sockets.get(&client_id.to_owned()) {
            Some(current) => *current == socket,
            None => false,
        }
    }

    /// Removes a socket, if it is the one through which a viewer is controlled.
    pub fn take_current_socket(&mut self, client_id: &str, socket: u64) -> (r: bool)
        ensures
            r == old(self)@.owns_socket(client_id@, socket),
            final(self)@ == if r {
                SessionsView {
                    sockets: old(self)@.sockets.remove(client_id@),
                    ..old(self)@
                }
            } else {
                old(self)@
            },
    {
        if !self.is_current_socket(client_id, socket) {
            return false;
        }
        let _ = self.sockets.remove(&client_id.to_owned());
        true
    }

    /// Whether an offer may go on at all.
    pub fn check_gate(&self, token: &str, stream_enabled: bool) -> (r: Option<OfferRefusal>)
        ensures
            r == self@.gate(token@, stream_enabled),
    {
        if !self.token_matches(token) {
            Some(OfferRefusal::InvalidToken)
        } else if !stream_enabled {
            Some(OfferRefusal::StreamStopped)
        } else {
            None
        }
    }

    /// Checks an offer of a viewer, and returns the fragment by which its packets are known.
    pub fn check_offer(
        &self,
        groups: &TranscodeGroups,
        token: &str,
        stream_enabled: bool,
        client_id: &str,
        sdp: &str,
    ) -> (r: Result<String, OfferRefusal>)
        requires
            groups@.wf(),
        ensures
            match self@.offer_refusal(groups@, token@, stream_enabled, client_id@, sdp@) {
                Some(refusal) => r == Err::<String, OfferRefusal>(refusal),
                None => r is Ok && sdp::offered_ufrag(sdp@) == Some(r->Ok_0@),
            },
    {
        if let Some(refusal) = self.check_gate(token, stream_enabled) {
            return Err(refusal);
        }
        let ufrag = match ice_ufrag(sdp) {
            Some(ufrag) => ufrag,
            None => {
                return Err(OfferRefusal::MissingUfrag);
            },
        };
        if !self.sockets.contains(&client_id.to_owned()) {
            return Err(OfferRefusal::NoControlSession);
        }
        let codec = match groups.codec_for_client(client_id) {
            Some(codec) => codec,
            None => {
                return Err(OfferRefusal::NoAssignment);
            },
        };
        if text::text_eq(codec.as_str(), "h264") && !offer_supports_h264_level_31(sdp) {
            return Err(OfferRefusal::UnsupportedH264);
        }
        Ok(ufrag)
    }

    /// Reserves a place for a connection that is being negotiated.
    pub fn reserve(&mut self, connection_id: u128) -> (r: Result<(), OfferRefusal>)
        ensures
            r == if old(self)@.occupied() >= at_least_one(old(self)@.max_viewers) {
                Err::<(), OfferRefusal>(OfferRefusal::ViewerLimit)
            } else {
                Ok::<(), OfferRefusal>(())
            },
            final(self)@ == if r is Ok {
                SessionsView {
                    pending: old(self)@.pending.insert(connection_id),
                    ..old(self)@
                }
            } else {
                old(self)@
            },
    {
        let limit = self.viewer_limit();
        let connections = self.connections.len();
        let pending = self.pending.len();
        if connections >= limit || pending >= limit - connections {
            return Err(OfferRefusal::ViewerLimit);
        }
        let ghost before = self.pending@;
        let _ = self.pending.insert(connection_id, ());
        assert(self.pending@.dom() =~= before.dom().insert(connection_id));
        Ok(())
    }

    /// Draws a number for a connection that is being negotiated and reserves a place for it.
    pub fn reserve_fresh(&mut self) -> (r: Result<u128, OfferRefusal>)
        ensures
            match r {
                Ok(connection_id) => {
                    &&& is_random_id(connection_id)
                    &&& old(self)@.occupied() < at_least_one(old(self)@.max_viewers)
                    &&& final(self)@ == (SessionsView {
                        pending: old(self)@.pending.insert(connection_id),
                        ..old(self)@
                    })
                },
                Err(refusal) => {
                    &&& refusal == OfferRefusal::ViewerLimit
                    &&& old(self)@.occupied() >= at_least_one(old(self)@.max_viewers)
                    &&& final(self)@ == old(self)@
                },
            },
    {
        let connection_id = new_connection_id();
        match self.reserve(connection_id) {
            Ok(()) => Ok(connection_id),
            Err(refusal) => Err(refusal),
        }
    }

    /// Gives up the place of a connection whose negotiation failed.
    pub fn remove_pending(&mut self, connection_id: u128)
        ensures
            final(self)@ == (SessionsView {
                pending: old(self)@.pending.remove(connection_id),
                ..old(self)@
            }),
    {
        let ghost before = self.pending@;
        let _ = self.pending.remove(&connection_id);
        assert(self.pending@.dom() =~= before.dom().remove(connection_id));
    }

    /// Whether the encoder that a viewer was given suits its offer.
    pub fn check_media_codec(codec_name: &str, sdp: &str) -> (r: Option<OfferRefusal>)
        ensures
            r == if codec_name@ == "H.264"@ && !sdp::supports_level_31(sdp@) {
                Some(OfferRefusal::UnsupportedH264)
            } else {
                None
            },
    {
        if text::text_eq(codec_name, "H.264") && !offer_supports_h264_level_31(sdp) {
            Some(OfferRefusal::UnsupportedH264)
        } else {
            None
        }
    }

    /// Whether the session under which an offer began still stands.
    pub fn check_session(&self, token: &str, generation: u64) -> (r: Option<OfferRefusal>)
        ensures
            r == if self@.session_generation != generation || token@ != self@.active_token {
                Some(OfferRefusal::Revoked)
            } else {
                None
            },
    {
        if self.session_generation != generation || !self.token_matches(token) {
            Some(OfferRefusal::Revoked)
        } else {
            None
        }
    }

    /// Turns a reservation into a connection.
    pub fn commit(&mut self, client_id: &str, connection_id: u128, binding: MediaBinding)
        ensures
            final(self)@ == old(self)@.committed(client_id@, connection_id, binding),
    {
        let ghost before = self.connections@;
        let _ = self.connections.insert(connection_id, ());
        assert(self.connections@.dom() =~= before.dom().insert(connection_id));
        self.remove_pending(connection_id);
        let _ = self.clients.insert(client_id.to_owned(), connection_id);
        let _ = self.bindings.insert(connection_id, binding);
    }

    fn drop_connection(&mut self, connection_id: u128) -> (r: bool)
        ensures
            final(self)@ == (SessionsView {
                connections: old(self)@.connections.remove(connection_id),
                connected: old(self)@.connected.remove(connection_id),
                ..old(self)@
            }),
            r == old(self)@.connections.contains(connection_id),
    {
        let ghost connections = self.connections@;
        let ghost connected = self.connected@;
        let removed = self.connections.remove(&connection_id);
        assert(self.connections@.dom() =~= connections.dom().remove(connection_id));
        let _ = self.connected.remove(&connection_id);
        assert(self.connected@.dom() =~= connected.dom().remove(connection_id));
        removed.is_some()
    }

    /// Forgets the reports of a viewer.
    pub fn remove_metrics(&mut self, client_id: &str)
        ensures
            final(self)@ == old(self)@.without_metrics(client_id@),
    {
        let at = find_record(&self.metrics, client_id);
        if at < self.metrics.len() {
            let _ = self.metrics.remove(at);
        }
        assert(self@.metrics =~= list::without(old(self)@.metrics, at as int));
    }

    /// Forgets the connection of a viewer; what is returned is to be closed and released.
    pub fn close_client_connection(&mut self, client_id: &str) -> (r: Option<ClosedConnection>)
        ensures
            r == old(self)@.closing(client_id@),
            final(self)@ == old(self)@.closed(client_id@),
    {
        let connection_id = match self.clients.remove(&client_id.to_owned()) {
            Some(connection_id) => connection_id,
            None => {
                assert(old(self)@.clients.remove(client_id@) =~= old(self)@.clients);
                return None;
            },
        };
        let binding = self.bindings.remove(&connection_id);
        let established = self.drop_connection(connection_id);
        self.remove_pending(connection_id);
        self.remove_metrics(client_id);
        Some(ClosedConnection { connection_id, established, binding })
    }

    /// Forgets a viewer whose control socket was taken out, once no offer of its is under way; its
    /// connection is returned.
    pub fn forget_client(&mut self, groups: &mut TranscodeGroups, client_id: &str) -> (r: Option<
        ClosedConnection,
    >)
        requires
            old(groups)@.wf(),
        ensures
            final(groups)@.wf(),
            r == old(self)@.closing(client_id@),
            final(self)@ == old(self)@.closed(client_id@).without_metrics(client_id@),
            final(groups)@ == (GroupsView {
                assignments: list::without(
                    old(groups)@.assignments,
                    old(groups)@.client_at(client_id@),
                ),
                ..old(groups)@
            }),
    {
        let closed = self.close_client_connection(client_id);
        groups.remove_client(client_id);
        self.remove_metrics(client_id);
        closed
    }

    /// Replaces the token and forgets everyone that the old one let in.
    pub fn reset_token_and_revoke(&mut self, groups: &mut TranscodeGroups, token: String) -> (r:
        Revocation)
        requires
            old(groups)@.wf(),
        ensures
            final(groups)@.wf(),
            final(self)@ == old(self)@.retokened(token@).revoked(),
            table::entry_map(r.sockets@) == old(self)@.sockets,
            table::entry_map(r.connections@).dom() == old(self)@.connections,
            table::entry_map(r.pending@).dom() == old(self)@.pending,
            table::entry_map(r.clients@) == old(self)@.clients,
            table::entry_map(r.bindings@) == old(self)@.bindings,
            final(groups)@ == (GroupsView {
                assignments: list::kept(
                    old(groups)@.assignments,
                    |c: crate::groups::ClientView|
                        !old(self)@.sockets.contains_key(c.client_id)
                            && !old(self)@.clients.contains_key(c.client_id),
                ),
                ..old(groups)@
            }),
    {
        self.reset_token(token);
        let sockets = self.sockets.drain();
        let clients = self.clients.drain();
        let bindings = self.bindings.drain();
        let pending = self.pending.drain();
        let connections = self.connections.drain();
        let _ = self.connected.drain();
        self.metrics = Vec::new();
        assert(self@.metrics =~= Seq::empty());
        assert(self@.connections =~= Set::empty());
        assert(self@.pending =~= Set::empty());
        assert(self@.connected =~= Set::empty());
        let mut ids: Vec<String> = Vec::new();
        let mut i: usize = 0;
        while i < sockets.len()
            invariant
                i <= sockets@.len(),
                forall|id: Seq<char>| #[trigger]
                    config::texts(ids@).contains(id) <==> table::entry_keys(
                        sockets@.take(i as int),
                    ).contains(id),
            decreases sockets@.len() - i,
        {
            let ghost earlier = ids@;
            ids.push(sockets[i].key.clone());
            proof {
                lemma_one_more_id(earlier, ids@);
                lemma_one_more_key(sockets@, i as int);
            }
            i += 1;
        }
        assert(sockets@.take(i as int) =~= sockets@);
        let mut k: usize = 0;
        while k < clients.len()
            invariant
                k <= clients@.len(),
                forall|id: Seq<char>| #[trigger]
                    config::texts(ids@).contains(id) <==> table::entry_keys(sockets@).contains(id)
                        || table::entry_keys(clients@.take(k as int)).contains(id),
            decreases clients@.len() - k,
        {
            let ghost earlier = ids@;
            ids.push(clients[k].key.clone());
            proof {
                lemma_one_more_id(earlier, ids@);
                lemma_one_more_key(clients@, k as int);
            }
            k += 1;
        }
        assert(clients@.take(k as int) =~= clients@);
        groups.remove_clients(&ids);
        proof {
            let stays = |c: crate::groups::ClientView|
                !config::texts(ids@).contains(c.client_id);
            let wanted = |c: crate::groups::ClientView|
                !old(self)@.sockets.contains_key(c.client_id)
                    && !old(self)@.clients.contains_key(c.client_id);
            lemma_same_choice(old(groups)@.assignments, stays, wanted);
        }
        Revocation { sockets, connections, pending, clients, bindings }
    }

    /// Takes a new state of a peer connection into account.
    pub fn on_connection_state_change(
        &mut self,
        connection_id: u128,
        client_id: &str,
        state: PeerState,
        stream_enabled: bool,
    ) -> (r: PeerChange)
        ensures
            (final(self)@, r) == old(self)@.peer_changed(
                connection_id,
                client_id@,
                state,
                stream_enabled,
            ),
    {
        let ghost connected = self.connected@;
        match state {
            PeerState::Connected => {
                let _ = self.connected.insert(connection_id, ());
                assert(self.connected@.dom() =~= connected.dom().insert(connection_id));
                PeerChange { broadcast: true, activate: stream_enabled, release: false }
            },
            PeerState::Disconnected => {
                let removed = self.connected.remove(&connection_id);
                assert(self.connected@.dom() =~= connected.dom().remove(connection_id));
                PeerChange { broadcast: removed.is_some(), activate: false, release: false }
            },
            PeerState::Other => PeerChange { broadcast: false, activate: false, release: false },
            PeerState::Failed | PeerState::Closed => {
                let _ = self.drop_connection(connection_id);
                let client = client_id.to_owned();
                let owned = match self.clients.get(&client) {
                    Some(current) => *current == connection_id,
                    None => false,
                };
                if owned {
                    let _ = self.clients.remove(&client);
                }
                let _ = self.bindings.remove(&connection_id);
                PeerChange { broadcast: true, activate: false, release: true }
            },
        }
    }

    /// The connection of a viewer and the encoder that it was negotiated with.
    pub fn binding_of(&self, client_id: &str) -> (r: Option<(u128, MediaBinding)>)
        ensures
            r == if self@.clients.contains_key(client_id@) && self@.bindings.contains_key(
                self@.clients[client_id@],
            ) {
                Some((self@.clients[client_id@], self@.bindings[self@.clients[client_id@]]))
            } else {
                None
            },
    {
        match self.clients.get(&client_id.to_owned()) {
            Some(connection_id) => match self.bindings.get(connection_id) {
                Some(binding) => Some((*connection_id, *binding)),
                None => None,
            },
            None => None,
        }
    }

    /// Opens a new revision and lists the sockets that are told of it.
    pub fn broadcast(&mut self) -> (r: Broadcast)
        ensures
            final(self)@ == (SessionsView {
                settings_revision: control::next_revision(old(self)@.settings_revision),
                ..old(self)@
            }),
            r.revision == final(self)@.settings_revision,
            r.recipients@.len() == old(self)@.sockets.dom().len(),
            forall|client: Seq<char>, socket: u64| #[trigger]
                reaches(r.recipients@, client, socket) <==> old(self)@.sockets.contains_key(client)
                    && old(self)@.sockets[client] == socket,
    {
        self.settings_revision = following_revision(self.settings_revision);
        let entries = self.sockets.entries();
        let mut recipients: Vec<Recipient> = Vec::new();
        let mut i: usize = 0;
        while i < entries.len()
            invariant
                i <= entries@.len(),
                recipients@.len() == i,
                forall|j: int|
                    0 <= j < i ==> (#[trigger] recipients@[j]).client_id@ == entries@[j].key@
                        && recipients@[j].socket == entries@[j].value,
            decreases entries@.len() - i,
        {
            recipients.push(
                Recipient { client_id: entries[i].key.clone(), socket: entries[i].value },
            );
            i += 1;
        }
        proof {
            let map = table::entry_map(entries@);
            let keys = table::entry_keys(entries@);
            assert(keys.no_duplicates());
            keys.unique_seq_to_set();
            assert(map.dom() =~= keys.to_set());
            assert forall|client: Seq<char>, socket: u64| #[trigger]
                reaches(recipients@, client, socket) <==> map.contains_key(client) && map[client]
                    == socket by {
                if reaches(recipients@, client, socket) {
                    let j = choose|j: int|
                        0 <= j < recipients@.len() && (#[trigger] recipients@[j]).client_id@
                            == client && recipients@[j].socket == socket;
                    table::lemma_entry_found(entries@, j);
                }
                if map.contains_key(client) && map[client] == socket {
                    let j = choose|j: int| 0 <= j < keys.len() && keys[j] == client;
                    table::lemma_entry_found(entries@, j);
                    assert(entries@[j].key@ == client);
                    assert(recipients@[j].client_id@ == client);
                }
            }
        }
        Broadcast { revision: self.settings_revision, recipients }
    }

    /// Takes a report of a viewer, unless it follows too soon on another; the viewer's metrics then
    /// are returned by their place.
    pub fn update_viewer_metrics(&mut self, client_id: &str, stats: &ViewerStats, now: u64) -> (r:
        Option<usize>)
        ensures
            ({
                let at = tuning::record_at(old(self)@.metrics, client_id@);
                let previous = if at < old(self)@.metrics.len() {
                    Some(old(self)@.metrics[at].metrics)
                } else {
                    None
                };
                if metrics::is_premature(previous, now) {
                    r is None && final(self)@ == old(self)@
                } else {
                    &&& r == Some(at as usize)
                    &&& final(self)@ == (SessionsView {
                        metrics: list::put(
                            old(self)@.metrics,
                            at,
                            RecordView {
                                client_id: client_id@,
                                metrics: metrics::updated_metrics(*stats, previous, now),
                            },
                        ),
                        ..old(self)@
                    })
                }
            }),
    {
        let at = find_record(&self.metrics, client_id);
        proof {
            list::lemma_position(tuning::record_ids(self@.metrics), client_id@);
        }
        if at < self.metrics.len() {
            assert(self@.metrics[at as int] == self.metrics@[at as int]@);
            assert(tuning::record_ids(self@.metrics)[at as int] == client_id@);
            match metrics::updated(Some(&self.metrics[at].metrics), stats, now) {
                Some(updated) => {
                    let record = ViewerRecord {
                        client_id: client_id.to_owned(),
                        metrics: updated,
                    };
                    self.metrics.set(at, record);
                    assert(self@.metrics =~= old(self)@.metrics.update(at as int, record@));
                    Some(at)
                },
                None => None,
            }
        } else {
            match metrics::updated(None, stats, now) {
                Some(updated) => {
                    let record = ViewerRecord {
                        client_id: client_id.to_owned(),
                        metrics: updated,
                    };
                    self.metrics.push(record);
                    assert(self@.metrics =~= old(self)@.metrics.push(record@));
                    Some(at)
                },
                None => None,
            }
        }
    }
}

proof fn lemma_one_more_id(earlier: Seq<String>, ids: Seq<String>)
    requires
        ids.len() == earlier.len() + 1,
        ids.drop_last() =~= earlier,
    ensures
        forall|id: Seq<char>| #[trigger]
            config::texts(ids).contains(id) <==> config::texts(earlier).contains(id) || id
                == ids.last()@,
{
    let all = config::texts(ids);
    let before = config::texts(earlier);
    assert(all =~= before.push(ids.last()@));
    assert forall|id: Seq<char>| #[trigger]
        all.contains(id) <==> before.contains(id) || id == ids.last()@ by {
        if before.contains(id) {
            let k = choose|k: int| 0 <= k < before.len() && before[k] == id;
            assert(all[k] == id);
        }
        if id == ids.last()@ {
            assert(all[all.len() - 1] == id);
        }
    }
}

proof fn lemma_one_more_key<V>(entries: Seq<table::Entry<String, V>>, i: int)
    requires
        0 <= i < entries.len(),
    ensures
        forall|id: Seq<char>| #[trigger]
            table::entry_keys(entries.take(i + 1)).contains(id) <==> table::entry_keys(
                entries.take(i),
            ).contains(id) || id == entries[i].key@,
{
    let all = table::entry_keys(entries.take(i + 1));
    let before = table::entry_keys(entries.take(i));
    assert(all =~= before.push(entries[i].key@));
    assert forall|id: Seq<char>| #[trigger]
        all.contains(id) <==> before.contains(id) || id == entries[i].key@ by {
        if before.contains(id) {
            let k = choose|k: int| 0 <= k < before.len() && before[k] == id;
            assert(all[k] == id);
        }
        if id == entries[i].key@ {
            assert(all[i] == id);
        }
    }
}

proof fn lemma_same_choice<T>(s: Seq<T>, p: spec_fn(T) -> bool, q: spec_fn(T) -> bool)
    requires
        forall|x: T| #[trigger] p(x) == q(x),
    ensures
        list::kept(s, p) == list::kept(s, q),
    decreases s.len(),
{
    if s.len() > 0 {
        lemma_same_choice(s.drop_last(), p, q);
        assert(p(s.last()) == q(s.last()));
    }
}

/// Whatever token an offer began with, and whatever the generation was then: once the token is
/// replaced, the offer cannot become a connection.
pub proof fn lemma_reset_refuses_offers(v: SessionsView, token: Seq<char>, generation: u64)
    requires
        generation == v.session_generation,
    ensures
        v.retokened(token).session_generation != generation,
        v.retokened(token).revoked().session_generation != generation,
{
}

/// After a token is replaced nobody has a socket, a connection or a place.
pub proof fn lemma_revocation_is_complete(v: SessionsView, token: Seq<char>, client: Seq<char>)
    ensures
        ({
            let after = v.retokened(token).revoked();
            &&& after.occupied() == 0
            &&& after.connected.len() == 0
            &&& after.closing(client) is None
            &&& forall|socket: u64| !#[trigger] after.owns_socket(client, socket)
            &&& after.active_token == token
            &&& token != v.active_token ==> after.socket_decision(v.active_token, client)
                == SocketDecision::Unauthorized
        }),
{
}

/// A connection that was made for a viewer is closed with exactly what it was negotiated with, even
/// if the viewer's group has another encoder by then; and nothing is left of it.
pub proof fn lemma_closing_undoes_commit(
    v: SessionsView,
    client: Seq<char>,
    connection_id: u128,
    binding: MediaBinding,
)
    ensures
        ({
            let open = v.committed(client, connection_id, binding);
            let after = open.closed(client);
            &&& open.closing(client) == Some(
                ClosedConnection { connection_id, established: true, binding: Some(binding) },
            )
            &&& after.closing(client) is None
            &&& !after.connections.contains(connection_id)
            &&& !after.pending.contains(connection_id)
            &&& !after.connected.contains(connection_id)
            &&& !after.bindings.contains_key(connection_id)
        }),
{
}

/// A socket that another one of the same viewer has replaced speaks for nobody any more.
pub proof fn lemma_replaced_socket_is_stale(
    v: SessionsView,
    client: Seq<char>,
    socket: u64,
    newer: u64,
)
    requires
        socket != newer,
    ensures
        !(SessionsView { sockets: v.sockets.insert(client, newer), ..v }).owns_socket(
            client,
            socket,
        ),
{
}

/// A place is only reserved below the limit, so that connections and reservations together do not
/// exceed it.
pub proof fn lemma_reservation_keeps_limit(v: SessionsView, connection_id: u128)
    requires
        v.pending.finite(),
        v.occupied() < at_least_one(v.max_viewers),
    ensures
        (SessionsView { pending: v.pending.insert(connection_id), ..v }).occupied()
            <= at_least_one(v.max_viewers),
{
}

/// A socket is accepted only with the token that is in force, under a usable name, and below the
/// limit; a viewer who is there already keeps their place.
pub proof fn lemma_accepted_sockets(v: SessionsView, token: Seq<char>, name: Seq<char>)
    ensures
        ({
            let decision = v.socket_decision(token, name);
            let client = text::trim_seq(name);
            &&& token != v.active_token ==> decision == SocketDecision::Unauthorized
            &&& client.len() == 0 ==> decision == SocketDecision::Unauthorized
            &&& vstd::utf8::encode_utf8(client).len() > 128 ==> decision
                == SocketDecision::Unauthorized
            &&& decision is Accepted && !v.sockets.contains_key(client)
                ==> v.sockets.dom().len() < v.max_viewers || v.sockets.dom().len() == 0
            &&& decision is AboveLimit ==> !v.sockets.contains_key(client)
                && v.sockets.dom().len() >= v.max_viewers
            &&& token == v.active_token && v.sockets.contains_key(client) && client.len() > 0
                && vstd::utf8::encode_utf8(client).len() <= 128 ==> decision
                == (SocketDecision::Accepted { replaced: Some(v.sockets[client]) })
        }),
{
}

/// What an offer has to bring: the token that is in force, a stream that is on, an ICE user name, a
/// control session, a place in a group, and a decoder for its codec.
pub proof fn lemma_accepted_offers(
    v: SessionsView,
    groups: GroupsView,
    token: Seq<char>,
    stream_enabled: bool,
    client: Seq<char>,
    sdp: Seq<char>,
)
    ensures
        ({
            let refusal = v.offer_refusal(groups, token, stream_enabled, client, sdp);
            &&& token != v.active_token ==> refusal == Some(OfferRefusal::InvalidToken)
            &&& token == v.active_token && !stream_enabled ==> refusal == Some(
                OfferRefusal::StreamStopped,
            )
            &&& refusal is None ==> {
                &&& token == v.active_token
                &&& stream_enabled
                &&& sdp::offered_ufrag(sdp) is Some
                &&& v.sockets.contains_key(client)
                &&& groups.knows(client)
                &&& groups.group(groups.assignments[groups.client_at(client)].group_id).codec
                    == "h264"@ ==> sdp::supports_level_31(sdp)
            }
            &&& token == v.active_token && stream_enabled && sdp::offered_ufrag(sdp) is Some
                && v.sockets.contains_key(client) && groups.knows(client) && sdp::supports_level_31(
                sdp,
            ) ==> refusal is None
        }),
{
}

/// A connection that is made takes the place that was reserved for it, so that nobody's place is
/// counted twice; it is the one that the viewer has from then on.
pub proof fn lemma_committed_connection(
    v: SessionsView,
    client: Seq<char>,
    connection_id: u128,
    binding: MediaBinding,
)
    requires
        v.connections.finite(),
        v.pending.finite(),
        v.pending.contains(connection_id),
        !v.connections.contains(connection_id),
    ensures
        ({
            let after = v.committed(client, connection_id, binding);
            &&& after.occupied() == v.occupied()
            &&& after.clients.contains_key(client) && after.clients[client] == connection_id
            &&& after.connections.contains(connection_id)
            &&& !after.pending.contains(connection_id)
            &&& after.bindings[connection_id] == binding
            &&& after.sockets == v.sockets
        }),
{
}

/// A peer that connects is counted and its media let go; one that is lost for good is released, and
/// leaves another connection of the same viewer alone.
pub proof fn lemma_peers_come_and_go(
    v: SessionsView,
    connection_id: u128,
    client: Seq<char>,
    stream_enabled: bool,
)
    ensures
        ({
            let (after, change) = v.peer_changed(
                connection_id,
                client,
                PeerState::Connected,
                stream_enabled,
            );
            &&& after.connected.contains(connection_id)
            &&& change.broadcast && !change.release && change.activate == stream_enabled
            &&& after.clients == v.clients
        }),
        ({
            let (after, change) = v.peer_changed(
                connection_id,
                client,
                PeerState::Failed,
                stream_enabled,
            );
            &&& !after.connected.contains(connection_id)
            &&& !after.connections.contains(connection_id)
            &&& !after.bindings.contains_key(connection_id)
            &&& change.release && change.broadcast && !change.activate
            &&& v.clients.contains_key(client) && v.clients[client] != connection_id
                ==> after.clients == v.clients
            &&& v.clients.contains_key(client) && v.clients[client] == connection_id
                ==> !after.clients.contains_key(client)
        }),
        ({
            let (after, change) = v.peer_changed(
                connection_id,
                client,
                PeerState::Disconnected,
                stream_enabled,
            );
            &&& !after.connected.contains(connection_id)
            &&& after.connections == v.connections
            &&& !change.release
        }),
{
}

/// Closing the connection of one viewer leaves those of the others alone.
pub proof fn lemma_closing_spares_others(v: SessionsView, client: Seq<char>, other: Seq<char>)
    requires
        client != other,
        v.clients.contains_key(other),
        v.clients.contains_key(client) ==> v.clients[client] != v.clients[other],
    ensures
        ({
            let after = v.closed(client);
            let id = v.clients[other];
            &&& after.clients.contains_key(other) && after.clients[other] == id
            &&& after.connections.contains(id) == v.connections.contains(id)
            &&& after.connected.contains(id) == v.connected.contains(id)
            &&& after.bindings.contains_key(id) == v.bindings.contains_key(id)
            &&& after.sockets == v.sockets
        }),
{
}

/// A random identifier, written in its usual form, has a `4` as the first of its third group of digits
/// and one of `8`, `9`, `a` and `b` as the first of its fourth.
pub proof fn lemma_random_identifiers(
    head: u64,
    version: u8,
    middle: u16,
    variant: u8,
    tail: u64,
)
    requires
        head < 0x1_0000_0000_0000,
        version < 16,
        middle < 0x1000,
        variant < 16,
        tail < 0x1000_0000_0000_0000,
    ensures
        ({
            let id = (((head as int * 16 + version) * 0x1000 + middle) * 16 + variant)
                * 0x1000_0000_0000_0000 + tail;
            &&& 0 <= id <= u128::MAX
            &&& is_random_id(id as u128) <==> version == 4 && (variant == 8 || variant == 9
                || variant == 10 || variant == 11)
        }),
{
    let a = head as int * 16 + version;
    let b = a * 0x1000 + middle;
    let c = b * 16 + variant;
    let id = c * 0x1000_0000_0000_0000 + tail;
    assert(id / 0x1000_0000_0000_0000 == c);
    assert(id / 0x4000_0000_0000_0000 == c / 4);
    assert((c / 4) % 4 == variant / 4) by {
        assert(c / 4 == b * 4 + variant / 4);
    }
    assert(id / 0x1000_0000_0000_0000_0000 == a) by {
        assert(c / 0x1_0000 == a);
    }
    assert(a % 16 == version);
}

} // verus!

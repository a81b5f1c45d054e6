//! One UDP socket for all viewers: which connection a packet belongs to, and the packets that wait
//! for it.

use std::collections::VecDeque;

use vstd::prelude::*;
use vstd::utf8::*;

use crate::table::{Key, Table};
use crate::text;

verus! {

/// Packets that wait beyond this number displace the oldest.
pub const MAX_QUEUED_PACKETS: usize = 64;

/// Bytes that wait beyond this number displace the oldest packets.
pub const MAX_QUEUED_BYTES: usize = 524_288;

/// A socket address.
#[derive(Clone, Copy, Debug, PartialEq, Eq, Structural)]
pub struct PeerAddress {
    pub is_v6: bool,
    pub ip: u128,
    pub port: u16,
    pub flow_info: u32,
    pub scope_id: u32,
}

impl View for PeerAddress {
    type V = PeerAddress;

    open spec fn view(&self) -> PeerAddress {
        *self
    }
}

impl Key for PeerAddress {
    fn same(&self, other: &Self) -> (r: bool) {
        *self == *other
    }
}

#[derive(Debug)]
pub struct Datagram {
    pub data: Vec<u8>,
    pub remote_addr: PeerAddress,
}

#[verifier::ext_equal]
pub struct DatagramView {
    pub data: Seq<u8>,
    pub remote_addr: PeerAddress,
}

impl View for Datagram {
    type V = DatagramView;

    open spec fn view(&self) -> DatagramView {
        DatagramView { data: self.data@, remote_addr: self.remote_addr }
    }
}

pub open spec fn datagram_views(datagrams: Seq<Datagram>) -> Seq<DatagramView> {
    datagrams.map_values(|d: Datagram| d@)
}

/// The bytes in a queue.
pub open spec fn total(datagrams: Seq<DatagramView>) -> nat
    decreases datagrams.len(),
{
    if datagrams.len() == 0 {
        0
    } else {
        datagrams[0].data.len() + total(datagrams.drop_first())
    }
}

proof fn lemma_total_push(datagrams: Seq<DatagramView>, datagram: DatagramView)
    ensures
        total(datagrams.push(datagram)) == total(datagrams) + datagram.data.len(),
    decreases datagrams.len(),
{
    let more = datagrams.push(datagram);
    if datagrams.len() == 0 {
        assert(more.drop_first() =~= Seq::empty());
        assert(total(more.drop_first()) == 0);
    } else {
        assert(more.drop_first() =~= datagrams.drop_first().push(datagram));
        lemma_total_push(datagrams.drop_first(), datagram);
    }
}

/// The packets that wait for one connection, oldest first.
#[derive(Debug)]
pub struct EndpointQueue {
    pub datagrams: VecDeque<Datagram>,
    pub bytes: usize,
    pub dropped_packets: u64,
}

#[verifier::ext_equal]
pub struct QueueView {
    pub datagrams: Seq<DatagramView>,
    pub bytes: usize,
    pub dropped_packets: u64,
}

impl View for EndpointQueue {
    type V = QueueView;

    open spec fn view(&self) -> QueueView {
        QueueView {
            datagrams: datagram_views(self.datagrams@),
            bytes: self.bytes,
            dropped_packets: self.dropped_packets,
        }
    }
}

/// The count behind another; it wraps around.
pub open spec fn one_more(count: u64) -> u64 {
    if count == u64::MAX {
        0
    } else {
        (count + 1) as u64
    }
}

impl QueueView {
    /// The queue is within its bounds and counts its bytes.
    pub open spec fn wf(self) -> bool {
        &&& self.bytes == total(self.datagrams)
        &&& self.bytes <= MAX_QUEUED_BYTES
        &&& self.datagrams.len() <= MAX_QUEUED_PACKETS
    }

    pub open spec fn has_room(self, length: nat) -> bool {
        self.datagrams.len() < MAX_QUEUED_PACKETS && total(self.datagrams) + length
            <= MAX_QUEUED_BYTES
    }

    /// Without the oldest packets, as many as have to go to make room.
    pub open spec fn making_room(self, length: nat) -> QueueView
        decreases self.datagrams.len(),
    {
        if self.datagrams.len() == 0 || self.has_room(length) {
            self
        } else {
            QueueView {
                datagrams: self.datagrams.drop_first(),
                bytes: (self.bytes - self.datagrams[0].data.len()) as usize,
                dropped_packets: one_more(self.dropped_packets),
            }.making_room(length)
        }
    }

    /// With a packet at the end. One that exceeds the bound by itself is dropped.
    pub open spec fn enqueued(self, packet: Seq<u8>, remote_addr: PeerAddress) -> QueueView {
        if packet.len() > MAX_QUEUED_BYTES {
            QueueView { dropped_packets: one_more(self.dropped_packets), ..self }
        } else {
            let made = self.making_room(packet.len());
            QueueView {
                datagrams: made.datagrams.push(DatagramView { data: packet, remote_addr }),
                bytes: (made.bytes + packet.len()) as usize,
                ..made
            }
        }
    }
}

proof fn lemma_room_is_made(queue: QueueView, length: nat)
    requires
        queue.wf(),
        length <= MAX_QUEUED_BYTES,
    ensures
        queue.making_room(length).wf(),
        queue.making_room(length).has_room(length),
        exists|n: int|
            0 <= n <= queue.datagrams.len() && #[trigger] queue.datagrams.skip(n)
                == queue.making_room(length).datagrams,
    decreases queue.datagrams.len(),
{
    if queue.datagrams.len() == 0 || queue.has_room(length) {
        assert(queue.datagrams.skip(0) =~= queue.datagrams);
    } else {
        let shorter = QueueView {
            datagrams: queue.datagrams.drop_first(),
            bytes: (queue.bytes - queue.datagrams[0].data.len()) as usize,
            dropped_packets: one_more(queue.dropped_packets),
        };
        lemma_room_is_made(shorter, length);
        let n = choose|n: int|
            0 <= n <= shorter.datagrams.len() && #[trigger] shorter.datagrams.skip(n)
                == shorter.making_room(length).datagrams;
        assert(queue.datagrams.skip(n + 1) =~= shorter.datagrams.skip(n));
    }
}

/// A packet within the bound is always queued, behind the newest of those that waited: the oldest
/// go first, and the queue stays within its bounds.
pub proof fn lemma_newest_packets_wait(queue: QueueView, packet: Seq<u8>, remote_addr: PeerAddress)
    requires
        queue.wf(),
    ensures
        queue.enqueued(packet, remote_addr).wf(),
        packet.len() <= MAX_QUEUED_BYTES ==> queue.enqueued(packet, remote_addr).datagrams.len() > 0
            && queue.enqueued(packet, remote_addr).datagrams.last() == (DatagramView {
            data: packet,
            remote_addr,
        }) && exists|n: int|
            0 <= n <= queue.datagrams.len() && #[trigger] queue.datagrams.skip(n)
                == queue.enqueued(packet, remote_addr).datagrams.drop_last(),
{
    if packet.len() <= MAX_QUEUED_BYTES {
        lemma_room_is_made(queue, packet.len());
        let made = queue.making_room(packet.len());
        lemma_total_push(made.datagrams, DatagramView { data: packet, remote_addr });
        assert(queue.enqueued(packet, remote_addr).datagrams.drop_last() =~= made.datagrams);
    }
}

fn count_one_more(count: u64) -> (r: u64)
    ensures
        r == one_more(count),
{
    if count == u64::MAX {
        0
    } else {
        count + 1
    }
}

/// A copy of the first bytes of a packet.
pub fn first_bytes(packet: &[u8], length: usize) -> (r: Vec<u8>)
    requires
        length <= packet@.len(),
    ensures
        r@ == packet@.take(length as int),
{
    let mut data: Vec<u8> = Vec::new();
    let mut i: usize = 0;
    while i < length
        invariant
            i <= length <= packet@.len(),
            data@ == packet@.take(i as int),
        decreases length - i,
    {
        data.push(packet[i]);
        i += 1;
        assert(data@ =~= packet@.take(i as int));
    }
    data
}

impl EndpointQueue {
    pub fn new() -> (r: Self)
        ensures
            r@ == (QueueView { datagrams: Seq::empty(), bytes: 0, dropped_packets: 0 }),
            r@.wf(),
    {
        let queue = EndpointQueue { datagrams: VecDeque::new(), bytes: 0, dropped_packets: 0 };
        assert(queue@.datagrams =~= Seq::empty());
        queue
    }

    /// Queues a packet and makes room for it.
    pub fn enqueue(&mut self, packet: &[u8], remote_addr: PeerAddress)
        requires
            old(self)@.wf(),
        ensures
            final(self)@ == old(self)@.enqueued(packet@, remote_addr),
            final(self)@.wf(),
    {
        let length = packet.len();
        if length > MAX_QUEUED_BYTES {
            self.dropped_packets = count_one_more(self.dropped_packets);
            return;
        }
        proof {
            lemma_newest_packets_wait(self@, packet@, remote_addr);
            lemma_room_is_made(self@, length as nat);
        }
        while self.datagrams.len() > 0 && (self.datagrams.len() >= MAX_QUEUED_PACKETS || self.bytes
            > MAX_QUEUED_BYTES - length)
            invariant
                length == packet@.len(),
                length <= MAX_QUEUED_BYTES,
                self@.wf(),
                self@.making_room(length as nat) == old(self)@.making_room(length as nat),
            decreases self.datagrams@.len(),
        {
            let ghost before = self@;
            if let Some(dropped) = self.datagrams.pop_front() {
                assert(datagram_views(self.datagrams@) =~= before.datagrams.drop_first());
                assert(before.datagrams[0] == dropped@);
                self.bytes -= dropped.data.len();
                self.dropped_packets = count_one_more(self.dropped_packets);
                assert(self@ == (QueueView {
                    datagrams: before.datagrams.drop_first(),
                    bytes: (before.bytes - before.datagrams[0].data.len()) as usize,
                    dropped_packets: one_more(before.dropped_packets),
                }));
            }
        }
        assert(self.datagrams@.len() == self@.datagrams.len());
        let ghost made = self@;
        assert(made == old(self)@.making_room(length as nat));
        assert(packet@.take(length as int) =~= packet@);
        self.bytes += length;
        self.datagrams.push_back(Datagram { data: first_bytes(packet, length), remote_addr });
        assert(datagram_views(self.datagrams@) =~= made.datagrams.push(
            DatagramView { data: packet@, remote_addr },
        ));
    }

    /// Takes the oldest packet.
    pub fn pop(&mut self) -> (r: Option<Datagram>)
        requires
            old(self)@.wf(),
        ensures
            final(self)@.wf(),
            match r {
                Some(datagram) => old(self)@.datagrams.len() > 0 && datagram@
                    == old(self)@.datagrams[0] && final(self)@ == (QueueView {
                    datagrams: old(self)@.datagrams.drop_first(),
                    bytes: (old(self)@.bytes - datagram@.data.len()) as usize,
                    ..old(self)@
                }),
                None => old(self)@.datagrams.len() == 0 && final(self)@ == old(self)@,
            },
    {
        let ghost before = self@;
        match self.datagrams.pop_front() {
            Some(datagram) => {
                assert(before.datagrams[0] == datagram@);
                assert(datagram_views(self.datagrams@) =~= before.datagrams.drop_first());
                self.bytes -= datagram.data.len();
                Some(datagram)
            },
            None => {
                assert(self@ == before);
                None
            },
        }
    }
}

pub open spec fn be16(high: u8, low: u8) -> nat {
    high as nat * 256 + low as nat
}

fn read_be16(high: u8, low: u8) -> (r: usize)
    ensures
        r == be16(high, low),
        r < 65_536,
{
    high as usize * 256 + low as usize
}

/// A STUN message: a header of twenty bytes with the magic cookie.
pub open spec fn is_stun(packet: Seq<u8>) -> bool {
    &&& packet.len() >= 20
    &&& packet[4] == 0x21
    &&& packet[5] == 0x12
    &&& packet[6] == 0xa4
    &&& packet[7] == 0x42
}

pub fn is_stun_packet(packet: &[u8]) -> (r: bool)
    ensures
        r == is_stun(packet@),
{
    packet.len() >= 20 && packet[4] == 0x21 && packet[5] == 0x12 && packet[6] == 0xa4 && packet[7]
        == 0x42
}

/// A complete STUN message of the class success or error response.
pub open spec fn is_response(packet: Seq<u8>) -> bool {
    &&& is_stun(packet)
    &&& 20 + be16(packet[2], packet[3]) <= packet.len()
    &&& packet[0] % 2 == 1
}

pub fn is_stun_response(packet: &[u8]) -> (r: bool)
    ensures
        r == is_response(packet@),
{
    if !is_stun_packet(packet) {
        return false;
    }
    let message_length = read_be16(packet[2], packet[3]);
    if message_length > packet.len() - 20 {
        return false;
    }
    packet[0] % 2 == 1
}

/// The value of the first attribute USERNAME at or behind an offset, where the attributes up to it
/// are whole.
pub open spec fn username_at(packet: Seq<u8>, offset: int, end: int) -> Option<Seq<u8>>
    decreases
            if end > offset {
                end - offset
            } else {
                0
            },
{
    if offset + 4 > end {
        None
    } else {
        let length = be16(packet[offset + 2], packet[offset + 3]);
        let start = offset + 4;
        if start + length > end {
            None
        } else if be16(packet[offset], packet[offset + 1]) == 6 {
            Some(packet.subrange(start, start + length))
        } else {
            username_at(packet, start + (length + 3) / 4 * 4, end)
        }
    }
}

/// The user name in a STUN message.
pub open spec fn username_of(packet: Seq<u8>) -> Option<Seq<char>> {
    let stated = 20 + be16(packet[2], packet[3]);
    let end = if stated < packet.len() {
        stated as int
    } else {
        packet.len() as int
    };
    if !is_stun(packet) {
        None
    } else {
        match username_at(packet, 20, end) {
            Some(bytes) => if valid_utf8(bytes) {
                Some(decode_utf8(bytes))
            } else {
                None
            },
            None => None,
        }
    }
}

/// Calls `std::str::from_utf8`: the text that the bytes encode, where they are valid UTF-8.
#[verifier::external_body]
fn utf8_text(bytes: &[u8]) -> (r: Option<&str>)
    ensures
        match r {
            Some(s) => valid_utf8(bytes@) && s@ == decode_utf8(bytes@),
            None => !valid_utf8(bytes@),
        },
{
    std::str::from_utf8(bytes).ok()
}

pub fn stun_username(packet: &[u8]) -> (r: Option<String>)
    ensures
        match r {
            Some(name) => username_of(packet@) == Some(name@),
            None => username_of(packet@) is None,
        },
{
    if !is_stun_packet(packet) {
        return None;
    }
    let stated = 20 + read_be16(packet[2], packet[3]);
    let end = if stated < packet.len() {
        stated
    } else {
        packet.len()
    };
    let mut offset: usize = 20;
    while offset <= end && end - offset >= 4
        invariant
            20 <= offset,
            end <= packet@.len(),
            end <= 65_555,
            is_stun(packet@),
            end == if 20 + be16(packet@[2], packet@[3]) < packet@.len() {
                20 + be16(packet@[2], packet@[3])
            } else {
                packet@.len()
            },
            username_at(packet@, 20, end as int) == username_at(
                packet@,
                offset as int,
                end as int,
            ),
        decreases end + 4 - offset,
    {
        let length = read_be16(packet[offset + 2], packet[offset + 3]);
        let start = offset + 4;
        if length > end - start {
            return None;
        }
        if read_be16(packet[offset], packet[offset + 1]) == 6 {
            let value = first_bytes(vstd::slice::slice_subrange(packet, start, start + length), length);
            assert(value@ =~= packet@.subrange(start as int, start + length));
            return match utf8_text(value.as_slice()) {
                Some(name) => Some(name.to_owned()),
                None => None,
            };
        }
        offset = start + (length + 3) / 4 * 4;
    }
    None
}

/// A connection's packets and the address from which its viewer last sent.
#[derive(Debug)]
pub struct Route {
    pub queue: EndpointQueue,
    pub remote_addr: Option<PeerAddress>,
}

#[verifier::ext_equal]
pub struct RouteView {
    pub queue: QueueView,
    pub remote_addr: Option<PeerAddress>,
}

impl View for Route {
    type V = RouteView;

    open spec fn view(&self) -> RouteView {
        RouteView { queue: self.queue@, remote_addr: self.remote_addr }
    }
}

/// The routes of all connections, and the fragments and addresses that lead to them.
#[derive(Debug)]
pub struct UdpMux {
    pub candidate_addr: PeerAddress,
    pub routes: Table<u128, Route>,
    pub by_remote_ufrag: Table<String, u128>,
    pub by_remote_addr: Table<PeerAddress, u128>,
}

#[verifier::ext_equal]
pub struct RoutesView {
    pub candidate_addr: PeerAddress,
    pub routes: Map<u128, RouteView>,
    pub by_remote_ufrag: Map<Seq<char>, u128>,
    pub by_remote_addr: Map<PeerAddress, u128>,
}

impl View for UdpMux {
    type V = RoutesView;

    open spec fn view(&self) -> RoutesView {
        RoutesView {
            candidate_addr: self.candidate_addr,
            routes: self.routes@.map_values(|route: Route| route@),
            by_remote_ufrag: self.by_remote_ufrag@,
            by_remote_addr: self.by_remote_addr@,
        }
    }
}

/// An address without its entry, if that entry leads to a connection.
pub open spec fn released(
    addresses: Map<PeerAddress, u128>,
    address: Option<PeerAddress>,
    connection_id: u128,
) -> Map<PeerAddress, u128> {
    match address {
        Some(address) => if addresses.contains_key(address) && addresses[address]
            == connection_id {
            addresses.remove(address)
        } else {
            addresses
        },
        None => addresses,
    }
}

impl RoutesView {
    pub open spec fn wf(self) -> bool {
        forall|id: u128| #[trigger]
            self.routes.contains_key(id) ==> self.routes[id].queue.wf()
    }

    /// A connection without packets, found by its fragment.
    pub open spec fn registered(self, connection_id: u128, ufrag: Seq<char>) -> RoutesView {
        RoutesView {
            routes: self.routes.insert(
                connection_id,
                RouteView {
                    queue: QueueView { datagrams: Seq::empty(), bytes: 0, dropped_packets: 0 },
                    remote_addr: None,
                },
            ),
            by_remote_ufrag: self.by_remote_ufrag.insert(ufrag, connection_id),
            ..self
        }
    }

    /// Without a connection. An address that another connection has claimed stays with that one.
    pub open spec fn unregistered(self, connection_id: u128) -> RoutesView {
        if self.routes.contains_key(connection_id) {
            RoutesView {
                routes: self.routes.remove(connection_id),
                by_remote_ufrag: crate::table::without_value(self.by_remote_ufrag, connection_id),
                by_remote_addr: released(
                    self.by_remote_addr,
                    self.routes[connection_id].remote_addr,
                    connection_id,
                ),
                ..self
            }
        } else {
            self
        }
    }

    /// A packet waits for a connection, whose viewer sent from an address.
    pub open spec fn routed(
        self,
        connection_id: u128,
        packet: Seq<u8>,
        remote_addr: PeerAddress,
    ) -> RoutesView {
        if self.routes.contains_key(connection_id) {
            let route = self.routes[connection_id];
            RoutesView {
                routes: self.routes.insert(
                    connection_id,
                    RouteView {
                        queue: route.queue.enqueued(packet, remote_addr),
                        remote_addr: Some(remote_addr),
                    },
                ),
                by_remote_addr: released(
                    self.by_remote_addr,
                    route.remote_addr,
                    connection_id,
                ).insert(remote_addr, connection_id),
                ..self
            }
        } else {
            self
        }
    }

    /// A part of a user name is a known fragment.
    pub open spec fn names(self, username: Seq<char>, k: int) -> bool {
        let parts = text::split_seq(username, ':');
        0 <= k < parts.len() && self.by_remote_ufrag.contains_key(parts[k])
    }

    /// What a user name leads to: a connection whose fragment it holds, if it holds one.
    pub open spec fn is_named(self, username: Seq<char>, connection: Option<u128>) -> bool {
        match connection {
            Some(id) => exists|k: int|
                self.names(username, k) && #[trigger] self.fragment(username, k) == id,
            None => forall|k: int| !#[trigger] self.names(username, k),
        }
    }

    /// What a packet leads to. A user name in a STUN message decides alone; a STUN request without
    /// one leads nowhere; anything else goes by the address it came from.
    pub open spec fn leads_to(
        self,
        packet: Seq<u8>,
        remote_addr: PeerAddress,
        connection: Option<u128>,
    ) -> bool {
        match username_of(packet) {
            Some(username) => self.is_named(username, connection),
            None => connection == if is_stun(packet) && !is_response(packet) {
                None::<u128>
            } else if self.by_remote_addr.contains_key(remote_addr) {
                Some(self.by_remote_addr[remote_addr])
            } else {
                None::<u128>
            },
        }
    }

    /// The connection of the fragment in a part of a user name.
    pub open spec fn fragment(self, username: Seq<char>, k: int) -> u128 {
        self.by_remote_ufrag[text::split_seq(username, ':')[k]]
    }
}

impl UdpMux {
    pub fn new(candidate_addr: PeerAddress) -> (r: Self)
        ensures
            r@ == (RoutesView {
                candidate_addr,
                routes: Map::empty(),
                by_remote_ufrag: Map::empty(),
                by_remote_addr: Map::empty(),
            }),
            r@.wf(),
    {
        let routes = UdpMux {
            candidate_addr,
            routes: Table::new(),
            by_remote_ufrag: Table::new(),
            by_remote_addr: Table::new(),
        };
        assert(routes@.routes =~= Map::empty());
        routes
    }

    /// The address that viewers are told to send to.
    pub fn candidate_addr(&self) -> (r: PeerAddress)
        ensures
            r == self@.candidate_addr,
    {
        self.candidate_addr
    }

    pub fn set_candidate_addr(&mut self, candidate_addr: PeerAddress)
        ensures
            final(self)@ == (RoutesView { candidate_addr, ..old(self)@ }),
    {
        self.candidate_addr = candidate_addr;
    }

    /// Opens the route of a connection.
    pub fn endpoint(&mut self, connection_id: u128, remote_ufrag: String)
        requires
            old(self)@.wf(),
        ensures
            final(self)@ == old(self)@.registered(connection_id, remote_ufrag@),
            final(self)@.wf(),
    {
        let ghost before = self@;
        let route = Route { queue: EndpointQueue::new(), remote_addr: None };
        let ghost view = route@;
        self.routes.insert(connection_id, route);
        assert(self@.routes =~= before.routes.insert(connection_id, view));
        self.by_remote_ufrag.insert(remote_ufrag, connection_id);
    }

    fn release(&mut self, address: Option<PeerAddress>, connection_id: u128)
        ensures
            final(self)@ == (RoutesView {
                by_remote_addr: released(old(self)@.by_remote_addr, address, connection_id),
                ..old(self)@
            }),
    {
        if let Some(address) = address {
            let owned = match self.by_remote_addr.get(&address) {
                Some(id) => *id == connection_id,
                None => false,
            };
            if owned {
                self.by_remote_addr.remove(&address);
            }
        }
    }

    /// Closes the route of a connection; says whether there was one.
    pub fn unregister(&mut self, connection_id: u128) -> (r: bool)
        requires
            old(self)@.wf(),
        ensures
            final(self)@ == old(self)@.unregistered(connection_id),
            final(self)@.wf(),
            r == old(self)@.routes.contains_key(connection_id),
    {
        let ghost before = self@;
        match self.routes.remove(&connection_id) {
            Some(route) => {
                assert(self@.routes =~= before.routes.remove(connection_id));
                self.by_remote_ufrag.remove_value(connection_id);
                self.release(route.remote_addr, connection_id);
                true
            },
            None => {
                assert(self@.routes =~= before.routes);
                false
            },
        }
    }

    /// Queues a packet for a connection and learns its viewer's address; says whether there is such
    /// a connection.
    pub fn route_packet(&mut self, connection_id: u128, packet: &[u8], remote_addr: PeerAddress) -> (r:
        bool)
        requires
            old(self)@.wf(),
        ensures
            final(self)@ == old(self)@.routed(connection_id, packet@, remote_addr),
            final(self)@.wf(),
            r == old(self)@.routes.contains_key(connection_id),
    {
        let ghost before = self@;
        match self.routes.remove(&connection_id) {
            Some(route) => {
                let mut route = route;
                assert(before.routes.contains_key(connection_id));
                assert(before.routes[connection_id] == route@);
                let old_addr = route.remote_addr;
                route.remote_addr = Some(remote_addr);
                route.queue.enqueue(packet, remote_addr);
                let ghost view = route@;
                self.routes.insert(connection_id, route);
                assert(self@.routes =~= before.routes.insert(connection_id, view));
                self.release(old_addr, connection_id);
                self.by_remote_addr.insert(remote_addr, connection_id);
                true
            },
            None => {
                assert(self@.routes =~= before.routes);
                false
            },
        }
    }

    /// The connection that a packet belongs to. Where a user name holds the fragments of several
    /// connections, one of these is returned.
    pub fn identify_packet(&self, packet: &[u8], remote_addr: PeerAddress) -> (r: Option<u128>)
        ensures
            self@.leads_to(packet@, remote_addr, r),
    {
        if let Some(username) = stun_username(packet) {
            let parts = text::split(username.as_str(), ':');
            let ghost views = text::split_seq(username@, ':');
            let mut k: usize = 0;
            while k < parts.len()
                invariant
                    k <= parts@.len(),
                    views == text::split_seq(username@, ':'),
                    text::views_of(parts@) == views,
                    username_of(packet@) == Some(username@),
                    forall|j: int| 0 <= j < k ==> !#[trigger] self@.names(username@, j),
                decreases parts@.len() - k,
            {
                let part = parts[k].to_owned();
                assert(views[k as int] == part@);
                if let Some(id) = self.by_remote_ufrag.get(&part) {
                    assert(self@.names(username@, k as int));
                    assert(self@.fragment(username@, k as int) == *id);
                    return Some(*id);
                }
                assert(!self@.names(username@, k as int));
                k += 1;
            }
            assert(views.len() == parts@.len());
            assert forall|j: int| !#[trigger] self@.names(username@, j) by {}
            return None;
        }
        if is_stun_packet(packet) && !is_stun_response(packet) {
            return None;
        }
        match self.by_remote_addr.get(&remote_addr) {
            Some(id) => Some(*id),
            None => None,
        }
    }

    /// Takes the oldest packet of a connection.
    pub fn receive(&mut self, connection_id: u128) -> (r: Option<Datagram>)
        requires
            old(self)@.wf(),
        ensures
            final(self)@.wf(),
            match r {
                Some(datagram) => {
                    let route = old(self)@.routes[connection_id];
                    &&& old(self)@.routes.contains_key(connection_id)
                    &&& route.queue.datagrams.len() > 0
                    &&& datagram@ == route.queue.datagrams[0]
                    &&& final(self)@ == (RoutesView {
                        routes: old(self)@.routes.insert(
                            connection_id,
                            RouteView {
                                queue: QueueView {
                                    datagrams: route.queue.datagrams.drop_first(),
                                    bytes: (route.queue.bytes - datagram@.data.len()) as usize,
                                    ..route.queue
                                },
                                ..route
                            },
                        ),
                        ..old(self)@
                    })
                },
                None => final(self)@ == old(self)@ && !(old(self)@.routes.contains_key(
                    connection_id,
                ) && old(self)@.routes[connection_id].queue.datagrams.len() > 0),
            },
    {
        let ghost before = self@;
        match self.routes.remove(&connection_id) {
            Some(route) => {
                let mut route = route;
                assert(before.routes.contains_key(connection_id));
                assert(before.routes[connection_id] == route@);
                let datagram = route.queue.pop();
                let ghost view = route@;
                self.routes.insert(connection_id, route);
                assert(self@.routes =~= before.routes.insert(connection_id, view));
                assert(datagram is None ==> self@.routes =~= before.routes);
                datagram
            },
            None => {
                assert(self@.routes =~= before.routes);
                None
            },
        }
    }
}

/// A packet's length in a reader's buffer, which may be too short for it.
pub fn delivered_length(datagram: usize, buffer: usize) -> (r: usize)
    ensures
        r == if datagram < buffer {
            datagram
        } else {
            buffer
        },
{
    if datagram < buffer {
        datagram
    } else {
        buffer
    }
}

/// What follows a closed route: nothing leads to the connection any more, provided no other address
/// than its last led to it.
pub proof fn lemma_closed_route_is_gone(v: RoutesView, connection_id: u128)
    requires
        v.routes.contains_key(connection_id),
        forall|address: PeerAddress|
            v.by_remote_addr.contains_key(address) && #[trigger] v.by_remote_addr[address]
                == connection_id ==> v.routes[connection_id].remote_addr == Some(address),
    ensures
        ({
            let after = v.unregistered(connection_id);
            &&& !after.routes.contains_key(connection_id)
            &&& forall|ufrag: Seq<char>| #[trigger]
                after.by_remote_ufrag.contains_key(ufrag) ==> after.by_remote_ufrag[ufrag]
                    != connection_id
            &&& forall|address: PeerAddress| #[trigger]
                after.by_remote_addr.contains_key(address) ==> after.by_remote_addr[address]
                    != connection_id
        }),
{
}

/// A viewer who changes their address leaves no trace of the old one, and an address that another
/// connection has claimed is left to it.
pub proof fn lemma_address_follows_the_viewer(
    v: RoutesView,
    connection_id: u128,
    packet: Seq<u8>,
    remote_addr: PeerAddress,
)
    requires
        v.routes.contains_key(connection_id),
    ensures
        ({
            let after = v.routed(connection_id, packet, remote_addr);
            &&& after.by_remote_addr.contains_key(remote_addr)
            &&& after.by_remote_addr[remote_addr] == connection_id
            &&& v.routes[connection_id].remote_addr matches Some(old_addr) ==> old_addr
                != remote_addr && v.by_remote_addr.contains_key(old_addr)
                && v.by_remote_addr[old_addr] == connection_id
                ==> !after.by_remote_addr.contains_key(old_addr)
            &&& forall|other: PeerAddress|
                other != remote_addr && v.by_remote_addr.contains_key(other)
                    && #[trigger] v.by_remote_addr[other] != connection_id
                    ==> after.by_remote_addr.contains_key(other) && after.by_remote_addr[other]
                    == v.by_remote_addr[other]
        }),
{
}

/// A request for an unknown viewer leads nowhere, even from an address that is known: a user name
/// decides alone.
pub proof fn lemma_unknown_request_leads_nowhere(
    v: RoutesView,
    packet: Seq<u8>,
    username: Seq<char>,
    remote_addr: PeerAddress,
    connection: Option<u128>,
)
    requires
        username_of(packet) == Some(username),
        forall|k: int| !#[trigger] v.names(username, k),
        v.leads_to(packet, remote_addr, connection),
    ensures
        connection is None,
{
    if let Some(id) = connection {
        let k = choose|k: int|
            v.names(username, k) && #[trigger] v.fragment(username, k) == id;
        assert(v.names(username, k));
    }
}

/// Closing a route leaves the others as they are, also at an address that both have used.
pub proof fn lemma_closing_spares_other_routes(v: RoutesView, closed: u128, other: u128)
    requires
        closed != other,
    ensures
        ({
            let after = v.unregistered(closed);
            &&& after.routes.contains_key(other) == v.routes.contains_key(other)
            &&& v.routes.contains_key(other) ==> after.routes[other] == v.routes[other]
            &&& forall|address: PeerAddress| #[trigger]
                v.by_remote_addr.contains_key(address) && v.by_remote_addr[address] == other
                    ==> after.by_remote_addr.contains_key(address)
                    && after.by_remote_addr[address] == other
        }),
{
}

/// A packet of a viewer who is known by the address goes to that viewer; a request that names nobody
/// does not follow the address.
pub proof fn lemma_packets_follow_the_address(
    v: RoutesView,
    packet: Seq<u8>,
    remote_addr: PeerAddress,
    connection: Option<u128>,
)
    requires
        v.leads_to(packet, remote_addr, connection),
    ensures
        packet.len() < 20 && v.by_remote_addr.contains_key(remote_addr) ==> connection == Some(
            v.by_remote_addr[remote_addr],
        ),
        packet.len() < 20 && !v.by_remote_addr.contains_key(remote_addr) ==> connection is None,
        is_stun(packet) && !is_response(packet) && username_of(packet) is None ==> connection
            is None,
{
}

/// A route that was registered under a user fragment is the one that a name of that fragment leads to,
/// and its first packets wait in order.
pub proof fn lemma_registered_route(
    v: RoutesView,
    connection_id: u128,
    ufrag: Seq<char>,
    first: Seq<u8>,
    second: Seq<u8>,
    remote_addr: PeerAddress,
)
    requires
        first.len() + second.len() <= 524_288,
    ensures
        ({
            let open = v.registered(connection_id, ufrag);
            let one = open.routed(connection_id, first, remote_addr);
            let two = one.routed(connection_id, second, remote_addr);
            let waiting = two.routes[connection_id].queue;
            &&& open.by_remote_ufrag[ufrag] == connection_id
            &&& open.routes[connection_id].queue.datagrams.len() == 0
            &&& waiting.datagrams.len() == 2
            &&& waiting.datagrams[0] == (DatagramView { data: first, remote_addr })
            &&& waiting.datagrams[1] == (DatagramView { data: second, remote_addr })
            &&& waiting.dropped_packets == 0
            &&& two.by_remote_addr[remote_addr] == connection_id
            &&& two.routes[connection_id].remote_addr == Some(remote_addr)
        }),
{
    let open = v.registered(connection_id, ufrag);
    let one = open.routed(connection_id, first, remote_addr);
    let q = one.routes[connection_id].queue;
    reveal_with_fuel(total, 3);
    assert(open.routes[connection_id].queue.datagrams.len() == 0);
    assert(q.datagrams.len() == 1 && q.datagrams[0].data == first);
    assert(q.datagrams.drop_first() =~= Seq::empty());
    assert(total(q.datagrams) == first.len());
    assert(q.has_room(second.len()));
}

/// Whether a message answers a request is told by its type: the success and error responses to a
/// binding request are numbered 0x0101 and 0x0111, the request itself 0x0001. No message is shorter
/// than its header, lacks the magic cookie or is cut off.
pub proof fn lemma_responses_are_told_by_type(packet: Seq<u8>)
    requires
        packet.len() >= 4,
    ensures
        ({
            let kind = packet[0] as int * 256 + packet[1];
            let length = packet[2] as int * 256 + packet[3];
            let cookie = packet.len() >= 20 && packet[4] as int * 0x100_0000 + packet[5] as int
                * 0x1_0000 + packet[6] as int * 0x100 + packet[7] == 0x2112_a442;
            &&& is_stun(packet) <==> cookie
            &&& cookie && length + 20 <= packet.len() && (kind == 0x0101 || kind == 0x0111)
                ==> is_response(packet)
            &&& kind == 0x0001 || kind == 0x0011 || !cookie || length + 20 > packet.len()
                ==> !is_response(packet)
        }),
{
}

} // verus!

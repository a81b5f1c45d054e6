use instant_local_stream::sdp::{ice_ufrag, offer_supports_h264_level_31};
use instant_local_stream::udp_mux::{
    EndpointQueue, MAX_QUEUED_BYTES, MAX_QUEUED_PACKETS, PeerAddress, UdpMux, delivered_length,
    is_stun_packet, is_stun_response, stun_username,
};

fn address(text: &str) -> PeerAddress {
    let (host, port) = text.rsplit_once(':').unwrap();
    let ip = host
        .split('.')
        .fold(0_u128, |ip, part| ip * 256 + part.parse::<u128>().unwrap());
    PeerAddress {
        is_v6: false,
        ip,
        port: port.parse().unwrap(),
        flow_info: 0,
        scope_id: 0,
    }
}

fn stun_packet(username: &str) -> Vec<u8> {
    let username = username.as_bytes();
    let padded_len = (username.len() + 3) & !3;
    let mut packet = vec![0_u8; 20];
    packet[4..8].copy_from_slice(&[0x21, 0x12, 0xa4, 0x42]);
    packet[2..4].copy_from_slice(&((4 + padded_len) as u16).to_be_bytes());
    packet.extend_from_slice(&0x0006_u16.to_be_bytes());
    packet.extend_from_slice(&(username.len() as u16).to_be_bytes());
    packet.extend_from_slice(username);
    packet.resize(20 + 4 + padded_len, 0);
    packet
}

fn stun_success_response() -> Vec<u8> {
    let mut packet = vec![0_u8; 20];
    packet[..2].copy_from_slice(&0x0101_u16.to_be_bytes());
    packet[4..8].copy_from_slice(&[0x21, 0x12, 0xa4, 0x42]);
    packet
}

#[test]
fn extracts_ice_username_fragment_from_offer_sdp() {
    let sdp = "v=0\r\na=ice-ufrag:browser123\r\na=ice-pwd:secret\r\n";
    assert_eq!(ice_ufrag(sdp).as_deref(), Some("browser123"));
}

#[test]
fn extracts_stun_username_attribute() {
    let username = b"server:browser";
    let mut packet = vec![0_u8; 20];
    packet[4..8].copy_from_slice(&[0x21, 0x12, 0xa4, 0x42]);
    packet[2..4].copy_from_slice(&((4 + username.len()) as u16).to_be_bytes());
    packet.extend_from_slice(&0x0006_u16.to_be_bytes());
    packet.extend_from_slice(&(username.len() as u16).to_be_bytes());
    packet.extend_from_slice(username);
    assert_eq!(stun_username(&packet).as_deref(), Some("server:browser"));
}

#[test]
fn new_endpoints_use_the_updated_public_candidate() {
    let initial_candidate = address("192.168.1.10:8475");
    let public_candidate = address("203.0.113.7:8475");
    let mut mux = UdpMux::new(initial_candidate);
    assert_eq!(mux.candidate_addr(), initial_candidate);

    mux.set_candidate_addr(public_candidate);
    mux.endpoint(1, "viewer".to_owned());

    assert_eq!(mux.candidate_addr(), public_candidate);
}

#[test]
fn endpoint_queue_is_bounded_and_drops_oldest_packets() {
    let mut queue = EndpointQueue::new();
    let remote_addr = address("127.0.0.1:9000");
    for value in 0..=MAX_QUEUED_PACKETS {
        queue.enqueue(&[value as u8], remote_addr);
    }
    assert_eq!(queue.datagrams.len(), MAX_QUEUED_PACKETS);
    assert_eq!(queue.datagrams.front().unwrap().data[0], 1);
    assert_eq!(queue.dropped_packets, 1);
}

#[test]
fn endpoint_queue_is_bounded_by_bytes() {
    let mut queue = EndpointQueue::new();
    let remote_addr = address("127.0.0.1:9000");
    let packet = vec![0_u8; MAX_QUEUED_BYTES / 2];
    queue.enqueue(&packet, remote_addr);
    queue.enqueue(&packet, remote_addr);
    queue.enqueue(&packet, remote_addr);

    assert_eq!(queue.datagrams.len(), 2);
    assert_eq!(queue.bytes, MAX_QUEUED_BYTES);
    assert_eq!(queue.dropped_packets, 1);
}

#[test]
fn stun_route_replaces_a_changed_remote_address() {
    let mut mux = UdpMux::new(address("127.0.0.1:0"));
    let id = 0xA1;
    mux.endpoint(id, "viewer".to_owned());
    let old_addr = address("127.0.0.1:9001");
    let new_addr = address("127.0.0.1:9002");

    mux.route_packet(id, &stun_packet("server:viewer"), old_addr);
    mux.route_packet(id, &stun_packet("server:viewer"), new_addr);

    assert_eq!(mux.by_remote_addr.get(&new_addr), Some(&id));
    assert!(!mux.by_remote_addr.contains(&old_addr));
}

#[test]
fn unregistering_an_old_route_keeps_a_new_same_address_route() {
    let mut mux = UdpMux::new(address("127.0.0.1:0"));
    let old_id = 0xA1;
    let new_id = 0xA2;
    mux.endpoint(old_id, "old".to_owned());
    mux.endpoint(new_id, "new".to_owned());
    let addr = address("127.0.0.1:9003");

    mux.route_packet(old_id, &stun_packet("server:old"), addr);
    mux.route_packet(new_id, &stun_packet("server:new"), addr);
    mux.unregister(old_id);

    assert_eq!(mux.by_remote_addr.get(&addr), Some(&new_id));
}

#[test]
fn stun_routing_overrides_a_stale_address_mapping() {
    let mut mux = UdpMux::new(address("127.0.0.1:0"));
    let first_id = 0xA1;
    let second_id = 0xA2;
    mux.endpoint(first_id, "first".to_owned());
    mux.endpoint(second_id, "second".to_owned());
    let addr = address("127.0.0.1:9004");

    mux.route_packet(first_id, &stun_packet("server:first"), addr);
    assert_eq!(
        mux.identify_packet(&stun_packet("server:second"), addr),
        Some(second_id)
    );
    assert_eq!(mux.identify_packet(&[0x80, 0x60], addr), Some(first_id));
}

#[test]
fn stun_responses_use_the_address_learned_from_a_valid_request() {
    let mut mux = UdpMux::new(address("127.0.0.1:0"));
    let id = 0xA1;
    mux.endpoint(id, "viewer".to_owned());
    let addr = address("127.0.0.1:9005");

    let request = stun_packet("server:viewer");
    assert_eq!(mux.identify_packet(&request, addr), Some(id));
    mux.route_packet(id, &request, addr);
    assert_eq!(
        mux.identify_packet(&stun_success_response(), addr),
        Some(id)
    );

    // An unknown request cannot reuse the learned route.
    assert_eq!(
        mux.identify_packet(&stun_packet("server:other"), addr),
        None
    );
}

#[test]
fn packets_are_received_in_order() {
    let mut mux = UdpMux::new(address("127.0.0.1:0"));
    let addr = address("127.0.0.1:9005");
    assert!(!mux.route_packet(3, &[1], addr));
    mux.endpoint(3, "viewer".to_owned());
    assert!(mux.route_packet(3, &[1], addr));
    assert!(mux.route_packet(3, &[2, 3], addr));
    assert_eq!(mux.receive(3).unwrap().data, vec![1]);
    let second = mux.receive(3).unwrap();
    assert_eq!(second.data, vec![2, 3]);
    assert_eq!(second.remote_addr, addr);
    assert!(mux.receive(3).is_none());
    assert_eq!(delivered_length(5, 3), 3);
    assert_eq!(delivered_length(2, 3), 2);
}

#[test]
fn a_closed_route_is_gone() {
    let mut mux = UdpMux::new(address("127.0.0.1:0"));
    let addr = address("127.0.0.1:9005");
    mux.endpoint(3, "viewer".to_owned());
    mux.route_packet(3, &stun_packet("server:viewer"), addr);
    assert!(mux.unregister(3));
    assert!(!mux.unregister(3));
    assert_eq!(mux.identify_packet(&stun_packet("server:viewer"), addr), None);
    assert_eq!(mux.identify_packet(&[0x80, 0x60], addr), None);
}

#[test]
fn stun_usernames_are_text() {
    let mut packet = stun_packet("server:viewer");
    assert!(is_stun_packet(&packet));
    assert!(!is_stun_response(&packet));
    assert!(is_stun_response(&stun_success_response()));
    packet[24] = 0xff;
    assert_eq!(stun_username(&packet), None);
    assert_eq!(stun_username(&packet[..19]), None);
    let accented = stun_packet("sérveur:x");
    assert_eq!(stun_username(&accented).as_deref(), Some("sérveur:x"));
}

#[test]
fn offers_state_their_h264_levels() {
    let sdp = "m=video 9 UDP/TLS/RTP/SAVPF 102\r\na=rtpmap:102 H264/90000\r\na=fmtp:102 level-asymmetry-allowed=1;packetization-mode=1;profile-level-id=42e01f\r\n";
    assert!(offer_supports_h264_level_31(sdp));
    assert!(!offer_supports_h264_level_31(&sdp.replace("42e01f", "42e01e")));
    assert!(!offer_supports_h264_level_31("v=0\r\n"));
}

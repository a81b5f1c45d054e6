use instant_local_stream::network::{
    UploadProbeReader, UploadRamp, endpoint_failure, lookup_failure, next_upload_probe_size,
    parse_ipv4, public_ip_answer, public_ip_endpoints, recommended_max_viewers, upload_rate,
};

fn upload_probe_payload(size: usize) -> Vec<u8> {
    let mut reader = UploadProbeReader::new(size);
    reader.read(size)
}

#[test]
fn recommendation_reserves_upload_headroom() {
    assert_eq!(recommended_max_viewers(100_000_000, 14_000_000), 4);
}

#[test]
fn recommendation_always_allows_one_configurable_viewer() {
    assert_eq!(recommended_max_viewers(100_000, 14_000_000), 1);
}

#[test]
fn recommendation_follows_the_rates() {
    let mut previous = 0;
    for step in 0..200_u64 {
        let limit = recommended_max_viewers(step * 7_777_777, 3_000_000);
        assert!(limit >= previous && limit >= 1);
        previous = limit;
    }
    assert_eq!(previous, 304);
    for step in 0..200_u32 {
        let limit = recommended_max_viewers(199 * 7_777_777, 3_000_000 + step * 99_999);
        assert!(limit <= previous);
        previous = limit;
    }
    assert_eq!(previous, 39);
    assert_eq!(
        recommended_max_viewers(50_000_000, 1),
        recommended_max_viewers(50_000_000, 250_000)
    );
    assert_eq!(recommended_max_viewers(50_000_000, 1), 118);
}

#[test]
fn upload_probe_payload_is_not_repeating() {
    let payload = upload_probe_payload(256);
    assert_eq!(payload.len(), 256);
    assert_ne!(&payload[..64], &payload[64..128]);
}

#[test]
fn upload_probe_ramp_doubles_after_initial_sizes() {
    assert_eq!(next_upload_probe_size(64 << 20), Some(128 << 20));
    assert_eq!(next_upload_probe_size(128 << 20), Some(256 << 20));
    assert_eq!(next_upload_probe_size(256 << 20), Some(512 << 20));
}

#[test]
fn a_probe_read_in_portions_is_one_stream() {
    let whole = upload_probe_payload(100);
    let mut reader = UploadProbeReader::new(100);
    let mut joined = reader.read(40);
    joined.extend(reader.read(40));
    joined.extend(reader.read(40));
    assert_eq!(joined, whole);
    assert_eq!(reader.read(40).len(), 0);
}

#[test]
fn rates_are_bits_per_second() {
    assert_eq!(upload_rate(1_000_000, 1_000_000_000), 8_000_000);
    assert_eq!(upload_rate(1_000_000, 500_000_000), 16_000_000);
}

#[test]
fn the_ramp_reports_its_largest_measurement() {
    let mut ramp = UploadRamp::new();
    assert!(ramp.result().is_err());
    assert!(!ramp.timeout_ends_ramp());
    let outcome = ramp.complete(1_000_000_000);
    assert_eq!(outcome.progress.upload_bps, 8_388_608);
    assert!(outcome.goes_on);
    assert_eq!(ramp.result(), Ok(8_388_608));
    assert!(ramp.timeout_ends_ramp());
}

#[test]
fn addresses_are_read_from_answers() {
    assert_eq!(parse_ipv4("203.0.113.7"), Some(0xCB00_7107));
    assert_eq!(parse_ipv4("203.0.113"), None);
    assert_eq!(parse_ipv4("203.0.113.256"), None);
    assert_eq!(parse_ipv4("203.0.113.07"), None);
    assert_eq!(public_ip_answer(" 203.0.113.7\n"), Ok(0xCB00_7107));
    assert_eq!(
        public_ip_answer("a b"),
        Err("service returned an invalid response".to_owned())
    );
    assert_eq!(
        public_ip_answer("localhost"),
        Err("service returned 'localhost', not an IPv4 address".to_owned())
    );
    let failures = vec![
        endpoint_failure(public_ip_endpoints()[0], "refused"),
        endpoint_failure("b", "late"),
    ];
    let text = lookup_failure(&failures);
    assert!(text.starts_with("all public IP lookup services failed: "));
    assert!(text.ends_with(": refused; b: late"));
}

use sp0ky::addr::{push_address, IpAddress};
use sp0ky::classifier::{
    classify_packets, detect_os, gen_signature, handle_ethernet_packet, ConsoleMessage,
    ETHERTYPE_IPV4, ETHERTYPE_IPV6,
};
use sp0ky::parser::{parse_ipv4_packet, parse_ipv6_packet, parse_tcp_packet};
use sp0ky::store::{ClientData, Store, OS};

/// A TCP header: ports, the low flag byte, window, and raw option bytes
/// (padded by the caller to a multiple of four).
fn tcp_header(src_port: u16, dst_port: u16, flag_byte: u8, window: u16, options: &[u8]) -> Vec<u8> {
    assert_eq!(options.len() % 4, 0);
    let doff = (20 + options.len()) / 4;
    let mut b = vec![
        (src_port >> 8) as u8,
        (src_port & 0xff) as u8,
        (dst_port >> 8) as u8,
        (dst_port & 0xff) as u8,
        0,
        0,
        0,
        0, // sequence number
        0,
        0,
        0,
        0, // ack number
        (doff as u8) << 4,
        flag_byte,
        (window >> 8) as u8,
        (window & 0xff) as u8,
        0,
        0, // checksum
        0,
        0, // urgent pointer
    ];
    b.extend_from_slice(options);
    b
}

/// An IPv4 packet: 20-byte header (no IP options) followed by the payload.
fn ipv4_packet(ttl: u8, flags_byte: u8, src: [u8; 4], payload: &[u8]) -> Vec<u8> {
    let mut b = vec![
        0x45, 0, 0, 0, // version/ihl, dscp, total length (unused)
        0, 0, flags_byte, 0, // id, flags + fragment offset
        ttl, 6, 0, 0, // ttl, protocol = TCP, checksum
        src[0], src[1], src[2], src[3], 10, 0, 0, 1,
    ];
    b.extend_from_slice(payload);
    b
}

/// An IPv6 packet: 40-byte header followed by the payload.
fn ipv6_packet(hop_limit: u8, src: [u8; 16], payload: &[u8]) -> Vec<u8> {
    let mut b = vec![0x60, 0, 0, 0, 0, 0, 6, hop_limit];
    b.extend_from_slice(&src);
    b.extend_from_slice(&[0u8; 16]); // destination
    b.extend_from_slice(payload);
    b
}

const LINUX_OPTS: [u8; 20] = [
    2, 4, 0x05, 0xb4, // MSS 1460
    4, 2, // SACK permitted
    8, 10, 1, 2, 3, 4, 0, 0, 0, 0, // timestamps
    1, // NOP
    3, 3, 7, // window scale 7
];

const WINDOWS_OPTS: [u8; 12] = [
    2, 4, 0x05, 0xb4, // MSS 1460
    1, // NOP
    3, 3, 8, // window scale 8
    1, 1, // NOP NOP
    4, 2, // SACK permitted
];

const MACOS_OPTS: [u8; 24] = [
    2, 4, 0x05, 0xb4, // MSS 1460
    1, // NOP
    3, 3, 6, // window scale 6
    1, 1, // NOP NOP
    8, 10, 0, 0, 0, 9, 0, 0, 0, 0, // timestamps
    4, 2, // SACK permitted
    0, 0, // EOL EOL
];

fn linux_frame() -> Vec<u8> {
    let tcp = tcp_header(40000, 80, 0x02, 29200, &LINUX_OPTS);
    ipv4_packet(55, 0x40, [192, 168, 1, 10], &tcp)
}

#[test]
fn parses_ipv4_header_fields() {
    let frame = linux_frame();
    let ip = parse_ipv4_packet(&frame).unwrap();
    assert_eq!(ip.ttl, 55);
    assert_eq!(ip.next_protocol, 6);
    assert_eq!(ip.flags, Some(2)); // don't-fragment
    assert_eq!(ip.header_length, 5);
    assert_eq!(ip.options_length, 0);
    assert_eq!(ip.payload.len(), 40);
}

#[test]
fn parses_tcp_header_fields() {
    let frame = linux_frame();
    let ip = parse_ipv4_packet(&frame).unwrap();
    let tcp = parse_tcp_packet(&ip.payload).unwrap();
    assert_eq!(tcp.source_port, 40000);
    assert_eq!(tcp.destination_port, 80);
    assert_eq!(tcp.flags, 0x002);
    assert_eq!(tcp.header_length, 10);
    assert_eq!(tcp.window_size, 29200);
    assert_eq!(tcp.mss, Some(1460));
    assert_eq!(tcp.wscale, Some(7));
    assert!(tcp.sack_permitted);
    assert_eq!(tcp.timestamp, Some(0x01020304));
    assert_eq!(tcp.options, vec![2, 4, 8, 1, 3]);
}

#[test]
fn truncated_ipv4_header_is_skipped() {
    assert!(parse_ipv4_packet(&[0x45, 0, 0, 0, 0, 0, 0, 0, 64, 6]).is_none());
    // declared header length larger than the buffer
    let mut frame = linux_frame();
    frame[0] = 0x4f; // ihl 15 -> 60 byte header
    frame.truncate(24);
    assert!(parse_ipv4_packet(&frame).is_none());
    // header length below five words
    let mut frame = linux_frame();
    frame[0] = 0x44;
    assert!(parse_ipv4_packet(&frame).is_none());
}

#[test]
fn malformed_tcp_options_are_skipped() {
    // MSS option with a length too small for its payload
    let opts = [2u8, 3, 5, 1];
    let tcp = tcp_header(1, 2, 0x02, 100, &opts);
    assert!(parse_tcp_packet(&tcp).is_none());
    // option length overrunning the region
    let opts = [3u8, 9, 0, 0];
    let tcp = tcp_header(1, 2, 0x02, 100, &opts);
    assert!(parse_tcp_packet(&tcp).is_none());
    // zero option length
    let opts = [5u8, 0, 0, 0];
    let tcp = tcp_header(1, 2, 0x02, 100, &opts);
    assert!(parse_tcp_packet(&tcp).is_none());
    // data offset below five words
    let mut tcp = tcp_header(1, 2, 0x02, 100, &[]);
    tcp[12] = 0x40;
    assert!(parse_tcp_packet(&tcp).is_none());
}

#[test]
fn option_walk_continues_past_end_of_list() {
    let tcp = tcp_header(1, 2, 0x02, 100, &MACOS_OPTS);
    let parsed = parse_tcp_packet(&tcp).unwrap();
    // both padding zeros after SACK-permitted are recorded as EOL
    assert_eq!(parsed.options, vec![2, 1, 3, 1, 1, 8, 4, 0, 0]);
}

#[test]
fn classifies_linux_syn() {
    // ttl 55, options MSS, SACK-permitted, TIMESTAMPS, NOP, WSCALE
    let frame = linux_frame();
    let ip = parse_ipv4_packet(&frame).unwrap();
    let tcp = parse_tcp_packet(&ip.payload).unwrap();
    assert_eq!(detect_os(&ip, &tcp), OS::Linux);
}

#[test]
fn classifies_windows_syn() {
    // options MSS, NOP, WSCALE, NOP, NOP, SACK-permitted with 64 < ttl < 128
    let tcp_bytes = tcp_header(50000, 443, 0x02, 64240, &WINDOWS_OPTS);
    let frame = ipv4_packet(127, 0x40, [10, 1, 2, 3], &tcp_bytes);
    let ip = parse_ipv4_packet(&frame).unwrap();
    let tcp = parse_tcp_packet(&ip.payload).unwrap();
    assert_eq!(tcp.options, vec![2, 1, 3, 1, 1, 4]);
    assert_eq!(detect_os(&ip, &tcp), OS::Windows);
}

#[test]
fn classifies_macos_syn() {
    let tcp_bytes = tcp_header(50000, 443, 0x02, 65535, &MACOS_OPTS);
    let frame = ipv4_packet(60, 0x40, [10, 1, 2, 3], &tcp_bytes);
    let ip = parse_ipv4_packet(&frame).unwrap();
    let tcp = parse_tcp_packet(&ip.payload).unwrap();
    assert_eq!(detect_os(&ip, &tcp), OS::MacOS);
}

#[test]
fn unmatched_sequences_classify_unknown() {
    // right options, TTL outside the rule's open interval on either side
    let tcp_bytes = tcp_header(50000, 443, 0x02, 64240, &WINDOWS_OPTS);
    let frame = ipv4_packet(64, 0x40, [10, 1, 2, 3], &tcp_bytes);
    let ip = parse_ipv4_packet(&frame).unwrap();
    let tcp = parse_tcp_packet(&ip.payload).unwrap();
    assert_eq!(detect_os(&ip, &tcp), OS::Unknown);
    let frame = ipv4_packet(128, 0x40, [10, 1, 2, 3], &tcp_bytes);
    let ip = parse_ipv4_packet(&frame).unwrap();
    assert_eq!(detect_os(&ip, &tcp), OS::Unknown);
    // an option sequence matching no rule
    let opts = [2u8, 4, 5, 180, 4, 2, 1, 1];
    let tcp_bytes = tcp_header(50000, 443, 0x02, 64240, &opts);
    let frame = ipv4_packet(55, 0x40, [10, 1, 2, 3], &tcp_bytes);
    let ip = parse_ipv4_packet(&frame).unwrap();
    let tcp = parse_tcp_packet(&ip.payload).unwrap();
    assert_eq!(detect_os(&ip, &tcp), OS::Unknown);
    // reordered Linux options
    let opts = [
        4u8, 2, // SACK permitted first
        2, 4, 5, 180, 8, 10, 0, 0, 0, 1, 0, 0, 0, 0, 1, 3, 3, 7,
    ];
    let tcp_bytes = tcp_header(50000, 443, 0x02, 29200, &opts);
    let frame = ipv4_packet(55, 0x40, [10, 1, 2, 3], &tcp_bytes);
    let ip = parse_ipv4_packet(&frame).unwrap();
    let tcp = parse_tcp_packet(&ip.payload).unwrap();
    assert_eq!(detect_os(&ip, &tcp), OS::Unknown);
}

#[test]
fn signature_matches_construction_rules() {
    let frame = linux_frame();
    let ip = parse_ipv4_packet(&frame).unwrap();
    let tcp = parse_tcp_packet(&ip.payload).unwrap();
    let sig = gen_signature(&ip, &tcp);
    assert_eq!(sig, "4:55+9:0:1460:29200:7:mss,sok,ts,nop,ws:10:000000010");
}

#[test]
fn signature_renders_absent_fields() {
    // IPv6, no TCP options: no mss, no wscale, no IP flags
    let tcp_bytes = tcp_header(1234, 80, 0x02, 512, &[]);
    let src = [
        0x20, 0x01, 0x0d, 0xb8, 0, 0, 0, 0, 0, 0, 0, 0, 0, 0, 0, 1,
    ];
    let frame = ipv6_packet(64, src, &tcp_bytes);
    let ip = parse_ipv6_packet(&frame).unwrap();
    let tcp = parse_tcp_packet(&ip.payload).unwrap();
    let sig = gen_signature(&ip, &tcp);
    assert_eq!(sig, "6:64+0:0:?:512:?::?:000000010");
}

#[test]
fn signature_hop_estimate_sides() {
    let tcp_bytes = tcp_header(1234, 80, 0x02, 512, &[]);
    // ttl over 128 renders the hop estimate as "?"
    let frame = ipv4_packet(200, 0x40, [10, 0, 0, 1], &tcp_bytes);
    let ip = parse_ipv4_packet(&frame).unwrap();
    let tcp = parse_tcp_packet(&ip.payload).unwrap();
    let sig = gen_signature(&ip, &tcp);
    assert_eq!(sig, "4:200+?:0:?:512:?::10:000000010");
    // ttl between 65 and 128 measures from 128
    let frame = ipv4_packet(120, 0x00, [10, 0, 0, 1], &tcp_bytes);
    let ip = parse_ipv4_packet(&frame).unwrap();
    let sig = gen_signature(&ip, &tcp);
    assert_eq!(sig, "4:120+8:0:?:512:?::00:000000010");
}

#[test]
fn signature_splits_into_nine_fields() {
    let frame = linux_frame();
    let ip = parse_ipv4_packet(&frame).unwrap();
    let tcp = parse_tcp_packet(&ip.payload).unwrap();
    let sig = gen_signature(&ip, &tcp);
    assert_eq!(sig.split(':').count(), 9);
    // also with an unrecognized option kind and absent values
    let opts = [30u8, 2, 1, 0];
    let tcp_bytes = tcp_header(9, 9, 0x02, 1, &opts);
    let frame = ipv4_packet(255, 0x40, [1, 2, 3, 4], &tcp_bytes);
    let ip = parse_ipv4_packet(&frame).unwrap();
    let tcp = parse_tcp_packet(&ip.payload).unwrap();
    let sig = gen_signature(&ip, &tcp);
    assert_eq!(sig.split(':').count(), 9);
    assert_eq!(sig, "4:255+?:0:?:1:?:?,nop,eol:10:000000010");
}

#[test]
fn classify_inserts_syn_and_reports() {
    let mut store = Store::new(10);
    let frame = linux_frame();
    let ip = parse_ipv4_packet(&frame).unwrap();
    let tcp = parse_tcp_packet(&ip.payload).unwrap();
    let msg = classify_packets(&ip, &tcp, &mut store).unwrap();
    assert_eq!(msg.address, "192.168.1.10:40000");
    assert_eq!(msg.os, OS::Linux);
    assert_eq!(msg.signature, "4:55+9:0:1460:29200:7:mss,sok,ts,nop,ws:10:000000010");
    let stored = store.get_client("192.168.1.10:40000").unwrap();
    assert_eq!(stored.os, OS::Linux);
    assert_eq!(stored.signature, msg.signature);
}

#[test]
fn non_syn_packets_are_ignored() {
    let mut store = Store::new(10);
    // SYN+ACK
    let tcp_bytes = tcp_header(40000, 80, 0x12, 29200, &LINUX_OPTS);
    let frame = ipv4_packet(55, 0x40, [192, 168, 1, 10], &tcp_bytes);
    let ip = parse_ipv4_packet(&frame).unwrap();
    let tcp = parse_tcp_packet(&ip.payload).unwrap();
    assert!(classify_packets(&ip, &tcp, &mut store).is_none());
    // plain ACK
    let tcp_bytes = tcp_header(40000, 80, 0x10, 29200, &LINUX_OPTS);
    let frame = ipv4_packet(55, 0x40, [192, 168, 1, 10], &tcp_bytes);
    let ip = parse_ipv4_packet(&frame).unwrap();
    let tcp = parse_tcp_packet(&ip.payload).unwrap();
    assert!(classify_packets(&ip, &tcp, &mut store).is_none());
    // FIN
    let tcp_bytes = tcp_header(40000, 80, 0x01, 29200, &LINUX_OPTS);
    let frame = ipv4_packet(55, 0x40, [192, 168, 1, 10], &tcp_bytes);
    let ip = parse_ipv4_packet(&frame).unwrap();
    let tcp = parse_tcp_packet(&ip.payload).unwrap();
    assert!(classify_packets(&ip, &tcp, &mut store).is_none());
    // nothing reached the store
    assert!(store.get_client("192.168.1.10:40000").is_none());
}

#[test]
fn handle_frame_end_to_end() {
    let mut store = Store::new(10);
    let frame = linux_frame();
    let msg = handle_ethernet_packet(ETHERTYPE_IPV4, &frame, &mut store).unwrap();
    assert_eq!(msg.os, OS::Linux);
    assert!(store.get_client("192.168.1.10:40000").is_some());
    // unknown ethertype is skipped
    let mut store = Store::new(10);
    assert!(handle_ethernet_packet(0x0806, &frame, &mut store).is_none());
    assert!(store.get_client("192.168.1.10:40000").is_none());
    // non-TCP next protocol is skipped
    let mut udp_frame = linux_frame();
    udp_frame[9] = 17;
    let mut store = Store::new(10);
    assert!(handle_ethernet_packet(ETHERTYPE_IPV4, &udp_frame, &mut store).is_none());
}

#[test]
fn handle_ipv6_frame() {
    let mut store = Store::new(10);
    let tcp_bytes = tcp_header(5353, 80, 0x02, 512, &[]);
    let src = [
        0x20, 0x01, 0x0d, 0xb8, 0, 0, 0, 0, 0, 0, 0, 0, 0, 0, 0, 1,
    ];
    let frame = ipv6_packet(64, src, &tcp_bytes);
    let msg = handle_ethernet_packet(ETHERTYPE_IPV6, &frame, &mut store).unwrap();
    assert_eq!(msg.address, "2001:db8::1:5353");
    assert_eq!(msg.os, OS::Unknown);
    assert!(store.get_client("2001:db8::1:5353").is_some());
}

#[test]
fn address_text_forms() {
    let mut s = String::new();
    push_address(&mut s, &IpAddress::V4(192, 168, 0, 1));
    assert_eq!(s, "192.168.0.1");
    // compression of the longest zero run, leftmost on ties
    let mut s = String::new();
    push_address(&mut s, &IpAddress::V6(vec![0x2001, 0, 0, 1, 0, 0, 0, 1]));
    assert_eq!(s, "2001:0:0:1::1");
    let mut s = String::new();
    push_address(&mut s, &IpAddress::V6(vec![0x2001, 0, 0, 0, 1, 0, 0, 1]));
    assert_eq!(s, "2001::1:0:0:1");
    // a single zero group is not compressed
    let mut s = String::new();
    push_address(&mut s, &IpAddress::V6(vec![1, 0, 2, 3, 4, 5, 6, 7]));
    assert_eq!(s, "1:0:2:3:4:5:6:7");
    // all zeros and loopback
    let mut s = String::new();
    push_address(&mut s, &IpAddress::V6(vec![0, 0, 0, 0, 0, 0, 0, 0]));
    assert_eq!(s, "::");
    let mut s = String::new();
    push_address(&mut s, &IpAddress::V6(vec![0, 0, 0, 0, 0, 0, 0, 1]));
    assert_eq!(s, "::1");
    // the IPv4-mapped form
    let mut s = String::new();
    push_address(&mut s, &IpAddress::V6(vec![0, 0, 0, 0, 0, 0xffff, 0xc0a8, 0x0001]));
    assert_eq!(s, "::ffff:192.168.0.1");
    // lowercase hex without leading zeros
    let mut s = String::new();
    push_address(&mut s, &IpAddress::V6(vec![0xfe80, 0, 0, 0, 0x02ab, 0xcdef, 0x12, 0x345]));
    assert_eq!(s, "fe80::2ab:cdef:12:345");
}

#[test]
fn store_first_write_wins() {
    let mut store = Store::new(10);
    store.add_new_client(
        String::from("1.2.3.4:80"),
        ClientData { os: OS::Linux, signature: String::from("first") },
    );
    store.add_new_client(
        String::from("1.2.3.4:80"),
        ClientData { os: OS::Windows, signature: String::from("second") },
    );
    let d = store.get_client("1.2.3.4:80").unwrap();
    assert_eq!(d.os, OS::Linux);
    assert_eq!(d.signature, "first");
}

#[test]
fn store_bound_evicts_oldest() {
    let cap = 3;
    let mut store = Store::new(cap);
    for i in 0..cap + 2 {
        store.add_new_client(
            format!("10.0.0.{}:1", i),
            ClientData { os: OS::Unknown, signature: format!("sig{}", i) },
        );
    }
    // the oldest key is gone; the most recent cap + 1 keys remain
    assert!(store.get_client("10.0.0.0:1").is_none());
    for i in 1..cap + 2 {
        let d = store.get_client(&format!("10.0.0.{}:1", i)).unwrap();
        assert_eq!(d.signature, format!("sig{}", i));
    }
}

#[test]
fn get_absent_key_returns_nothing() {
    let mut store = Store::new(5);
    assert!(store.get_client("8.8.8.8:53").is_none());
    store.add_new_client(
        String::from("8.8.8.8:53"),
        ClientData { os: OS::Unknown, signature: String::from("x") },
    );
    assert!(store.get_client("8.8.8.8:54").is_none());
    assert!(store.get_client("8.8.8.8:5").is_none());
    assert!(store.get_client("").is_none());
    assert!(store.get_client("8.8.8.8:53").is_some());
}

#[test]
fn console_message_copies_fields() {
    let data = ClientData { os: OS::MacOS, signature: String::from("sig") };
    let msg = ConsoleMessage::new(&String::from("1.1.1.1:1"), &data);
    assert_eq!(msg.address, "1.1.1.1:1");
    assert_eq!(msg.os, OS::MacOS);
    assert_eq!(msg.signature, "sig");
}

#[test]
fn ipv4_header_options_count_toward_options_length() {
    let tcp = tcp_header(40000, 80, 0x02, 29200, &LINUX_OPTS);
    // 24-byte IPv4 header: ihl 6, four bytes of IP options
    let mut frame = vec![
        0x46, 0, 0, 0, 0, 0, 0x40, 0, 55, 6, 0, 0, 192, 168, 1, 10, 10, 0, 0, 1, 7, 4, 0, 0,
    ];
    frame.extend_from_slice(&tcp);
    let ip = parse_ipv4_packet(&frame).unwrap();
    assert_eq!(ip.header_length, 6);
    assert_eq!(ip.options_length, 4);
    assert_eq!(ip.payload.len(), 40);
    let tcp = parse_tcp_packet(&ip.payload).unwrap();
    let sig = gen_signature(&ip, &tcp);
    assert_eq!(sig, "4:55+9:4:1460:29200:7:mss,sok,ts,nop,ws:10:000000010");
}

#[test]
fn mss_and_timestamp_last_occurrence_wins() {
    let opts = [
        2u8, 4, 0, 100, // MSS 100
        2, 4, 0, 200, // MSS 200 (overwrites)
    ];
    let tcp_bytes = tcp_header(1, 2, 0x02, 10, &opts);
    let tcp = parse_tcp_packet(&tcp_bytes).unwrap();
    assert_eq!(tcp.mss, Some(200));
    assert_eq!(tcp.options, vec![2, 2]);
}

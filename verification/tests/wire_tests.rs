use multicaster::addr::Ipv4Address;
use multicaster::wire::{decode, encode, socket_addr_text, ConnectionInfo};

fn record(sender: [u8; 4], host: &[u8], port: u16) -> ConnectionInfo {
    ConnectionInfo::new(
        Ipv4Address::new(sender[0], sender[1], sender[2], sender[3]),
        host.to_vec(),
        port,
    )
}

#[test]
fn encode_canonical_form() {
    let info = record([10, 0, 0, 5], b"svc.local", 1234);
    let bytes = encode(&info);
    assert_eq!(
        bytes,
        b"{\"sender\":\"10.0.0.5\",\"host\":\"svc.local\",\"port\":1234}".to_vec()
    );
}

#[test]
fn round_trip_basic() {
    let info = record([10, 0, 0, 5], b"svc.local", 1234);
    let bytes = encode(&info);
    let back = decode(&bytes).expect("canonical encoding must decode");
    assert_eq!(back, info);
}

#[test]
fn round_trip_wildcard_sender_and_port_bounds() {
    for port in [0u16, 1, 6772, 65535] {
        let info = record([0, 0, 0, 0], b"localhost", port);
        let back = decode(&encode(&info)).unwrap();
        assert_eq!(back, info);
    }
}

#[test]
fn round_trip_empty_host() {
    let info = record([192, 168, 1, 77], b"", 80);
    let bytes = encode(&info);
    assert_eq!(
        bytes,
        b"{\"sender\":\"192.168.1.77\",\"host\":\"\",\"port\":80}".to_vec()
    );
    assert_eq!(decode(&bytes).unwrap(), info);
}

#[test]
fn round_trip_escaped_host() {
    let info = record([172, 16, 254, 3], b"a\"b\\c\nd\te", 9);
    let bytes = encode(&info);
    assert_eq!(
        bytes,
        b"{\"sender\":\"172.16.254.3\",\"host\":\"a\\\"b\\\\c\\u000ad\\u0009e\",\"port\":9}"
            .to_vec()
    );
    assert_eq!(decode(&bytes).unwrap(), info);
}

#[test]
fn round_trip_every_control_byte() {
    let mut host = Vec::new();
    for b in 0u8..32 {
        host.push(b);
    }
    let info = record([1, 2, 3, 4], &host, 5);
    assert_eq!(decode(&encode(&info)).unwrap(), info);
}

#[test]
fn round_trip_non_ascii_host_bytes() {
    // UTF-8 bytes of a non-ASCII name pass through unescaped.
    let info = record([10, 1, 2, 3], "sv\u{00e9}c".as_bytes(), 443);
    assert_eq!(decode(&encode(&info)).unwrap(), info);
}

#[test]
fn decode_rejects_malformed() {
    let bad: &[&[u8]] = &[
        b"",
        b"{}",
        b"not json at all",
        b"{\"sender\":\"10.0.0.5\",\"host\":\"x\"}",
        b"{\"host\":\"x\",\"sender\":\"10.0.0.5\",\"port\":1}",
        b"{\"sender\":\"10.0.0.5\",\"host\":\"x\",\"port\":}",
        b"{\"sender\":\"10.0.0.5\",\"host\":\"x\",\"port\":1}extra",
        b"{\"sender\":\"10.0.0.5\",\"host\":\"x\",\"port\":1",
    ];
    for input in bad {
        assert!(decode(&input.to_vec()).is_none());
    }
}

#[test]
fn decode_rejects_bad_numbers() {
    let bad: &[&[u8]] = &[
        b"{\"sender\":\"10.0.0.5\",\"host\":\"x\",\"port\":01}",
        b"{\"sender\":\"10.0.0.5\",\"host\":\"x\",\"port\":65536}",
        b"{\"sender\":\"10.0.0.5\",\"host\":\"x\",\"port\":999999}",
        b"{\"sender\":\"256.0.0.5\",\"host\":\"x\",\"port\":1}",
        b"{\"sender\":\"10.00.0.5\",\"host\":\"x\",\"port\":1}",
        b"{\"sender\":\"10.0.0\",\"host\":\"x\",\"port\":1}",
        b"{\"sender\":\"10.0.0.5.6\",\"host\":\"x\",\"port\":1}",
    ];
    for input in bad {
        assert!(decode(&input.to_vec()).is_none());
    }
}

#[test]
fn decode_rejects_non_canonical_strings() {
    let bad: &[&[u8]] = &[
        // raw control byte inside the host string
        b"{\"sender\":\"1.2.3.4\",\"host\":\"a\nb\",\"port\":1}",
        // uppercase hex in the escape
        b"{\"sender\":\"1.2.3.4\",\"host\":\"\\u000A\",\"port\":1}",
        // an escape the encoder never produces
        b"{\"sender\":\"1.2.3.4\",\"host\":\"\\u0041\",\"port\":1}",
        b"{\"sender\":\"1.2.3.4\",\"host\":\"\\n\",\"port\":1}",
        // unterminated escape
        b"{\"sender\":\"1.2.3.4\",\"host\":\"\\",
    ];
    for input in bad {
        assert!(decode(&input.to_vec()).is_none());
    }
}

#[test]
fn decode_accepts_only_one_spelling() {
    // The decoder is exact: whitespace or reordered fields are rejected,
    // so a record has a single canonical wire form.
    let canonical = b"{\"sender\":\"10.0.0.5\",\"host\":\"x\",\"port\":1}".to_vec();
    assert!(decode(&canonical).is_some());
    let spaced = b"{\"sender\": \"10.0.0.5\",\"host\":\"x\",\"port\":1}".to_vec();
    assert!(decode(&spaced).is_none());
    let reordered = b"{\"port\":1,\"sender\":\"10.0.0.5\",\"host\":\"x\"}".to_vec();
    assert!(decode(&reordered).is_none());
}

#[test]
fn record_equality() {
    let a = record([10, 0, 0, 5], b"svc.local", 1234);
    let b = record([10, 0, 0, 5], b"svc.local", 1234);
    let c = record([10, 0, 0, 6], b"svc.local", 1234);
    let d = record([10, 0, 0, 5], b"svc.locaq", 1234);
    let e = record([10, 0, 0, 5], b"svc.local", 1235);
    assert!(a == b);
    assert!(a != c);
    assert!(a != d);
    assert!(a != e);
}

#[test]
fn socket_addr_text_format() {
    let group = Ipv4Address::new(239, 0, 0, 123);
    assert_eq!(socket_addr_text(group, 6772), b"239.0.0.123:6772".to_vec());
    let any = Ipv4Address::new(0, 0, 0, 0);
    assert_eq!(socket_addr_text(any, 0), b"0.0.0.0:0".to_vec());
}

use ssdp::message::{MessageType, SSDPError, SSDPMessage};
use ssdp::search::{SearchRequest, SearchResponse};

fn text(b: &[u8]) -> String {
    String::from_utf8(b.to_vec()).unwrap()
}

#[test]
fn search_serializes_with_canonical_start_line() {
    let m = SSDPMessage::new(MessageType::Search);
    assert_eq!(text(&m.serialize()), "M-SEARCH * HTTP/1.1\r\n\r\n");
    let n = SSDPMessage::new(MessageType::Notify);
    assert_eq!(text(&n.serialize()), "NOTIFY * HTTP/1.1\r\n\r\n");
    let r = SSDPMessage::new(MessageType::Response);
    assert_eq!(text(&r.serialize()), "HTTP/1.1 200 OK\r\n\r\n");
}

#[test]
fn round_trip_keeps_order_and_repeated_values() {
    let mut m = SSDPMessage::new(MessageType::Notify);
    m.set_raw(b"HOST", vec![b"239.255.255.250:1900".to_vec()]);
    m.set_raw(b"NT", vec![b"upnp:rootdevice".to_vec(), b"urn:x".to_vec()]);
    m.set_raw(b"Empty", vec![Vec::new()]);
    let bytes = m.serialize();
    assert_eq!(
        text(&bytes),
        "NOTIFY * HTTP/1.1\r\nHOST: 239.255.255.250:1900\r\nNT: upnp:rootdevice\r\nNT: urn:x\r\nEmpty: \r\n\r\n"
    );
    let p = SSDPMessage::parse_as(&bytes, MessageType::Notify).unwrap();
    assert_eq!(p.message_type(), MessageType::Notify);
    assert_eq!(p.serialize(), bytes);
    assert_eq!(
        p.get_raw(b"nt").unwrap(),
        vec![b"upnp:rootdevice".to_vec(), b"urn:x".to_vec()]
    );
    assert_eq!(p.get_raw(b"empty").unwrap(), vec![Vec::<u8>::new()]);
}

#[test]
fn notify_parsed_as_search_is_a_kind_mismatch() {
    let m = SSDPMessage::new(MessageType::Notify);
    let bytes = m.serialize();
    assert_eq!(
        SSDPMessage::parse_as(&bytes, MessageType::Search).unwrap_err(),
        SSDPError::KindMismatch { expected: MessageType::Search, found: MessageType::Notify }
    );
    assert!(SearchRequest::raw_ssdp(&bytes).is_err());
}

#[test]
fn unknown_start_lines_are_invalid() {
    let cases: Vec<&[u8]> = vec![
        b"",
        b"\r\n\r\n",
        b"GET / HTTP/1.1\r\n\r\n",
        b"M-SEARCH * HTTP/1.0\r\n\r\n",
        b"HTTP/1.1 2x0 OK\r\n\r\n",
        &[0xff, 0x00, 0x13, 0x37, 0x0d],
        b"NOTIFY * HTTP/1.1",
    ];
    for c in cases {
        assert_eq!(SSDPMessage::raw_ssdp(c).unwrap_err(), SSDPError::InvalidMessage);
        assert_eq!(
            SSDPMessage::parse_as(c, MessageType::Response).unwrap_err(),
            SSDPError::InvalidMessage
        );
    }
}

#[test]
fn malformed_header_blocks_are_invalid() {
    let cases: Vec<&[u8]> = vec![
        b"NOTIFY * HTTP/1.1\r\nNo colon here\r\n\r\n",
        b"NOTIFY * HTTP/1.1\r\n: empty name\r\n\r\n",
        b"NOTIFY * HTTP/1.1\r\nA: b\r\n",
        b"NOTIFY * HTTP/1.1\r\nA: b\r\n\r\nbody",
        b"NOTIFY * HTTP/1.1\r\nA: b\n\r\n",
        b"NOTIFY * HTTP/1.1\r\nA B: c\r\n\r\n",
    ];
    for c in cases {
        assert_eq!(SSDPMessage::raw_ssdp(c).unwrap_err(), SSDPError::InvalidMessage);
    }
}

#[test]
fn values_are_trimmed_and_names_compare_without_case() {
    let p = SSDPMessage::raw_ssdp(b"HTTP/1.1 200 OK\r\nLocation:\t  http://x/ \r\n\r\n").unwrap();
    assert_eq!(p.message_type(), MessageType::Response);
    assert_eq!(p.get_raw(b"LOCATION").unwrap(), vec![b"http://x/".to_vec()]);
    assert!(p.get_raw(b"ST").is_none());
    let q = SSDPMessage::raw_ssdp(b"HTTP/1.1 404 Not Found\r\n\r\n").unwrap();
    assert_eq!(q.message_type(), MessageType::Response);
}

#[test]
fn set_raw_replaces_every_line_of_a_name() {
    let mut m = SSDPMessage::new(MessageType::Search);
    m.set_raw(b"ST", vec![b"a".to_vec()]);
    m.set_raw(b"MAN", vec![b"\"ssdp:discover\"".to_vec()]);
    m.set_raw(b"st", vec![b"b".to_vec(), b"c".to_vec()]);
    assert_eq!(
        text(&m.serialize()),
        "M-SEARCH * HTTP/1.1\r\nst: b\r\nst: c\r\nMAN: \"ssdp:discover\"\r\n\r\n"
    );
    m.set_raw(b"St", Vec::new());
    assert!(m.get_raw(b"ST").is_none());
    assert_eq!(text(&m.serialize()), "M-SEARCH * HTTP/1.1\r\nMAN: \"ssdp:discover\"\r\n\r\n");
}

#[test]
fn set_raw_keeps_the_place_of_an_existing_name() {
    let mut r = SearchResponse::new();
    r.set_raw(b"ST", vec![b"a".to_vec()]);
    r.set_raw(b"USN", vec![b"u".to_vec()]);
    r.set_raw(b"ST", vec![b"b".to_vec(), b"c".to_vec()]);
    assert_eq!(r.get_raw(b"ST").unwrap(), vec![b"b".to_vec(), b"c".to_vec()]);
    assert_eq!(r.get_raw(b"USN").unwrap(), vec![b"u".to_vec()]);
    assert_eq!(
        text(&r.serialize()),
        "HTTP/1.1 200 OK\r\nST: b\r\nST: c\r\nUSN: u\r\n\r\n"
    );
}

#[test]
fn set_raw_drops_later_lines_of_the_name() {
    let mut m = SSDPMessage::raw_ssdp(b"NOTIFY * HTTP/1.1\r\nA: 1\r\nB: 2\r\na: 3\r\nC: 4\r\n\r\n").unwrap();
    m.set_raw(b"A", vec![b"9".to_vec()]);
    assert_eq!(text(&m.serialize()), "NOTIFY * HTTP/1.1\r\nA: 9\r\nB: 2\r\nC: 4\r\n\r\n");
}

#[test]
fn set_mx_leaves_other_headers_alone() {
    let mut req = SearchRequest::new();
    req.set_raw(b"ST", vec![b"ssdp:all".to_vec()]);
    req.set_raw(b"MX", vec![b"1".to_vec()]);
    req.set_raw(b"MAN", vec![b"\"ssdp:discover\"".to_vec()]);
    req.set_mx(3);
    assert_eq!(req.get_mx(), Some(3));
    assert_eq!(
        text(&req.serialize()),
        "M-SEARCH * HTTP/1.1\r\nST: ssdp:all\r\nMX: 3\r\nMAN: \"ssdp:discover\"\r\n\r\n"
    );
    let mut fresh = SearchRequest::new();
    fresh.set_mx(3);
    assert!(fresh.get_raw(b"ST").is_none());
}

#[test]
fn mx_round_trips_through_bytes() {
    let mut req = SearchRequest::new();
    req.set_mx(5);
    let bytes = req.serialize();
    assert!(bytes.starts_with(b"M-SEARCH * HTTP/1.1\r\n"));
    assert_eq!(text(&bytes), "M-SEARCH * HTTP/1.1\r\nMX: 5\r\n\r\n");
    let back = SearchRequest::raw_ssdp(&bytes).unwrap();
    assert_eq!(back.get_mx(), Some(5));
    assert_eq!(back.timeout_secs(), 5);
}

#[test]
fn mx_values_and_default_timeout() {
    let mut req = SearchRequest::new();
    assert_eq!(req.get_mx(), None);
    assert_eq!(req.timeout_secs(), 2);
    req.set_mx(255);
    assert_eq!(req.get_raw(b"mx").unwrap(), vec![b"255".to_vec()]);
    assert_eq!(req.get_mx(), Some(255));
    req.set_mx(42);
    assert_eq!(req.get_raw(b"MX").unwrap(), vec![b"42".to_vec()]);
    req.set_mx(0);
    assert_eq!(req.get_mx(), Some(0));
    req.set_raw(b"MX", vec![b"256".to_vec()]);
    assert_eq!(req.get_mx(), None);
    req.set_raw(b"MX", vec![b"x".to_vec()]);
    assert_eq!(req.get_mx(), None);
    req.set_raw(b"MX", vec![b"1".to_vec(), b"2".to_vec()]);
    assert_eq!(req.get_mx(), None);
    assert_eq!(req.timeout_secs(), 2);
}

#[test]
fn response_wrapper_checks_kind() {
    let mut r = SearchResponse::new();
    r.set_raw(b"ST", vec![b"upnp:rootdevice".to_vec()]);
    let bytes = r.serialize();
    let back = SearchResponse::raw_ssdp(&bytes).unwrap();
    assert_eq!(back.get_raw(b"st").unwrap(), vec![b"upnp:rootdevice".to_vec()]);
    assert_eq!(
        SearchRequest::raw_ssdp(&bytes).unwrap_err(),
        SSDPError::KindMismatch { expected: MessageType::Search, found: MessageType::Response }
    );
}

#[test]
fn response_from_message_checks_kind() {
    let m = SSDPMessage::raw_ssdp(b"HTTP/1.1 200 OK\r\nST: x\r\n\r\n").unwrap();
    let r = SearchResponse::from_message(m).unwrap();
    assert_eq!(r.get_raw(b"st").unwrap(), vec![b"x".to_vec()]);
    let n = SSDPMessage::new(MessageType::Notify);
    assert!(SearchResponse::from_message(n).is_none());
}

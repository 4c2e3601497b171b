use ssdp::message::MessageType;
use ssdp::receiver::{Receiver, Step};

#[test]
fn deadline_exhausts_receiver() {
    let mut r = Receiver::new(MessageType::Response, 1, 10_000, Some(1_000));
    assert_eq!(r.step(10_000), Step::Wait(Some(1_000)));
    assert_eq!(r.step(10_400), Step::Wait(Some(600)));
    assert_eq!(r.step(11_000), Step::Exhausted);
    assert!(r.is_exhausted());
    assert_eq!(r.step(10_500), Step::Exhausted);
    assert!(r.ready_order(&vec![true]).is_empty());
}

#[test]
fn no_deadline_waits_without_limit() {
    let mut r = Receiver::new(MessageType::Notify, 2, 0, None);
    assert_eq!(r.step(123_456), Step::Wait(None));
    r.socket_failed(0);
    assert_eq!(r.step(123_457), Step::Wait(None));
    r.socket_failed(1);
    assert_eq!(r.step(123_458), Step::Exhausted);
}

#[test]
fn no_sockets_is_exhausted_at_once() {
    let mut r = Receiver::new(MessageType::Response, 0, 5, Some(2_000));
    assert_eq!(r.step(5), Step::Exhausted);
}

#[test]
fn busy_socket_does_not_starve_another() {
    let r = Receiver::new(MessageType::Response, 2, 0, Some(2_000));
    // Socket 0 is ready for ten rounds, then socket 1 becomes ready too.
    let mut read_from_b = 0;
    for round in 0..20 {
        let ready = vec![true, round >= 10];
        let order = r.ready_order(&ready);
        if round >= 10 {
            assert_eq!(order, vec![0, 1]);
            read_from_b += 1;
        } else {
            assert_eq!(order, vec![0]);
        }
    }
    assert_eq!(read_from_b, 10);
}

#[test]
fn failed_socket_is_not_read() {
    let mut r = Receiver::new(MessageType::Response, 3, 0, None);
    r.socket_failed(1);
    r.socket_failed(7);
    assert_eq!(r.ready_order(&vec![true, true, true]), vec![0, 2]);
    assert_eq!(r.ready_order(&vec![false, true]), Vec::<usize>::new());
}

#[test]
fn only_valid_responses_are_yielded() {
    let r = Receiver::new(MessageType::Response, 1, 0, Some(1_000));
    let datagrams: Vec<&[u8]> = vec![
        b"HTTP/1.1 200 OK\r\nST: upnp:rootdevice\r\n\r\n",
        b"NOTIFY * HTTP/1.1\r\nNT: upnp:rootdevice\r\n\r\n",
        b"HTTP/1.1 200 OK\r\nST: upnp:roo",
    ];
    let items: Vec<_> = datagrams.iter().filter_map(|d| r.accept(d)).collect();
    assert_eq!(items.len(), 1);
    assert_eq!(items[0].message_type(), MessageType::Response);
    assert_eq!(items[0].get_raw(b"ST").unwrap(), vec![b"upnp:rootdevice".to_vec()]);
}

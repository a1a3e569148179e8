use whisperer::comms::{
    advance_send, begin_send, handle_request, send_message, trim_port, InboundSlot, SendState,
    SendStep,
};
use whisperer::kem::encrypt;
use whisperer::msg::Recipient;
use whisperer::tcp::{
    combine_key_request, is_ack, message_request, parse_key_reply, parse_request, payload_len,
    protocol_from_tag, public_key_request, Protocol, ACK, SUCCESS,
};
use whisperer::vector::{and_vector, rand_byte_vector, KEY_SIZE};

fn key(seed: u8) -> Vec<u8> {
    (0..KEY_SIZE as u8).map(|i| i.wrapping_mul(91).wrapping_add(seed) | 0x11).collect()
}

/// Drives one send to its end against a responder, returning the final step
/// and the messages the responder handed on.
fn run_send(
    mut step: SendStep,
    base_r: &Vec<u8>,
    slot: &mut InboundSlot,
    addr: &str,
) -> (SendStep, Vec<(String, String)>) {
    let mut events = Vec::new();
    loop {
        match step {
            SendStep::Request { request, next } => {
                let reply = handle_request(base_r, slot, addr, &request).expect("a response");
                if let Some(m) = reply.event {
                    events.push((m.author(), m.content()));
                }
                step = advance_send(next, &reply.response);
            }
            other => return (other, events),
        }
    }
}

#[test]
fn trim_port_keeps_host() {
    assert_eq!(trim_port("10.0.0.1:9998"), "10.0.0.1");
    assert_eq!(trim_port("10.0.0.1"), "10.0.0.1");
    assert_eq!(trim_port(""), "");
    assert_eq!(trim_port(":9998"), "");
    assert_eq!(trim_port("a:b:c"), "a");
}

#[test]
fn wire_format() {
    assert_eq!(protocol_from_tag(1), Protocol::PublicKey);
    assert_eq!(protocol_from_tag(2), Protocol::CombineKey);
    assert_eq!(protocol_from_tag(3), Protocol::Message);
    assert_eq!(protocol_from_tag(0), Protocol::Unknown);
    assert_eq!(protocol_from_tag(200), Protocol::Unknown);
    assert_eq!(payload_len(Protocol::PublicKey), Some(KEY_SIZE));
    assert_eq!(payload_len(Protocol::Message), None);
    assert_eq!(payload_len(Protocol::Unknown), Some(0));
    let req = public_key_request(&key(1));
    assert_eq!(req.len(), KEY_SIZE + 1);
    assert_eq!(parse_request(&req), Some((Protocol::PublicKey, key(1))));
    assert_eq!(parse_request(&Vec::new()), None);
    assert_eq!(parse_request(&vec![9]), Some((Protocol::Unknown, Vec::new())));
    let mut reply = key(2);
    reply.push(SUCCESS);
    assert_eq!(parse_key_reply(&reply), Some(key(2)));
    reply[KEY_SIZE] = 0;
    assert_eq!(parse_key_reply(&reply), None);
    assert_eq!(parse_key_reply(&vec![SUCCESS]), None);
    assert!(is_ack(&vec![ACK]));
    assert!(!is_ack(&vec![ACK, ACK]));
    assert!(!is_ack(&Vec::new()));
}

#[test]
fn responder_answers_each_operation() {
    let base = key(5);
    let mut slot = InboundSlot::new();
    assert!(slot.read().is_empty());

    let e = key(9);
    let reply = handle_request(&base, &mut slot, "1.2.3.4:1", &public_key_request(&e)).unwrap();
    let mut expected = and_vector(&base, &e);
    expected.push(SUCCESS);
    assert_eq!(reply.response, expected);
    assert!(reply.event.is_none());
    assert!(slot.read().is_empty());

    let reply = handle_request(&base, &mut slot, "1.2.3.4:1", &combine_key_request(&e)).unwrap();
    assert_eq!(reply.response, vec![ACK]);
    assert_eq!(slot.read(), and_vector(&base, &e));

    let reply = handle_request(&base, &mut slot, "1.2.3.4:1", &vec![77, 1, 2]).unwrap();
    assert_eq!(reply.response, vec![ACK]);
    assert!(reply.event.is_none());

    assert!(handle_request(&base, &mut slot, "1.2.3.4:1", &Vec::new()).is_none());
    assert!(handle_request(&base, &mut slot, "1.2.3.4:1", &vec![1, 2, 3]).is_none());
    assert!(handle_request(&base, &mut slot, "1.2.3.4:1", &vec![2, 2, 3]).is_none());
    assert_eq!(slot.read(), and_vector(&base, &e));
}

#[test]
fn message_is_decoded_and_stripped() {
    let base = key(5);
    let mut slot = InboundSlot::new();
    let k = key(40);
    slot.write(k.clone());
    let ct = encrypt(&b"hi\0\0".to_vec(), &k);
    let reply = handle_request(&base, &mut slot, "9.9.9.9:4000", &message_request(&ct)).unwrap();
    assert_eq!(reply.response, vec![ACK]);
    let m = reply.event.unwrap();
    assert_eq!(m.author(), "9.9.9.9");
    assert_eq!(m.content(), "hi");

    let ct = encrypt(&vec![b'a', 0xFF, b'b'], &k);
    let m = handle_request(&base, &mut slot, "9.9.9.9:4000", &message_request(&ct))
        .unwrap()
        .event
        .unwrap();
    assert_eq!(m.content(), "a\u{FFFD}b");
}

#[test]
fn initiator_and_responder_agree_on_key() {
    let (base_i, base_r, eph) = (key(1), key(2), key(3));
    let peer = Recipient::new(String::from("5.5.5.5"));
    let mut slot = InboundSlot::new();
    let step = begin_send(&peer, "x", base_i.clone(), eph.clone());
    let (done, _) = run_send(step, &base_r, &mut slot, "6.6.6.6:1");
    let expected = and_vector(&and_vector(&base_i, &base_r), &eph);
    match done {
        SendStep::Finished { session_key } => {
            assert_eq!(session_key, expected);
            assert_eq!(slot.read(), expected);
        }
        _ => panic!("handshake did not finish"),
    }
}

#[test]
fn send_fails_on_malformed_reply() {
    let peer = Recipient::new(String::from("5.5.5.5"));
    let step = begin_send(&peer, "x", key(1), key(2));
    let next = match step {
        SendStep::Request { request, next } => {
            assert_eq!(request, public_key_request(&key(2)));
            next
        }
        _ => panic!("expected a request"),
    };
    assert!(matches!(advance_send(next, &vec![ACK]), SendStep::Failed));
    let state = SendState::AwaitMessageAck { session_key: key(1) };
    assert!(matches!(advance_send(state, &vec![1]), SendStep::Failed));
}

#[test]
fn single_slot_hazard() {
    let base_l = key(77);
    let mut slot = InboundSlot::new();
    let x = Recipient::new(String::from("10.0.0.10"));
    let y = Recipient::new(String::from("10.0.0.20"));
    let key_x = match run_send(begin_send(&x, "from x", key(10), key(20)), &base_l, &mut slot, "10.0.0.10:1") {
        (SendStep::Finished { session_key }, _) => session_key,
        _ => panic!("handshake with x failed"),
    };
    assert_eq!(slot.read(), key_x);
    let key_y = match run_send(begin_send(&y, "from y", key(50), key(60)), &base_l, &mut slot, "10.0.0.20:1") {
        (SendStep::Finished { session_key }, _) => session_key,
        _ => panic!("handshake with y failed"),
    };
    assert_eq!(slot.read(), key_y);
    assert_ne!(key_x, key_y);

    let text = "a message that x meant for L";
    let ct = encrypt(&text.as_bytes().to_vec(), &key_x);
    let reply = handle_request(&base_l, &mut slot, "10.0.0.10:2", &message_request(&ct)).unwrap();
    assert_eq!(reply.response, vec![ACK]);
    let m = reply.event.unwrap();
    assert_eq!(m.author(), "10.0.0.10");
    assert_ne!(m.content(), text);
}

#[test]
fn end_to_end_with_cached_key() {
    let base_l = rand_byte_vector(KEY_SIZE);
    let mut slot = InboundSlot::new();
    let mut listener = Recipient::new(String::from("192.168.0.2"));
    let (done, events) = run_send(send_message(&listener, "hello"), &base_l, &mut slot, "192.168.0.7:51000");
    assert_eq!(events, vec![(String::from("192.168.0.7"), String::from("hello"))]);
    let k = match done {
        SendStep::Finished { session_key } => session_key,
        _ => panic!("handshake failed"),
    };
    listener.set_private_key(k.clone());

    let step = send_message(&listener, "again");
    match &step {
        SendStep::Request { request, .. } => assert_eq!(request[0], 3),
        _ => panic!("expected a message request"),
    }
    let (done, events) = run_send(step, &base_l, &mut slot, "192.168.0.7:51001");
    assert_eq!(events, vec![(String::from("192.168.0.7"), String::from("again"))]);
    assert!(matches!(done, SendStep::Finished { session_key } if session_key == k));
}

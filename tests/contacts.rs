use whisperer::msg::{
    find_alias, is_valid_alias, is_valid_ip, modify_alias, store_session_key,
    try_refresh_history_list, ChatHistory, Message, Recipient,
};

#[test]
fn valid_ip_examples() {
    assert!(is_valid_ip("192.168.1.1"));
    assert!(!is_valid_ip("192.168.1"));
    assert!(!is_valid_ip("1.2.3.400"));
    assert!(!is_valid_ip(""));
}

#[test]
fn ip_token_edge_cases() {
    assert!(is_valid_ip("0.0.0.0"));
    assert!(is_valid_ip("255.255.255.255"));
    assert!(is_valid_ip("+1.02.3.4"));
    assert!(!is_valid_ip("1.2.3.4."));
    assert!(!is_valid_ip(".1.2.3"));
    assert!(!is_valid_ip("1.2.3.256"));
    assert!(!is_valid_ip("1..3.4"));
    assert!(!is_valid_ip("1.2.3.4.5"));
    assert!(!is_valid_ip("1.2.3.-4"));
    assert!(!is_valid_ip("1.2.3.+"));
    assert!(!is_valid_ip("a.b.c.d"));
    assert!(!is_valid_ip(" 1.2.3.4"));
}

#[test]
fn alias_validation() {
    assert!(is_valid_alias("bob"));
    assert!(is_valid_alias("y"));
    assert!(is_valid_alias(&"x".repeat(28)));
    assert!(!is_valid_alias(&"x".repeat(29)));
    assert!(!is_valid_alias(""));
    assert!(!is_valid_alias("you"));
    assert!(!is_valid_alias("YOU"));
    assert!(!is_valid_alias("yOu"));
    assert!(is_valid_alias("yours"));
}

#[test]
fn recipient_accessors() {
    let mut r = Recipient::from(String::from("10.0.0.1"));
    assert_eq!(r.ip(), "10.0.0.1");
    assert_eq!(r.alias(), None);
    assert_eq!(r.private_key(), None);
    assert_eq!(r.full_string(), "10.0.0.1");
    r.set_alias(Some(String::from("bob")));
    assert_eq!(r.full_string(), "bob (10.0.0.1)");
    r.set_private_key(vec![1, 2, 3]);
    assert_eq!(r.private_key(), Some(vec![1, 2, 3]));
    assert!(r == r.clone());
    assert!(r != Recipient::new(String::from("10.0.0.1")));
}

#[test]
fn recipient_from_str() {
    let r = Recipient::from("10.0.0.2");
    assert_eq!(r.ip(), "10.0.0.2");
    assert_eq!(r.alias(), None);
    assert_eq!(r.private_key(), None);
    assert!(r == Recipient::from(String::from("10.0.0.2")));
}

#[test]
fn find_and_modify_alias() {
    let mut peers = vec![
        Recipient::new(String::from("1.1.1.1")),
        Recipient::new(String::from("2.2.2.2")),
    ];
    assert_eq!(find_alias("2.2.2.2", &peers), None);
    modify_alias("2.2.2.2", Some(String::from("two")), &mut peers);
    assert_eq!(find_alias("2.2.2.2", &peers), Some(String::from("two")));
    assert_eq!(find_alias("1.1.1.1", &peers), None);
    assert_eq!(find_alias("3.3.3.3", &peers), None);
    modify_alias("2.2.2.2", None, &mut peers);
    assert_eq!(find_alias("2.2.2.2", &peers), None);
}

#[test]
fn store_key_on_first_match_only() {
    let mut peers = vec![
        Recipient::new(String::from("1.1.1.1")),
        Recipient::new(String::from("1.1.1.1")),
    ];
    store_session_key(&mut peers, "1.1.1.1", vec![9; 16]);
    assert_eq!(peers[0].private_key(), Some(vec![9; 16]));
    assert_eq!(peers[1].private_key(), None);
    store_session_key(&mut peers, "5.5.5.5", vec![1; 16]);
    assert_eq!(peers[0].private_key(), Some(vec![9; 16]));
}

#[test]
fn message_clean_nulls() {
    let mut m = Message::new(String::from("1.1.1.1"), String::from("hi\0 there\0\0"));
    m.clean_nulls();
    assert_eq!(m.content(), "hi there");
    assert_eq!(m.author(), "1.1.1.1");
}

#[test]
fn chat_history_operations() {
    let peer = Recipient::new(String::from("1.1.1.1"));
    let mut h = ChatHistory::new(peer.clone());
    assert!(h.history().is_empty());
    let empty = h.pop_msg();
    assert_eq!(empty.author(), "");
    assert_eq!(empty.content(), "");
    h.push_msg(Message::new(String::from("You"), String::from("one")));
    h.push_msg(Message::new(String::from("You"), String::from("two")));
    assert_eq!(h.history().len(), 2);
    assert_eq!(h.pop_msg().content(), "two");
    assert_eq!(h.history().len(), 1);
    let mut other = Recipient::new(String::from("1.1.1.1"));
    other.set_alias(Some(String::from("x")));
    h.update_peer(other.clone());
    assert!(h.peer() == other);
    h.clear_history();
    assert!(h.history().is_empty());
}

#[test]
fn refresh_history_list_adds_missing_peers() {
    let a = Recipient::new(String::from("1.1.1.1"));
    let b = Recipient::new(String::from("2.2.2.2"));
    let c = Recipient::new(String::from("3.3.3.3"));
    let peers = vec![a.clone(), b.clone(), b.clone(), c.clone()];
    let mut list = vec![ChatHistory::new(a.clone())];
    try_refresh_history_list(&mut list, &peers, true);
    assert_eq!(list.len(), 2);
    assert!(list[1].peer() == b);
    try_refresh_history_list(&mut list, &peers, false);
    assert_eq!(list.len(), 3);
    assert!(list[2].peer() == c);
    try_refresh_history_list(&mut list, &peers, false);
    assert_eq!(list.len(), 3);
}

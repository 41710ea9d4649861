use chat_core::registry::Registry;
use chat_core::session::{probe_reply, OutFrame, Session, SessionPhase};

fn s(text: &str) -> String {
    text.to_string()
}

fn text_of(frame: &OutFrame) -> &str {
    match frame {
        OutFrame::Text(t) => t.as_str(),
        OutFrame::Binary(_) => panic!("expected a text frame"),
    }
}

fn parse(text: &str) -> serde_json::Value {
    serde_json::from_str(text).expect("frame must be valid JSON")
}

fn field<'a>(v: &'a serde_json::Value, name: &str) -> Option<&'a str> {
    v.get(name).and_then(|f| f.as_str())
}

fn join(reg: &mut Registry, username: &str, channel: &str) -> (Session, Vec<OutFrame>) {
    let mut session = Session::new();
    let payload = format!(
        "{{\"username\": \"{}\", \"channel\": \"{}\"}}",
        username, channel
    );
    let frames = session.handle_connecting_text(reg, &payload);
    (session, frames)
}

#[test]
fn joining_greets_with_the_room_content_as_server() {
    let mut reg = Registry::new(s("general"));
    let (session, frames) = join(&mut reg, "carol", "general");
    assert!(matches!(session.phase, SessionPhase::Relaying));
    assert_eq!(frames.len(), 1);
    let greeting = parse(text_of(&frames[0]));
    assert_eq!(field(&greeting, "type"), Some("message"));
    assert_eq!(field(&greeting, "username"), Some("Server"));
    // a freshly created room greets with the empty content
    assert_eq!(field(&greeting, "value"), Some(""));
}

#[test]
fn the_join_event_reaches_the_joiner_itself() {
    let mut reg = Registry::new(s("general"));
    let (mut session, _) = join(&mut reg, "carol", "general");
    let ev = session.poll_event(&reg).expect("the joiner sees its own join");
    let parsed = parse(&ev);
    assert_eq!(field(&parsed, "type"), Some("join"));
    assert_eq!(field(&parsed, "username"), Some("carol"));
}

#[test]
fn a_message_reaches_a_subscriber_in_the_same_room_only() {
    let mut reg = Registry::new(s("general"));
    let (alice, _) = join(&mut reg, "alice", "general");
    let (mut bob, _) = join(&mut reg, "bob", "general");
    let (mut dan, _) = join(&mut reg, "dan", "elsewhere");
    // drain what bob and dan are owed so far
    while bob.poll_event(&reg).is_some() {}
    while dan.poll_event(&reg).is_some() {}

    alice.handle_relaying_text(&mut reg, &s("Hello, Bob!"));

    let ev = bob.poll_event(&reg).expect("bob observes alice's message");
    let parsed = parse(&ev);
    assert_eq!(field(&parsed, "type"), Some("message"));
    assert_eq!(field(&parsed, "value"), Some("Hello, Bob!"));
    assert_eq!(field(&parsed, "username"), Some("alice"));
    assert_eq!(bob.poll_event(&reg), None);

    // dan, in another room, never observes it
    while let Some(ev) = dan.poll_event(&reg) {
        let parsed = parse(&ev);
        assert_ne!(field(&parsed, "value"), Some("Hello, Bob!"));
    }
}

#[test]
fn relayed_text_becomes_the_room_content() {
    let mut reg = Registry::new(s("general"));
    let (session, _) = join(&mut reg, "alice", "general");
    session.handle_relaying_text(&mut reg, &s("the latest line"));
    let (content, _) = reg.join_room(&s("general"), &s("late-comer"));
    assert_eq!(content, "the latest line");
}

#[test]
fn malformed_join_yields_one_error_and_closes() {
    let mut reg = Registry::new(s("general"));
    let mut session = Session::new();
    let frames = session.handle_connecting_text(&mut reg, &s("not json"));
    assert!(matches!(session.phase, SessionPhase::Closed));
    assert_eq!(frames.len(), 1);
    let parsed = parse(text_of(&frames[0]));
    assert_eq!(field(&parsed, "type"), Some("error"));
    assert_eq!(field(&parsed, "value"), Some("Invalid JSON"));
    // the registry is untouched
    assert_eq!(reg.list().len(), 1);
}

#[test]
fn join_without_the_username_field_is_malformed() {
    let mut reg = Registry::new(s("general"));
    let mut session = Session::new();
    let frames = session.handle_connecting_text(&mut reg, &s("{\"channel\": \"test\"}"));
    assert!(matches!(session.phase, SessionPhase::Closed));
    assert_eq!(frames.len(), 1);
    let parsed = parse(text_of(&frames[0]));
    assert_eq!(field(&parsed, "type"), Some("error"));
}

#[test]
fn join_with_an_empty_username_is_refused() {
    let mut reg = Registry::new(s("general"));
    let (session, frames) = join(&mut reg, "", "lonely");
    assert!(matches!(session.phase, SessionPhase::Closed));
    assert_eq!(frames.len(), 1);
    let parsed = parse(text_of(&frames[0]));
    assert_eq!(field(&parsed, "type"), Some("error"));
    assert_eq!(field(&parsed, "value"), Some("Failed to connect to room!"));
}

#[test]
fn probes_get_exactly_one_tagged_reply() {
    assert_eq!(probe_reply(&vec![0x9]), Some(vec![0xA]));
    assert_eq!(probe_reply(&vec![0x9, 0x55, 0x66]), Some(vec![0xA]));
    assert_eq!(probe_reply(&vec![0x8]), None);
    assert_eq!(probe_reply(&vec![]), None);
    assert_eq!(probe_reply(&vec![0xA]), None);
}

#[test]
fn closing_publishes_leave_and_frees_the_name() {
    let mut reg = Registry::new(s("general"));
    let (mut alice, _) = join(&mut reg, "alice", "general");
    let (mut bob, _) = join(&mut reg, "bob", "general");
    while bob.poll_event(&reg).is_some() {}
    alice.close(&mut reg);
    let ev = bob.poll_event(&reg).expect("bob observes the leave");
    let parsed = parse(&ev);
    assert_eq!(field(&parsed, "type"), Some("leave"));
    assert_eq!(field(&parsed, "username"), Some("alice"));
    let rooms = reg.list();
    let general = rooms.iter().find(|r| r.0 == "general").unwrap();
    assert_eq!(general.1, vec![s("bob")]);
    // closing again changes nothing further
    alice.close(&mut reg);
    assert_eq!(bob.poll_event(&reg), None);
}

#[test]
fn a_rejoining_client_is_greeted_with_the_current_content() {
    let mut reg = Registry::new(s("general"));
    let (mut session, _) = join(&mut reg, "disconnector", "test-room");
    session.handle_relaying_text(&mut reg, &s("Initial message"));
    session.close(&mut reg);
    let (_, frames) = join(&mut reg, "disconnector", "test-room");
    let greeting = parse(text_of(&frames[0]));
    assert_eq!(field(&greeting, "type"), Some("message"));
    assert_eq!(field(&greeting, "username"), Some("Server"));
    assert_eq!(field(&greeting, "value"), Some("Initial message"));
}

#[test]
fn joining_notifies_other_rooms_to_refresh() {
    let mut reg = Registry::new(s("general"));
    let (mut bob, _) = join(&mut reg, "bob", "general");
    while bob.poll_event(&reg).is_some() {}
    join(&mut reg, "alice", "fresh-room");
    let ev = bob.poll_event(&reg).expect("other rooms are notified");
    let parsed = parse(&ev);
    assert_eq!(field(&parsed, "type"), Some("update-rooms-list"));
}

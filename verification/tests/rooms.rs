use chat_core::registry::{Registry, RemoveError, RemoveOutcome};

fn s(text: &str) -> String {
    text.to_string()
}

fn members_of(reg: &Registry, id: &str) -> Vec<String> {
    for (room_id, members) in reg.list() {
        if room_id == id {
            return members;
        }
    }
    panic!("room {} not found", id);
}

#[test]
fn default_room_exists_from_the_start() {
    let reg = Registry::new(s("general"));
    let rooms = reg.list();
    assert_eq!(rooms.len(), 1);
    assert_eq!(rooms[0].0, "general");
    assert!(rooms[0].1.is_empty());
}

#[test]
fn join_lists_the_name_exactly_once_after_repeated_joins() {
    let mut reg = Registry::new(s("general"));
    reg.join_room(&s("general"), &s("alice"));
    reg.join_room(&s("general"), &s("alice"));
    reg.join_room(&s("general"), &s("alice"));
    let members = members_of(&reg, "general");
    let count = members.iter().filter(|m| m.as_str() == "alice").count();
    assert_eq!(count, 1);
}

#[test]
fn joining_a_new_room_creates_it() {
    let mut reg = Registry::new(s("general"));
    let (content, _) = reg.join_room(&s("new-room"), &s("carol"));
    assert_eq!(content, "");
    let rooms = reg.list();
    assert_eq!(rooms.len(), 2);
    assert_eq!(members_of(&reg, "new-room"), vec![s("carol")]);
}

#[test]
fn removing_the_default_room_is_forbidden() {
    let mut reg = Registry::new(s("general"));
    assert_eq!(reg.remove_room(&s("general")), Err(RemoveError::Forbidden));
    // still forbidden when other rooms and members exist
    reg.join_room(&s("other"), &s("alice"));
    reg.join_room(&s("general"), &s("bob"));
    assert_eq!(reg.remove_room(&s("general")), Err(RemoveError::Forbidden));
    assert_eq!(reg.list().len(), 2);
}

#[test]
fn removing_a_missing_room_is_a_repeatable_no_op() {
    let mut reg = Registry::new(s("general"));
    reg.join_room(&s("kept"), &s("alice"));
    let before = reg.list();
    for _ in 0..3 {
        assert_eq!(
            reg.remove_room(&s("nonexistent")),
            Ok(RemoveOutcome::AlreadyAbsent)
        );
    }
    let after = reg.list();
    assert_eq!(before.len(), after.len());
    for (b, a) in before.iter().zip(after.iter()) {
        assert_eq!(b.0, a.0);
        assert_eq!(b.1, a.1);
    }
}

#[test]
fn a_room_with_one_member_can_be_removed() {
    let mut reg = Registry::new(s("general"));
    reg.join_room(&s("side"), &s("alice"));
    assert_eq!(reg.remove_room(&s("side")), Ok(RemoveOutcome::Removed));
    assert_eq!(reg.list().len(), 1);
    // gone, so removing again is the silent success
    assert_eq!(reg.remove_room(&s("side")), Ok(RemoveOutcome::AlreadyAbsent));
}

#[test]
fn a_room_with_two_members_cannot_be_removed() {
    let mut reg = Registry::new(s("general"));
    reg.join_room(&s("busy"), &s("test_user_1"));
    reg.join_room(&s("busy"), &s("test_user_2"));
    assert_eq!(reg.remove_room(&s("busy")), Err(RemoveError::Conflict));
    assert_eq!(reg.list().len(), 2);
    assert_eq!(members_of(&reg, "busy").len(), 2);
}

#[test]
fn an_empty_non_default_room_can_be_removed() {
    let mut reg = Registry::new(s("general"));
    let mut cursor = {
        let (_, cursor) = reg.join_room(&s("brief"), &s("alice"));
        cursor
    };
    reg.leave_room(&s("brief"), &s("alice"));
    assert!(members_of(&reg, "brief").is_empty());
    assert_eq!(reg.remove_room(&s("brief")), Ok(RemoveOutcome::Removed));
    // the removed room's events are unreachable afterwards
    assert_eq!(reg.recv_event(&s("brief"), &mut cursor), None);
}

#[test]
fn removal_notifies_every_surviving_room() {
    let mut reg = Registry::new(s("general"));
    let (_, mut general_cursor) = reg.join_room(&s("general"), &s("bob"));
    reg.join_room(&s("doomed"), &s("alice"));
    // drain bob's queue: his own join is all he is owed so far
    while reg.recv_event(&s("general"), &mut general_cursor).is_some() {}
    assert_eq!(reg.remove_room(&s("doomed")), Ok(RemoveOutcome::Removed));
    let ev = reg
        .recv_event(&s("general"), &mut general_cursor)
        .expect("survivors are notified");
    let parsed: serde_json::Value = serde_json::from_str(&ev).unwrap();
    assert_eq!(
        parsed.get("type").and_then(|v| v.as_str()),
        Some("update-rooms-list")
    );
}

#[test]
fn restored_rooms_carry_their_persisted_content() {
    let mut reg = Registry::new(s("general"));
    reg.restore_room(&s("general"), &s("welcome back"));
    reg.restore_room(&s("archive"), &s("old content"));
    let (content, _) = reg.join_room(&s("general"), &s("alice"));
    assert_eq!(content, "welcome back");
    let (content, _) = reg.join_room(&s("archive"), &s("bob"));
    assert_eq!(content, "old content");
}

use chat_core::persist::Persister;
use chat_core::registry::Registry;

fn s(text: &str) -> String {
    text.to_string()
}

fn sample_room(reg: &Registry, persister: &mut Persister, id: &str) -> Option<String> {
    let (content, version) = reg
        .content_version(&s(id))
        .expect("the room exists");
    persister.sample(&content, version)
}

#[test]
fn a_tick_writes_only_the_latest_of_coalesced_updates() {
    let mut reg = Registry::new(s("general"));
    let mut persister = Persister::new(
        reg.content_version(&s("general")).unwrap().1,
    );
    reg.set_content(&s("general"), &s("X"));
    reg.set_content(&s("general"), &s("Y"));
    // the tick after both updates persists the latest value alone
    assert_eq!(sample_room(&reg, &mut persister, "general"), Some(s("Y")));
    // nothing more is owed until the content changes again
    assert_eq!(sample_room(&reg, &mut persister, "general"), None);
}

#[test]
fn an_unchanged_room_is_never_rewritten() {
    let mut reg = Registry::new(s("general"));
    let mut persister = Persister::new(
        reg.content_version(&s("general")).unwrap().1,
    );
    assert_eq!(sample_room(&reg, &mut persister, "general"), None);
    reg.set_content(&s("general"), &s("once"));
    assert_eq!(sample_room(&reg, &mut persister, "general"), Some(s("once")));
    assert_eq!(sample_room(&reg, &mut persister, "general"), None);
    assert_eq!(sample_room(&reg, &mut persister, "general"), None);
}

#[test]
fn each_change_is_picked_up_by_the_next_tick() {
    let mut reg = Registry::new(s("room"));
    let mut persister = Persister::new(0);
    for message in ["First message", "Second message", "Third message"] {
        reg.set_content(&s("room"), &s(message));
        assert_eq!(sample_room(&reg, &mut persister, "room"), Some(s(message)));
    }
}

#[test]
fn overwriting_with_equal_text_still_counts_as_a_change() {
    // the decision goes by the change counter, not by comparing values
    let mut reg = Registry::new(s("general"));
    let mut persister = Persister::new(
        reg.content_version(&s("general")).unwrap().1,
    );
    reg.set_content(&s("general"), &s("same"));
    assert_eq!(sample_room(&reg, &mut persister, "general"), Some(s("same")));
    reg.set_content(&s("general"), &s("same"));
    assert_eq!(sample_room(&reg, &mut persister, "general"), Some(s("same")));
}

use elsewhere::NameTable;
use elsewhere::{ElsewhereService, RegisterOutcome, SendOutcome, UnregisterOutcome};

#[test]
fn fresh_registry_has_nothing_pending() {
    let mut service: ElsewhereService<i32, String> = ElsewhereService::new();
    let r = service.register_component("tooltip", 1);
    assert_eq!(r, RegisterOutcome::Registered(None));
}

#[test]
fn send_before_register_hands_payload_to_registrant() {
    let mut service: ElsewhereService<i32, String> = ElsewhereService::new();
    let sent = service.send("tooltip", String::from("content"));
    assert_eq!(sent, SendOutcome::Buffered);
    let r = service.register_component("tooltip", 1);
    assert_eq!(r, RegisterOutcome::Registered(Some(String::from("content"))));
}

#[test]
fn send_to_registered_name_asks_for_delivery() {
    let mut service: ElsewhereService<i32, String> = ElsewhereService::new();
    assert_eq!(service.register_component("dialog", 4), RegisterOutcome::Registered(None));
    let sent = service.send("dialog", String::from("body"));
    assert_eq!(sent, SendOutcome::Deliver(String::from("body")));
    assert_eq!(service.sink_for("dialog"), Some(&4));
    // Delivery left nothing buffered: a fresh registration after an
    // unregister starts with no initial content.
    assert_eq!(service.unregister_component("dialog"), UnregisterOutcome::Unregistered);
    assert_eq!(service.register_component("dialog", 5), RegisterOutcome::Registered(None));
}

#[test]
fn duplicate_registration_keeps_first_sink() {
    let mut service: ElsewhereService<i32, String> = ElsewhereService::new();
    assert_eq!(service.register_component("dialog", 1), RegisterOutcome::Registered(None));
    assert_eq!(service.register_component("dialog", 2), RegisterOutcome::AlreadyRegistered);
    // The first sink stays the target of deliveries.
    assert_eq!(service.sink_for("dialog"), Some(&1));
    assert_eq!(
        service.send("dialog", String::from("late")),
        SendOutcome::Deliver(String::from("late"))
    );
}

#[test]
fn unregister_without_registration_changes_nothing() {
    let mut service: ElsewhereService<i32, String> = ElsewhereService::new();
    let buffered = service.send("banner", String::from("kept"));
    assert_eq!(buffered, SendOutcome::Buffered);
    assert_eq!(service.unregister_component("banner"), UnregisterOutcome::NotRegistered);
    // The spurious unregistration left the buffered payload in place.
    assert_eq!(
        service.register_component("banner", 9),
        RegisterOutcome::Registered(Some(String::from("kept")))
    );
}

#[test]
fn second_send_to_vacant_name_wins() {
    let mut service: ElsewhereService<i32, String> = ElsewhereService::new();
    assert_eq!(service.send("toast", String::from("first")), SendOutcome::Buffered);
    let second = service.send("toast", String::from("second"));
    assert_eq!(second, SendOutcome::Replaced(String::from("first")));
    let r = service.register_component("toast", 3);
    assert_eq!(r, RegisterOutcome::Registered(Some(String::from("second"))));
}

#[test]
fn relay_round_trip() {
    let mut service: ElsewhereService<i32, String> = ElsewhereService::new();
    // Register "A" with sink 1: nothing was pending.
    assert_eq!(service.register_component("A", 1), RegisterOutcome::Registered(None));
    // A send while sink 1 is attached is delivered toward it.
    assert_eq!(
        service.send("A", String::from("hello")),
        SendOutcome::Deliver(String::from("hello"))
    );
    assert_eq!(service.sink_for("A"), Some(&1));
    // Detach, then send again: no sink, so the payload is buffered.
    assert_eq!(service.unregister_component("A"), UnregisterOutcome::Unregistered);
    assert_eq!(service.sink_for("A"), None);
    assert_eq!(service.send("A", String::from("world")), SendOutcome::Buffered);
    // Sink 2 attaches and picks the buffered payload up as initial content;
    // it is only invoked again on a later send.
    assert_eq!(
        service.register_component("A", 2),
        RegisterOutcome::Registered(Some(String::from("world")))
    );
    assert_eq!(
        service.send("A", String::from("again")),
        SendOutcome::Deliver(String::from("again"))
    );
}

#[test]
fn names_are_independent_channels() {
    let mut service: ElsewhereService<i32, String> = ElsewhereService::new();
    assert_eq!(service.register_component("left", 1), RegisterOutcome::Registered(None));
    assert_eq!(service.send("right", String::from("queued")), SendOutcome::Buffered);
    assert_eq!(
        service.send("left", String::from("direct")),
        SendOutcome::Deliver(String::from("direct"))
    );
    assert_eq!(service.sink_for("right"), None);
    assert_eq!(
        service.register_component("right", 2),
        RegisterOutcome::Registered(Some(String::from("queued")))
    );
}

#[test]
fn empty_name_is_a_channel_like_any_other() {
    let mut service: ElsewhereService<i32, String> = ElsewhereService::new();
    assert_eq!(service.send("", String::from("void")), SendOutcome::Buffered);
    assert_eq!(
        service.register_component("", 8),
        RegisterOutcome::Registered(Some(String::from("void")))
    );
    assert_eq!(service.sink_for(""), Some(&8));
}

#[test]
fn reregistration_after_unregister_is_accepted() {
    let mut service: ElsewhereService<i32, String> = ElsewhereService::new();
    assert_eq!(service.register_component("panel", 1), RegisterOutcome::Registered(None));
    assert_eq!(service.unregister_component("panel"), UnregisterOutcome::Unregistered);
    assert_eq!(service.register_component("panel", 2), RegisterOutcome::Registered(None));
    assert_eq!(service.sink_for("panel"), Some(&2));
}

#[test]
fn table_insert_get_remove() {
    let mut table: NameTable<u64> = NameTable::new();
    assert!(!table.contains("k"));
    assert_eq!(table.get("k"), None);
    assert_eq!(table.insert("k", 10), None);
    assert!(table.contains("k"));
    assert_eq!(table.get("k"), Some(&10));
    assert_eq!(table.insert("k", 20), Some(10));
    assert_eq!(table.get("k"), Some(&20));
    assert_eq!(table.remove("k"), Some(20));
    assert_eq!(table.remove("k"), None);
    assert!(!table.contains("k"));
}

#[test]
fn table_keeps_names_apart() {
    let mut table: NameTable<u64> = NameTable::new();
    assert_eq!(table.insert("one", 1), None);
    assert_eq!(table.insert("two", 2), None);
    assert_eq!(table.get("one"), Some(&1));
    assert_eq!(table.get("two"), Some(&2));
    assert_eq!(table.remove("one"), Some(1));
    assert_eq!(table.get("one"), None);
    assert_eq!(table.get("two"), Some(&2));
}

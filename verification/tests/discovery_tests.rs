use vdrop::addr::PeerAddr;
use vdrop::discovery::{handle_datagram, DatagramOutcome, SelfIdentity};
use vdrop::registry::Registry;

fn own_identity() -> SelfIdentity {
    SelfIdentity {
        device_name: "me".to_string(),
        instance_id: "00000000-0000-4000-8000-000000000001".to_string(),
    }
}

fn announcement_json(app: &str, name: &str, port: u16, instance: &str) -> Vec<u8> {
    format!(
        r#"{{"app":"{}","device_name":"{}","port":{},"instance_id":"{}"}}"#,
        app, name, port, instance
    )
    .into_bytes()
}

const SRC: PeerAddr = PeerAddr::V4(0xC0A8_0105);

#[test]
fn valid_announcement_is_registered_under_its_source_address() {
    let mut reg = Registry::new();
    let own = own_identity();
    let bytes = announcement_json("vdrop", "laptop", 5005, "another-instance");
    let outcome = handle_datagram(&mut reg, &bytes, SRC, &own, 42);
    assert_eq!(outcome, DatagramOutcome::Registered);
    let snap = reg.snapshot();
    assert_eq!(snap.len(), 1);
    assert_eq!(snap[0].addr, SRC);
    assert_eq!(snap[0].name, "laptop");
}

#[test]
fn own_echo_is_never_registered() {
    let mut reg = Registry::new();
    let own = own_identity();
    // The instance identifier matches the listener's own, whatever the name.
    let bytes = announcement_json("vdrop", "any name at all", 5005, &own.instance_id);
    let outcome = handle_datagram(&mut reg, &bytes, SRC, &own, 42);
    assert_eq!(outcome, DatagramOutcome::Ignored);
    assert_eq!(reg.snapshot().len(), 0);
}

#[test]
fn foreign_app_tag_leaves_the_registry_unchanged() {
    let mut reg = Registry::new();
    let own = own_identity();
    let bytes = announcement_json("othertool", "laptop", 5005, "another-instance");
    let outcome = handle_datagram(&mut reg, &bytes, SRC, &own, 42);
    assert_eq!(outcome, DatagramOutcome::Ignored);
    assert_eq!(reg.snapshot().len(), 0);
}

#[test]
fn unparsable_payload_leaves_the_registry_unchanged() {
    let mut reg = Registry::new();
    let own = own_identity();
    for bytes in [
        &b"not json at all"[..],
        &b"{}"[..],
        &b"{\"app\":\"vdrop\"}"[..],
        &b"{\"app\":\"vdrop\",\"device_name\":\"x\",\"port\":\"5005\",\"instance_id\":\"y\"}"[..],
        &[0xFF, 0x00, 0x7F][..],
        &b""[..],
    ] {
        let outcome = handle_datagram(&mut reg, bytes, SRC, &own, 42);
        assert_eq!(outcome, DatagramOutcome::Ignored);
        assert_eq!(reg.snapshot().len(), 0);
    }
}

#[test]
fn beacon_datagram_round_trips_through_the_listener() {
    let sender = SelfIdentity::generate("Alice".to_string());
    let bytes = sender.beacon_datagram();
    let mut reg = Registry::new();
    let own = own_identity();
    let outcome = handle_datagram(&mut reg, &bytes, SRC, &own, 7);
    assert_eq!(outcome, DatagramOutcome::Registered);
    let snap = reg.snapshot();
    assert_eq!(snap.len(), 1);
    assert_eq!(snap[0].name, "Alice");
}

#[test]
fn beacon_datagram_is_suppressed_by_its_own_sender() {
    let sender = SelfIdentity::generate("Alice".to_string());
    let bytes = sender.beacon_datagram();
    let mut reg = Registry::new();
    let outcome = handle_datagram(&mut reg, &bytes, SRC, &sender, 7);
    assert_eq!(outcome, DatagramOutcome::Ignored);
    assert_eq!(reg.snapshot().len(), 0);
}

#[test]
fn repeated_announcements_refresh_the_same_entry() {
    let mut reg = Registry::new();
    let own = own_identity();
    let first = announcement_json("vdrop", "before-rename", 5005, "other");
    let second = announcement_json("vdrop", "after-rename", 5005, "other");
    handle_datagram(&mut reg, &first, SRC, &own, 1);
    handle_datagram(&mut reg, &second, SRC, &own, 2);
    let snap = reg.snapshot();
    assert_eq!(snap.len(), 1);
    assert_eq!(snap[0].name, "after-rename");
}

#[test]
fn generated_instance_identifiers_are_long_and_distinct() {
    let a = SelfIdentity::generate("host".to_string());
    let b = SelfIdentity::generate("host".to_string());
    assert_eq!(a.instance_id.len(), 36);
    assert_eq!(b.instance_id.len(), 36);
    assert_ne!(a.instance_id, b.instance_id);
}

#[test]
fn announcement_with_unicode_name_survives_the_wire() {
    let sender = SelfIdentity::generate("Büro \"Nr. 7\" \\ 東京".to_string());
    let bytes = sender.beacon_datagram();
    let mut reg = Registry::new();
    let own = own_identity();
    let outcome = handle_datagram(&mut reg, &bytes, SRC, &own, 7);
    assert_eq!(outcome, DatagramOutcome::Registered);
    assert_eq!(reg.snapshot()[0].name, "Büro \"Nr. 7\" \\ 東京");
}

use vdrop::addr::PeerAddr;
use vdrop::registry::{PeerIdentity, Registry};

fn ident(a: u32, name: &str) -> PeerIdentity {
    PeerIdentity { addr: PeerAddr::V4(a), name: name.to_string() }
}

fn names_by_addr(reg: &Registry, a: u32) -> Vec<String> {
    reg.snapshot()
        .into_iter()
        .filter(|p| p.addr == PeerAddr::V4(a))
        .map(|p| p.name)
        .collect()
}

#[test]
fn snapshot_of_empty_registry_is_empty() {
    let reg = Registry::new();
    assert_eq!(reg.snapshot().len(), 0);
}

#[test]
fn upsert_inserts_one_entry_per_address() {
    let mut reg = Registry::new();
    reg.upsert(ident(1, "alpha"), 100);
    reg.upsert(ident(2, "beta"), 100);
    let snap = reg.snapshot();
    assert_eq!(snap.len(), 2);
    assert_eq!(names_by_addr(&reg, 1), vec!["alpha".to_string()]);
    assert_eq!(names_by_addr(&reg, 2), vec!["beta".to_string()]);
}

#[test]
fn upsert_replaces_the_entry_for_an_address() {
    let mut reg = Registry::new();
    reg.upsert(ident(1, "old-name"), 100);
    reg.upsert(ident(1, "new-name"), 200);
    let snap = reg.snapshot();
    assert_eq!(snap.len(), 1);
    assert_eq!(names_by_addr(&reg, 1), vec!["new-name".to_string()]);
}

#[test]
fn evict_returns_exactly_the_live_entries() {
    // Entries last seen at 100, 200 and 300; with the clock at 320 and a
    // time-to-live of 100, only the entry refreshed at 300 may survive.
    let mut reg = Registry::new();
    reg.upsert(ident(1, "a"), 100);
    reg.upsert(ident(2, "b"), 200);
    reg.upsert(ident(3, "c"), 300);
    reg.evict_older_than(320, 100);
    let snap = reg.snapshot();
    assert_eq!(snap.len(), 1);
    assert_eq!(snap[0].addr, PeerAddr::V4(3));
    assert_eq!(snap[0].name, "c");
}

#[test]
fn evict_keeps_an_entry_exactly_at_the_cutoff() {
    // An entry is evicted only when its last-seen instant strictly predates
    // `now - ttl`; one exactly at the cutoff stays.
    let mut reg = Registry::new();
    reg.upsert(ident(1, "edge"), 220);
    reg.upsert(ident(2, "late"), 219);
    reg.evict_older_than(320, 100);
    let snap = reg.snapshot();
    assert_eq!(snap.len(), 1);
    assert_eq!(snap[0].addr, PeerAddr::V4(1));
}

#[test]
fn evict_with_ttl_longer_than_the_clock_keeps_everything() {
    let mut reg = Registry::new();
    reg.upsert(ident(1, "young"), 0);
    reg.evict_older_than(5_000, 15_000);
    assert_eq!(reg.snapshot().len(), 1);
}

#[test]
fn entry_refreshed_every_beacon_interval_never_expires() {
    // A peer refreshed every 3 s outruns janitor passes every 10 s with a
    // 15 s time-to-live.
    let mut reg = Registry::new();
    let mut next_sweep: u64 = 10_000;
    let mut t: u64 = 0;
    while t <= 60_000 {
        reg.upsert(ident(1, "steady"), t);
        if t + 3_000 > next_sweep {
            reg.evict_older_than(next_sweep, 15_000);
            assert_eq!(reg.snapshot().len(), 1, "evicted at sweep {}", next_sweep);
            next_sweep += 10_000;
        }
        t += 3_000;
    }
    assert_eq!(names_by_addr(&reg, 1), vec!["steady".to_string()]);
}

#[test]
fn entry_silent_past_the_ttl_is_evicted_on_the_next_pass() {
    // Silent for 16 s under a 15 s time-to-live: gone at the next sweep.
    let mut reg = Registry::new();
    reg.upsert(ident(1, "silent"), 0);
    reg.evict_older_than(16_000, 15_000);
    assert_eq!(reg.snapshot().len(), 0);
}

#[test]
fn snapshot_after_evict_has_no_extras_and_no_omissions() {
    let mut reg = Registry::new();
    for a in 0..10u32 {
        reg.upsert(ident(a, &format!("peer-{}", a)), u64::from(a) * 10);
    }
    // Clock 95, time-to-live 50: live are exactly those last seen at >= 45.
    reg.evict_older_than(95, 50);
    let mut got: Vec<u32> = reg
        .snapshot()
        .into_iter()
        .map(|p| match p.addr {
            PeerAddr::V4(a) => a,
            PeerAddr::V6(_) => panic!("no v6 entry was inserted"),
        })
        .collect();
    got.sort();
    assert_eq!(got, vec![5, 6, 7, 8, 9]);
}

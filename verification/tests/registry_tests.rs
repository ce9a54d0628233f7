use chat_relay::registry::{ClientRecord, PeerAddr, Registry};

fn rec(name: &str, port: u16, sink: u64) -> ClientRecord {
    ClientRecord {
        username: String::from(name),
        addr: PeerAddr { ip: 10, port },
        sink,
    }
}

#[test]
fn add_then_lookup() {
    let mut r = Registry::new();
    assert_eq!(r.len(), 0);
    r.add(rec("alice", 1, 100));
    r.add(rec("bob", 2, 200));
    assert_eq!(r.len(), 2);
    assert!(r.contains_addr(PeerAddr { ip: 10, port: 1 }));
    assert!(r.contains_addr(PeerAddr { ip: 10, port: 2 }));
    assert!(!r.contains_addr(PeerAddr { ip: 10, port: 3 }));
    assert_eq!(r.record_at(0).username, "alice");
    assert_eq!(r.record_at(1).username, "bob");
}

#[test]
fn removal_is_by_address_and_idempotent() {
    let mut r = Registry::new();
    r.add(rec("alice", 1, 100));
    r.add(rec("bob", 2, 200));
    r.remove_by_addr(PeerAddr { ip: 10, port: 2 });
    assert_eq!(r.len(), 1);
    assert!(!r.contains_addr(PeerAddr { ip: 10, port: 2 }));
    assert_eq!(r.record_at(0).username, "alice");
    // removing the same address again deletes nothing
    r.remove_by_addr(PeerAddr { ip: 10, port: 2 });
    assert_eq!(r.len(), 1);
    assert_eq!(r.record_at(0).username, "alice");
}

#[test]
fn removed_client_is_no_longer_targeted() {
    let mut r = Registry::new();
    r.add(rec("alice", 1, 100));
    r.add(rec("bob", 2, 200));
    r.remove_by_addr(PeerAddr { ip: 10, port: 2 });
    let targets = r.pass_targets();
    assert_eq!(targets, vec![100]);
}

#[test]
fn targets_follow_registry_order() {
    let mut r = Registry::new();
    r.add(rec("a", 1, 5));
    r.add(rec("b", 2, 9));
    r.add(rec("c", 3, 1));
    assert_eq!(r.pass_targets(), vec![5, 9, 1]);
}

#[test]
fn pruning_failed_writes_spares_the_others() {
    let mut r = Registry::new();
    r.add(rec("a", 1, 5));
    r.add(rec("b", 2, 9));
    r.add(rec("c", 3, 1));
    // the write to "b" failed during the pass
    r.prune_failed(&vec![1]);
    assert_eq!(r.len(), 2);
    assert_eq!(r.record_at(0).username, "a");
    assert_eq!(r.record_at(1).username, "c");
    assert_eq!(r.pass_targets(), vec![5, 1]);
}

#[test]
fn pruning_several_keeps_order() {
    let mut r = Registry::new();
    r.add(rec("a", 1, 5));
    r.add(rec("b", 2, 9));
    r.add(rec("c", 3, 1));
    r.add(rec("d", 4, 7));
    r.prune_failed(&vec![0, 2]);
    assert_eq!(r.len(), 2);
    assert_eq!(r.record_at(0).username, "b");
    assert_eq!(r.record_at(1).username, "d");
}

#[test]
fn pruning_nothing_changes_nothing() {
    let mut r = Registry::new();
    r.add(rec("a", 1, 5));
    r.prune_failed(&vec![]);
    assert_eq!(r.len(), 1);
    assert_eq!(r.record_at(0).username, "a");
}

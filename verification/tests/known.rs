use std::collections::HashSet;

use nomad::known::{forget, offline, record_seen};
use nomad::protocol::{NodeId, Os};
use nomad::status::KnownPeer;

fn id(n: u128) -> NodeId {
    NodeId(n)
}

#[test]
fn record_inserts_then_updates_in_place() {
    let mut k: Vec<KnownPeer> = Vec::new();
    record_seen(&mut k, id(1), "forge".into(), Os::Windows, Some("1.1.1.1:1".into()), 100);
    assert_eq!(k.len(), 1);

    record_seen(&mut k, id(1), "forge2".into(), Os::Windows, Some("2.2.2.2:2".into()), 200);
    assert_eq!(k.len(), 1);
    assert_eq!(k[0].name, "forge2");
    assert_eq!(k[0].last_addr.as_deref(), Some("2.2.2.2:2"));
    assert_eq!(k[0].last_seen_unix, 200);
}

#[test]
fn record_keeps_last_addr_when_none_provided() {
    let mut k: Vec<KnownPeer> = Vec::new();
    record_seen(&mut k, id(1), "forge".into(), Os::Windows, Some("1.1.1.1:1".into()), 100);
    record_seen(&mut k, id(1), "forge".into(), Os::Windows, None, 150);
    assert_eq!(k[0].last_addr.as_deref(), Some("1.1.1.1:1"));
}

#[test]
fn forget_removes_existing_only() {
    let mut k: Vec<KnownPeer> = Vec::new();
    record_seen(&mut k, id(1), "a".into(), Os::Linux, None, 1);
    assert!(forget(&mut k, id(1)));
    assert!(k.is_empty());
    assert!(!forget(&mut k, id(1)));
}

#[test]
fn offline_excludes_connected_and_sorts_desc() {
    let mut k: Vec<KnownPeer> = Vec::new();
    record_seen(&mut k, id(1), "vieux".into(), Os::Linux, None, 100);
    record_seen(&mut k, id(2), "recent".into(), Os::Linux, None, 300);
    record_seen(&mut k, id(3), "connecte".into(), Os::Linux, None, 200);

    let connected: HashSet<u128> = [id(3).0].into_iter().collect();
    let off = offline(&k, &connected);

    assert_eq!(off.len(), 2);
    assert_eq!(off[0].name, "recent");
    assert_eq!(off[1].name, "vieux");
}

#[test]
fn record_appends_new_machines_in_order() {
    let mut k: Vec<KnownPeer> = Vec::new();
    record_seen(&mut k, id(1), "a".into(), Os::Linux, None, 1);
    record_seen(&mut k, id(2), "b".into(), Os::MacOs, Some("x".into()), 2);
    assert_eq!(k.len(), 2);
    assert_eq!(k[1].id, id(2));
    assert_eq!(k[1].os, Os::MacOs);
}

#[test]
fn offline_keeps_order_of_ties() {
    let mut k: Vec<KnownPeer> = Vec::new();
    record_seen(&mut k, id(1), "first".into(), Os::Linux, None, 50);
    record_seen(&mut k, id(2), "second".into(), Os::Linux, None, 50);
    record_seen(&mut k, id(3), "newest".into(), Os::Linux, None, 60);
    let off = offline(&k, &HashSet::new());
    let names: Vec<&str> = off.iter().map(|p| p.name.as_str()).collect();
    assert_eq!(names, vec!["newest", "first", "second"]);
}

#[test]
fn forget_keeps_other_machines() {
    let mut k: Vec<KnownPeer> = Vec::new();
    record_seen(&mut k, id(1), "a".into(), Os::Linux, None, 1);
    record_seen(&mut k, id(2), "b".into(), Os::Linux, None, 2);
    record_seen(&mut k, id(3), "c".into(), Os::Linux, None, 3);
    assert!(forget(&mut k, id(2)));
    let ids: Vec<u128> = k.iter().map(|p| p.id.0).collect();
    assert_eq!(ids, vec![1, 3]);
}

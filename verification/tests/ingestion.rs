use nostr::JsonUtil;
use relay_rs::event::Event;
use relay_rs::ingest::{
    aftermath, concluded, gate, persistence, precheck, screen, tally, verdict, Backend, Outcome, StoreOp,
    KIND_DELETION, KIND_VANISH,
};
use relay_rs::message::RelayMessage;
use relay_rs::query::Selection;
use relay_rs::store::Target;
use relay_rs::whitelist::{Access, User, WhitelistStatus};

const NOW: i64 = 1_700_000_000;

fn keys(n: u64) -> nostr::Keys {
    nostr::Keys::parse(&format!("{:064x}", n + 1)).unwrap()
}

fn pk(n: u64) -> String {
    keys(n).public_key().to_hex()
}

fn signed(k: &nostr::Keys, kind: u16, content: &str, tags: Vec<Vec<&str>>, at: u64) -> Event {
    let tags: Vec<nostr::Tag> = tags.into_iter().map(|t| nostr::Tag::parse(t).unwrap()).collect();
    let e = nostr::EventBuilder::new(nostr::Kind::from(kind), content)
        .tags(tags)
        .custom_created_at(nostr::Timestamp::from(at))
        .sign_with_keys(k)
        .unwrap();
    Event::from_text(&e.as_json()).unwrap()
}

fn backend_with(active: &[u64]) -> Backend {
    let mut b = Backend::new();
    for n in active {
        b.users.add(User { pubkey: pk(*n), is_admin: false, status: WhitelistStatus::Active });
    }
    b
}

fn refused(e: &Event, why: &str) -> Outcome {
    Outcome {
        reply: RelayMessage::Ack { event_id: e.id.clone(), accepted: false, message: why.to_string() },
        broadcast: false,
    }
}

fn accepted(e: &Event) -> Outcome {
    Outcome {
        reply: RelayMessage::Ack { event_id: e.id.clone(), accepted: true, message: String::new() },
        broadcast: true,
    }
}

fn all(b: &Backend) -> Vec<Event> {
    b.events.select(&Selection { kinds: vec![], authors: vec![], since: None, until: None, limit: 500 }, NOW)
}

#[test]
fn screen_refuses_a_bad_signature_first() {
    let e = signed(&keys(1), 1, "hi", vec![vec!["expiration", "5"]], 10);
    assert_eq!(
        screen(&e, Some("Invalid signature".to_string()), NOW),
        Err(RelayMessage::Ack {
            event_id: e.id.clone(),
            accepted: false,
            message: "Invalid signature: Invalid signature".to_string()
        })
    );
    assert_eq!(
        screen(&e, None, NOW),
        Err(RelayMessage::Ack { event_id: e.id.clone(), accepted: false, message: "error: event expired".to_string() })
    );
    assert_eq!(screen(&e, None, 5), Ok(Some(5)));
    assert_eq!(screen(&signed(&keys(1), 1, "hi", vec![], 10), None, NOW), Ok(None));
}

#[test]
fn precheck_checks_the_signature_itself() {
    let good = signed(&keys(1), 1, "hi", vec![vec!["expiration", "1700000001"]], 10);
    assert_eq!(precheck(&good, NOW), Ok(Some(1_700_000_001)));
    let mut bad = good.clone();
    bad.content = "changed".to_string();
    assert_eq!(
        precheck(&bad, NOW),
        Err(RelayMessage::Ack {
            event_id: bad.id.clone(),
            accepted: false,
            message: "Invalid signature: Invalid event ID".to_string()
        })
    );
}

#[test]
fn gate_blocks_who_is_not_whitelisted() {
    let e = signed(&keys(1), 1, "hi", vec![], 10);
    assert_eq!(gate(&e, Access { is_admin: true, is_active: false }), None);
    assert_eq!(gate(&e, Access { is_admin: false, is_active: true }), None);
    assert_eq!(
        gate(&e, Access { is_admin: false, is_active: false }),
        Some(RelayMessage::Ack {
            event_id: e.id.clone(),
            accepted: false,
            message: "blocked: user not whitelisted".to_string()
        })
    );
}

#[test]
fn persistence_replaces_addressable_events() {
    let plain = signed(&keys(1), 1, "hi", vec![vec!["d", "a"]], 10);
    assert_eq!(persistence(&plain, Some(7), NOW), vec![StoreOp::Insert { event: plain.clone(), expires_at: Some(7), received_at: NOW }]);
    let addr = signed(&keys(1), 30000, "v1", vec![vec!["t", "x"], vec!["d", "a"]], 10);
    assert_eq!(
        persistence(&addr, None, 9),
        vec![
            StoreOp::Delete(Target::Addressable { pubkey: pk(1), kind: 30000, d_tag: "a".to_string() }),
            StoreOp::Insert { event: addr.clone(), expires_at: None, received_at: 9 },
        ]
    );
    assert!(persistence(&addr, None, 9)[1].is_insert());
    assert!(!persistence(&addr, None, 9)[0].is_insert());
    let bare = signed(&keys(1), 39999, "v1", vec![], 10);
    assert_eq!(
        persistence(&bare, None, NOW)[0],
        StoreOp::Delete(Target::Addressable { pubkey: pk(1), kind: 39999, d_tag: String::new() })
    );
}

#[test]
fn aftermath_follows_the_kind() {
    assert_eq!(KIND_DELETION, 5);
    assert_eq!(KIND_VANISH, 62);
    let x = "ab".repeat(32);
    let y = "cd".repeat(32);
    let del = signed(&keys(1), 5, "", vec![vec!["e", &x], vec!["p", &y], vec!["e", &y]], 10);
    assert_eq!(
        aftermath(&del),
        vec![
            StoreOp::Delete(Target::Owned { event_id: x.clone(), pubkey: pk(1) }),
            StoreOp::Delete(Target::Owned { event_id: y.clone(), pubkey: pk(1) }),
        ]
    );
    let vanish = signed(&keys(1), 62, "", vec![vec!["relay", "ALL_RELAYS"]], 10);
    assert_eq!(
        aftermath(&vanish),
        vec![
            StoreOp::Delete(Target::Author { pubkey: pk(1) }),
            StoreOp::MarkVanished { pubkey: pk(1) },
            StoreOp::Invalidate { pubkey: pk(1) },
        ]
    );
    assert_eq!(aftermath(&signed(&keys(1), 1, "", vec![vec!["e", &x]], 10)), vec![]);
}

#[test]
fn verdict_tells_success_from_a_failed_store() {
    let e = signed(&keys(1), 1, "hi", vec![], 10);
    assert_eq!(verdict(&e, true), RelayMessage::Ack { event_id: e.id.clone(), accepted: true, message: String::new() });
    assert_eq!(
        verdict(&e, false),
        RelayMessage::Ack { event_id: e.id.clone(), accepted: false, message: "error: internal error".to_string() }
    );
}

#[test]
fn an_event_of_a_whitelisted_author_is_stored_and_broadcast() {
    let mut b = backend_with(&[1]);
    let e = signed(&keys(1), 1, "hi", vec![], 10);
    assert_eq!(b.ingest(&e, NOW), accepted(&e));
    assert_eq!(all(&b), vec![e.clone()]);
    assert_eq!(b.ingest(&e, NOW), accepted(&e));
    assert_eq!(b.events.len(), 1);
}

#[test]
fn an_event_of_an_unknown_author_is_blocked() {
    let mut b = backend_with(&[1]);
    let e = signed(&keys(2), 1, "hi", vec![], 10);
    assert_eq!(b.ingest(&e, NOW), refused(&e, "blocked: user not whitelisted"));
    assert_eq!(b.events.len(), 0);
    assert_eq!(b.cache.get(&format!("whitelist:{}", pk(2)), NOW), Some("0:0".to_string()));
}

#[test]
fn an_administrator_may_publish_though_revoked() {
    let mut b = Backend::new();
    b.users.add(User { pubkey: pk(3), is_admin: true, status: WhitelistStatus::Revoked });
    let e = signed(&keys(3), 1, "hi", vec![], 10);
    assert_eq!(b.ingest(&e, NOW), accepted(&e));
}

#[test]
fn the_steps_fail_in_their_order() {
    let mut b = backend_with(&[]);
    let mut e = signed(&keys(2), 1, "hi", vec![vec!["expiration", "5"]], 10);
    assert_eq!(b.ingest(&e, NOW), refused(&e, "error: event expired"));
    assert_eq!(b.cache.get(&format!("whitelist:{}", pk(2)), NOW), None);
    e.content = "x".to_string();
    assert_eq!(b.ingest(&e, NOW), refused(&e, "Invalid signature: Invalid event ID"));
    assert_eq!(b.ingest_checked(&e, None, NOW), refused(&e, "error: event expired"));
    assert_eq!(b.ingest_checked(&e, None, 1), refused(&e, "blocked: user not whitelisted"));
}

#[test]
fn the_expiration_is_stored_with_the_event() {
    let mut b = backend_with(&[1]);
    let e = signed(&keys(1), 1, "hi", vec![vec!["expiration", "1700000100"]], 10);
    assert_eq!(b.ingest(&e, NOW), accepted(&e));
    let open = Selection { kinds: vec![], authors: vec![], since: None, until: None, limit: 10 };
    assert_eq!(b.events.select(&open, 1_700_000_099).len(), 1);
    assert_eq!(b.events.select(&open, 1_700_000_100).len(), 0);
}

#[test]
fn an_addressable_event_leaves_one_of_its_triple() {
    let mut b = backend_with(&[1, 2]);
    let v1 = signed(&keys(1), 30000, "v1", vec![vec!["d", "a"]], 10);
    let v2 = signed(&keys(1), 30000, "v2", vec![vec!["d", "a"]], 20);
    let other_d = signed(&keys(1), 30000, "o", vec![vec!["d", "b"]], 30);
    let other_kind = signed(&keys(1), 30001, "k", vec![vec!["d", "a"]], 40);
    let other_author = signed(&keys(2), 30000, "a", vec![vec!["d", "a"]], 50);
    for e in [&v1, &other_d, &other_kind, &other_author, &v2] {
        assert_eq!(b.ingest(e, NOW), accepted(e));
    }
    let stored = all(&b);
    let same: Vec<&Event> =
        stored.iter().filter(|e| e.pubkey == pk(1) && e.kind == 30000 && e.d_tag_value() == "a").collect();
    assert_eq!(same, vec![&v2]);
    assert_eq!(stored.len(), 4);
    assert_eq!(b.ingest(&v1, NOW), accepted(&v1));
    let stored = all(&b);
    let same: Vec<&Event> =
        stored.iter().filter(|e| e.pubkey == pk(1) && e.kind == 30000 && e.d_tag_value() == "a").collect();
    assert_eq!(same, vec![&v1]);
}

#[test]
fn a_deletion_takes_only_events_of_its_author() {
    let mut b = backend_with(&[1, 2]);
    let mine = signed(&keys(1), 1, "mine", vec![], 10);
    let theirs = signed(&keys(2), 1, "theirs", vec![], 20);
    b.ingest(&mine, NOW);
    b.ingest(&theirs, NOW);
    let del = signed(&keys(1), 5, "", vec![vec!["e", &mine.id], vec!["e", &theirs.id]], 30);
    assert_eq!(b.ingest(&del, NOW), accepted(&del));
    let left = all(&b);
    assert!(!left.contains(&mine));
    assert!(left.contains(&theirs));
    assert!(left.contains(&del));
    let again = signed(&keys(2), 5, "", vec![vec!["e", &mine.id]], 40);
    assert_eq!(b.ingest(&again, NOW), accepted(&again));
    assert!(all(&b).contains(&theirs));
}

#[test]
fn a_request_to_vanish_leaves_nothing_of_its_author() {
    let mut b = backend_with(&[1, 2]);
    let a = signed(&keys(1), 1, "a", vec![], 10);
    let c = signed(&keys(2), 1, "c", vec![], 20);
    b.ingest(&a, NOW);
    b.ingest(&c, NOW);
    let vanish = signed(&keys(1), 62, "", vec![vec!["relay", "ALL_RELAYS"]], 30);
    assert_eq!(b.ingest(&vanish, NOW), accepted(&vanish));
    assert_eq!(all(&b), vec![c.clone()]);
    assert_eq!(b.users.find(&pk(1)).map(|u| u.status), Some(WhitelistStatus::Vanished));
    assert_eq!(b.users.find(&pk(2)).map(|u| u.status), Some(WhitelistStatus::Active));
    assert_eq!(b.cache.get(&format!("whitelist:{}", pk(1)), NOW), None);
    let late = signed(&keys(1), 1, "late", vec![], 40);
    assert_eq!(b.ingest(&late, NOW), refused(&late, "blocked: user not whitelisted"));
}

#[test]
fn the_operations_can_be_applied_one_by_one() {
    let mut b = backend_with(&[1]);
    let e = signed(&keys(1), 30000, "v1", vec![vec!["d", "a"]], 10);
    b.apply_all(&persistence(&e, None, NOW));
    assert_eq!(all(&b), vec![e.clone()]);
    b.apply(&StoreOp::MarkVanished { pubkey: pk(1) });
    assert_eq!(b.users.find(&pk(1)).map(|u| u.status), Some(WhitelistStatus::Vanished));
    b.cache.set_ex(&format!("whitelist:{}", pk(1)), "0:1", 300, NOW);
    b.apply(&StoreOp::Invalidate { pubkey: pk(1) });
    assert_eq!(b.cache.get(&format!("whitelist:{}", pk(1)), NOW), None);
    b.apply(&StoreOp::Delete(Target::Author { pubkey: pk(1) }));
    assert_eq!(b.events.len(), 0);
}

#[test]
fn nothing_follows_a_failed_insertion() {
    let x = "ab".repeat(32);
    let del = signed(&keys(1), 5, "", vec![vec!["e", &x]], 10);
    let vanish = signed(&keys(1), 62, "", vec![], 10);
    for e in [&del, &vanish] {
        assert_eq!(
            concluded(e, false),
            (
                RelayMessage::Ack {
                    event_id: e.id.clone(),
                    accepted: false,
                    message: "error: internal error".to_string()
                },
                vec![],
                false
            )
        );
        assert_eq!(
            concluded(e, true),
            (
                RelayMessage::Ack { event_id: e.id.clone(), accepted: true, message: String::new() },
                aftermath(e),
                true
            )
        );
    }
    assert_eq!(concluded(&del, true).1.len(), 1);
    assert_eq!(concluded(&vanish, true).1.len(), 3);
}

#[test]
fn only_a_failed_insertion_loses_the_event() {
    let addr = signed(&keys(1), 30000, "v1", vec![vec!["d", "a"]], 10);
    let ops = persistence(&addr, None, NOW);
    assert!(tally(true, &ops[0], true));
    assert!(tally(true, &ops[0], false));
    assert!(tally(true, &ops[1], true));
    assert!(!tally(true, &ops[1], false));
    assert!(!tally(false, &ops[0], true));
    assert!(!tally(false, &ops[1], true));
}

use relay_rs::cache::{invalidate, lookup, Cache};
use relay_rs::event::Event;
use relay_rs::query::Selection;
use relay_rs::store::{let_through, EventStore, Target};
use relay_rs::users::UserStore;
use relay_rs::whitelist::{
    access_from_row, cache_hit, cache_key, decode, encode, is_permitted, Access, User, WhitelistStatus, CACHE_TTL,
};

fn event(id: &str, pubkey: &str, kind: u64, at: u64, tags: Vec<Vec<&str>>) -> Event {
    Event {
        id: id.to_string(),
        pubkey: pubkey.to_string(),
        created_at: at,
        kind,
        tags: tags.into_iter().map(|t| t.into_iter().map(|s| s.to_string()).collect()).collect(),
        content: String::new(),
        sig: String::new(),
    }
}

fn open(limit: u64) -> Selection {
    Selection { kinds: vec![], authors: vec![], since: None, until: None, limit }
}

fn ids(events: &Vec<Event>) -> Vec<String> {
    events.iter().map(|e| e.id.clone()).collect()
}

#[test]
fn insert_does_nothing_where_the_id_is_taken() {
    let mut s = EventStore::new();
    assert_eq!(s.len(), 0);
    assert!(s.insert(event("a", "p", 1, 1, vec![]), None, 0));
    assert!(s.insert(event("b", "p", 1, 2, vec![]), None, 0));
    assert!(!s.insert(event("a", "q", 7, 9, vec![]), Some(5), 0));
    assert_eq!(s.len(), 2);
    assert!(s.contains_id("a"));
    assert!(!s.contains_id("c"));
    assert_eq!(s.ids(), vec!["a".to_string(), "b".to_string()]);
    let got = s.select(&open(10), 0);
    assert_eq!(got.iter().find(|e| e.id == "a").map(|e| e.pubkey.as_str()), Some("p"));
}

#[test]
fn delete_addressable_takes_every_version() {
    let mut s = EventStore::new();
    s.insert(event("a", "p", 30000, 1, vec![vec!["d", "x"]]), None, 0);
    s.insert(event("b", "p", 30000, 2, vec![vec!["d", "x"], vec!["t", "k"]]), None, 0);
    s.insert(event("c", "p", 30000, 3, vec![vec!["d", "y"]]), None, 0);
    s.insert(event("d", "q", 30000, 4, vec![vec!["d", "x"]]), None, 0);
    s.insert(event("e", "p", 30001, 5, vec![vec!["d", "x"]]), None, 0);
    s.insert(event("f", "p", 30000, 6, vec![]), None, 0);
    let n = s.delete(&Target::Addressable { pubkey: "p".to_string(), kind: 30000, d_tag: "x".to_string() });
    assert_eq!(n, 2);
    assert_eq!(s.ids(), vec!["c", "d", "e", "f"]);
    let n = s.delete(&Target::Addressable { pubkey: "p".to_string(), kind: 30000, d_tag: String::new() });
    assert_eq!(n, 1);
    assert_eq!(s.ids(), vec!["c", "d", "e"]);
}

#[test]
fn delete_owned_wants_id_and_author() {
    let mut s = EventStore::new();
    s.insert(event("a", "p", 1, 1, vec![]), None, 0);
    s.insert(event("b", "q", 1, 2, vec![]), None, 0);
    assert_eq!(s.delete(&Target::Owned { event_id: "a".to_string(), pubkey: "q".to_string() }), 0);
    assert_eq!(s.delete(&Target::Owned { event_id: "z".to_string(), pubkey: "p".to_string() }), 0);
    assert_eq!(s.len(), 2);
    assert_eq!(s.delete(&Target::Owned { event_id: "a".to_string(), pubkey: "p".to_string() }), 1);
    assert_eq!(s.ids(), vec!["b"]);
}

#[test]
fn delete_author_takes_all_their_events() {
    let mut s = EventStore::new();
    s.insert(event("a", "p", 1, 1, vec![]), None, 0);
    s.insert(event("b", "q", 1, 2, vec![]), None, 0);
    s.insert(event("c", "p", 7, 3, vec![]), None, 0);
    assert_eq!(s.delete(&Target::Author { pubkey: "p".to_string() }), 2);
    assert_eq!(s.ids(), vec!["b"]);
    assert_eq!(s.delete(&Target::Author { pubkey: "p".to_string() }), 0);
}

#[test]
fn select_returns_the_newest_first() {
    let mut s = EventStore::new();
    s.insert(event("a", "p", 1, 10, vec![]), None, 0);
    s.insert(event("b", "p", 1, 30, vec![]), None, 0);
    s.insert(event("c", "p", 1, 20, vec![]), None, 0);
    s.insert(event("d", "p", 1, 30, vec![]), None, 0);
    assert_eq!(ids(&s.select(&open(10), 0)), vec!["b", "d", "c", "a"]);
    assert_eq!(ids(&s.select(&open(2), 0)), vec!["b", "d"]);
    assert_eq!(ids(&s.select(&open(3), 0)), vec!["b", "d", "c"]);
    assert_eq!(ids(&s.select(&open(0), 0)), Vec::<String>::new());
    assert_eq!(ids(&s.select(&open(4), 0)), vec!["b", "d", "c", "a"]);
}

#[test]
fn select_leaves_out_what_has_expired() {
    let mut s = EventStore::new();
    s.insert(event("a", "p", 1, 10, vec![]), Some(100), 0);
    s.insert(event("b", "p", 1, 20, vec![]), Some(101), 0);
    s.insert(event("c", "p", 1, 30, vec![]), None, 0);
    assert_eq!(ids(&s.select(&open(10), 99)), vec!["c", "b", "a"]);
    assert_eq!(ids(&s.select(&open(10), 100)), vec!["c", "b"]);
    assert_eq!(ids(&s.select(&open(10), 101)), vec!["c"]);
}

#[test]
fn select_applies_the_selection() {
    let mut s = EventStore::new();
    s.insert(event("a", "abc", 1, 10, vec![]), None, 0);
    s.insert(event("b", "abd", 7, 20, vec![]), None, 0);
    s.insert(event("c", "xyz", 1, 30, vec![]), None, 0);
    let sel = Selection { kinds: vec![1], authors: vec!["ab".to_string()], since: None, until: None, limit: 10 };
    assert_eq!(ids(&s.select(&sel, 0)), vec!["a"]);
    let sel = Selection { kinds: vec![], authors: vec!["ab".to_string(), "x".to_string()], since: Some(20), until: Some(30), limit: 10 };
    assert_eq!(ids(&s.select(&sel, 0)), vec!["c", "b"]);
    assert!(let_through(&sel, &event("q", "xx", 5, 25, vec![])));
    assert!(!let_through(&sel, &event("q", "xx", 5, 31, vec![])));
    assert!(!let_through(&sel, &event("q", "yx", 5, 25, vec![])));
}

#[test]
fn access_is_cached_as_two_flags() {
    for (a, text) in [
        (Access { is_admin: true, is_active: true }, "1:1"),
        (Access { is_admin: true, is_active: false }, "1:0"),
        (Access { is_admin: false, is_active: true }, "0:1"),
        (Access { is_admin: false, is_active: false }, "0:0"),
    ] {
        assert_eq!(encode(a), text);
        assert_eq!(decode(text), Some(a));
    }
    assert_eq!(cache_key("ab"), "whitelist:ab");
    assert_eq!(CACHE_TTL, 300);
}

#[test]
fn a_cached_text_needs_exactly_one_colon() {
    assert_eq!(decode(""), None);
    assert_eq!(decode("1"), None);
    assert_eq!(decode("1:1:1"), None);
    assert_eq!(decode("::"), None);
    assert_eq!(decode(":"), Some(Access { is_admin: false, is_active: false }));
    assert_eq!(decode("1:"), Some(Access { is_admin: true, is_active: false }));
    assert_eq!(decode(":1"), Some(Access { is_admin: false, is_active: true }));
    assert_eq!(decode("11:1"), Some(Access { is_admin: false, is_active: true }));
    assert_eq!(decode("1:11"), Some(Access { is_admin: true, is_active: false }));
    assert_eq!(decode("yes:no"), Some(Access { is_admin: false, is_active: false }));
    assert_eq!(cache_hit(None), None);
    assert_eq!(cache_hit(Some("1:0")), Some(Access { is_admin: true, is_active: false }));
    assert_eq!(cache_hit(Some("10")), None);
}

#[test]
fn administrators_and_active_users_are_permitted() {
    assert!(is_permitted(Access { is_admin: true, is_active: true }));
    assert!(is_permitted(Access { is_admin: true, is_active: false }));
    assert!(is_permitted(Access { is_admin: false, is_active: true }));
    assert!(!is_permitted(Access { is_admin: false, is_active: false }));
}

#[test]
fn a_row_says_what_access_its_user_has() {
    let user = |is_admin, status| User { pubkey: "p".to_string(), is_admin, status };
    assert_eq!(access_from_row(None), Access { is_admin: false, is_active: false });
    assert_eq!(access_from_row(Some(&user(false, WhitelistStatus::Active))), Access { is_admin: false, is_active: true });
    assert_eq!(access_from_row(Some(&user(true, WhitelistStatus::Revoked))), Access { is_admin: true, is_active: false });
    assert_eq!(access_from_row(Some(&user(false, WhitelistStatus::Vanished))), Access { is_admin: false, is_active: false });
}

#[test]
fn the_user_table_allows_and_revokes() {
    let mut u = UserStore::new();
    assert_eq!(u.find("p"), None);
    u.allow("p");
    assert_eq!(u.find("p"), Some(&User { pubkey: "p".to_string(), is_admin: false, status: WhitelistStatus::Active }));
    u.set_status("p", WhitelistStatus::Revoked);
    assert_eq!(u.find("p").map(|x| x.status), Some(WhitelistStatus::Revoked));
    u.set_status("q", WhitelistStatus::Revoked);
    assert_eq!(u.find("q"), None);
    u.allow("p");
    assert_eq!(u.find("p").map(|x| x.status), Some(WhitelistStatus::Active));
    assert!(u.add(User { pubkey: "a".to_string(), is_admin: true, status: WhitelistStatus::Revoked }));
    assert!(!u.add(User { pubkey: "a".to_string(), is_admin: false, status: WhitelistStatus::Active }));
    u.allow("a");
    assert_eq!(u.find("a"), Some(&User { pubkey: "a".to_string(), is_admin: true, status: WhitelistStatus::Active }));
    u.allow("z");
    u.set_status("p", WhitelistStatus::Vanished);
    assert_eq!(u.list_active(), vec!["a".to_string(), "z".to_string()]);
}

#[test]
fn the_cache_keeps_a_text_until_its_time_runs_out() {
    let mut c = Cache::new();
    assert_eq!(c.get("k", 0), None);
    c.set_ex("k", "v", 300, 1000);
    assert_eq!(c.get("k", 1000), Some("v".to_string()));
    assert_eq!(c.get("k", 1299), Some("v".to_string()));
    assert_eq!(c.get("k", 1300), None);
    assert_eq!(c.get("j", 1000), None);
    c.set_ex("k", "w", 10, 1000);
    assert_eq!(c.get("k", 1009), Some("w".to_string()));
    assert_eq!(c.get("k", 1010), None);
    c.del("k");
    assert_eq!(c.get("k", 1000), None);
    c.set_ex("m", "x", 300, i64::MAX - 5);
    assert_eq!(c.get("m", i64::MAX - 1), Some("x".to_string()));
}

#[test]
fn lookup_reads_through_the_cache() {
    let mut users = UserStore::new();
    let mut cache = Cache::new();
    let none = Access { is_admin: false, is_active: false };
    let active = Access { is_admin: false, is_active: true };
    assert_eq!(lookup(&mut cache, &users, "p", 1000), none);
    assert_eq!(cache.get("whitelist:p", 1000), Some("0:0".to_string()));
    users.allow("p");
    assert_eq!(lookup(&mut cache, &users, "p", 1299), none);
    assert_eq!(lookup(&mut cache, &users, "p", 1300), active);
    users.set_status("p", WhitelistStatus::Revoked);
    assert_eq!(lookup(&mut cache, &users, "p", 1301), active);
    invalidate(&mut cache, "p");
    assert_eq!(lookup(&mut cache, &users, "p", 1301), none);
}

#[test]
fn lookup_passes_over_a_cached_text_that_holds_no_answer() {
    let mut users = UserStore::new();
    users.allow("p");
    let mut cache = Cache::new();
    cache.set_ex("whitelist:p", "garbage", 300, 0);
    assert_eq!(lookup(&mut cache, &users, "p", 1), Access { is_admin: false, is_active: true });
    assert_eq!(cache.get("whitelist:p", 1), Some("0:1".to_string()));
}

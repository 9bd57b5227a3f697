use relay_rs::message::RelayMessage;
use relay_rs::reconcile::{neg_frame, Session, SessionTable, FRAME_LIMIT, ID_BYTES, MAX_SESSION_IDS};

fn id(n: u8) -> String {
    format!("{:02x}", n).repeat(32)
}

fn client(ids: &[String]) -> (negentropy::Negentropy<negentropy::NegentropyStorageVector>, String) {
    let mut storage = negentropy::NegentropyStorageVector::new();
    for i in ids {
        storage.insert(0, negentropy::Id::from_hex(i).unwrap()).unwrap();
    }
    storage.seal().unwrap();
    let mut n = negentropy::Negentropy::new(storage, 0).unwrap();
    let first = n.initiate().unwrap().to_hex();
    (n, first)
}

fn diff(n: &mut negentropy::Negentropy<negentropy::NegentropyStorageVector>, answer: &str) -> (Vec<String>, Vec<String>) {
    let mut have = Vec::new();
    let mut need = Vec::new();
    let next = n
        .reconcile_with_ids(&negentropy::Bytes::from_hex(answer).unwrap(), &mut have, &mut need)
        .unwrap();
    assert!(next.is_none());
    let mut have: Vec<String> = have.into_iter().map(|i| i.to_hex()).collect();
    let mut need: Vec<String> = need.into_iter().map(|i| i.to_hex()).collect();
    have.sort();
    need.sort();
    (have, need)
}

#[test]
fn the_limits_of_a_session() {
    assert_eq!(ID_BYTES, 32);
    assert_eq!(FRAME_LIMIT, 100000);
    assert_eq!(MAX_SESSION_IDS, 100000);
}

#[test]
fn a_session_tells_an_empty_client_what_it_needs() {
    let mut s = Session::build(&vec![id(1), id(2)]).unwrap();
    let (mut c, first) = client(&[]);
    let answer = s.step(&first).unwrap();
    assert_eq!(diff(&mut c, &answer), (vec![], vec![id(1), id(2)]));
}

#[test]
fn a_session_finds_the_difference_of_two_sets() {
    let mut s = Session::build(&vec![id(1), id(2), id(3)]).unwrap();
    let (mut c, first) = client(&[id(2), id(9)]);
    let answer = s.step(&first).unwrap();
    assert_eq!(diff(&mut c, &answer), (vec![id(9)], vec![id(1), id(3)]));
}

#[test]
fn a_session_passes_over_what_is_no_id() {
    let mut s = Session::build(&vec![
        id(1),
        "zz".repeat(32),
        "ab".to_string(),
        "abc".to_string(),
        String::new(),
        id(1),
        id(4).to_uppercase(),
        "ab".repeat(33),
    ])
    .unwrap();
    let (mut c, first) = client(&[]);
    let answer = s.step(&first).unwrap();
    assert_eq!(diff(&mut c, &answer), (vec![], vec![id(1), id(4)]));
}

#[test]
fn a_session_answers_again() {
    let mut s = Session::build(&vec![id(1)]).unwrap();
    let (_, first) = client(&[]);
    let a = s.step(&first).unwrap();
    let b = s.step(&first).unwrap();
    assert_eq!(a, b);
    assert_ne!(a, first);
}

#[test]
fn a_session_refuses_what_it_cannot_read() {
    let mut s = Session::build(&vec![id(1)]).unwrap();
    assert_eq!(s.step("xyz"), None);
    assert_eq!(s.step("abc"), None);
    assert_eq!(s.step(""), None);
    assert_eq!(s.step("00"), None);
    assert_eq!(s.step("61000009"), None);
    assert_eq!(s.step("60"), Some("61".to_string()));
    assert_eq!(s.step("61"), Some("61".to_string()));
}

#[test]
fn the_table_keeps_sessions_by_name() {
    let mut t = SessionTable::new();
    assert_eq!(t.len(), 0);
    let (mut c, first) = client(&[]);
    assert_eq!(t.advance("s", &first), None);
    t.begin("s", Session::build(&vec![id(1)]).unwrap());
    t.begin("t", Session::build(&vec![id(2)]).unwrap());
    assert_eq!(t.len(), 2);
    let a = t.advance("s", &first).unwrap();
    assert_eq!(diff(&mut c, &a), (vec![], vec![id(1)]));
    assert_eq!(t.len(), 2);
    t.begin("s", Session::build(&vec![id(3)]).unwrap());
    assert_eq!(t.len(), 2);
    let (mut c2, first2) = client(&[]);
    let b = t.advance("s", &first2).unwrap();
    assert_eq!(diff(&mut c2, &b), (vec![], vec![id(3)]));
    assert_eq!(t.advance("s", "nothex"), None);
    assert!(t.end("s"));
    assert!(!t.end("s"));
    assert_eq!(t.advance("s", &first), None);
    assert_eq!(t.len(), 1);
}

#[test]
fn the_frame_of_an_answer() {
    assert_eq!(
        neg_frame("s", "61".to_string()),
        RelayMessage::NegMsg { sub_id: "s".to_string(), message: "61".to_string() }
    );
}

#[test]
fn a_session_holds_no_more_ids_than_the_cap() {
    let ids: Vec<String> = (0..MAX_SESSION_IDS as u64 + 5).map(|n| format!("{:064x}", n)).collect();
    let mut s = Session::build(&ids).unwrap();
    let (mut c, mut message) = client(&[]);
    let mut have = Vec::new();
    let mut need = Vec::new();
    let mut rounds = 0;
    loop {
        rounds += 1;
        assert!(rounds < 1000);
        let answer = s.step(&message).unwrap();
        let next = c
            .reconcile_with_ids(&negentropy::Bytes::from_hex(&answer).unwrap(), &mut have, &mut need)
            .unwrap();
        match next {
            Some(m) => message = m.to_hex(),
            None => break,
        }
    }
    assert!(have.is_empty());
    assert_eq!(need.len(), MAX_SESSION_IDS);
    let mut got: Vec<String> = need.iter().map(|i| i.to_hex()).collect();
    got.sort();
    assert_eq!(got[0], ids[0]);
    assert_eq!(got[MAX_SESSION_IDS - 1], ids[MAX_SESSION_IDS - 1]);
    assert!(rounds > 1);
}

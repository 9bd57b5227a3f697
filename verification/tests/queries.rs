use relay_rs::filter::Filter;
use relay_rs::query::{lower, render, Selection, SqlParam, Statement, DEFAULT_LIMIT, MAX_LIMIT};

const HEAD: &str = "SELECT \"eventId\", pubkey, kind, content, tags, sig, \"createdAt\" FROM events WHERE (\"expiresAt\" IS NULL OR \"expiresAt\" > NOW())";

fn open() -> Selection {
    Selection { kinds: vec![], authors: vec![], since: None, until: None, limit: 100 }
}

#[test]
fn no_filter_lowers_to_the_open_selection() {
    assert_eq!(lower(&vec![]), open());
    assert_eq!(DEFAULT_LIMIT, 100);
    assert_eq!(MAX_LIMIT, 500);
}

#[test]
fn the_first_filter_is_lowered() {
    let mut f = Filter::new();
    f.ids = vec!["ab".to_string()];
    f.kinds = vec![1, 7];
    f.authors = vec!["f8".to_string()];
    f.since = Some(5);
    f.until = Some(9);
    f.limit = Some(20);
    let mut g = Filter::new();
    g.kinds = vec![3];
    assert_eq!(
        lower(&vec![f, g]),
        Selection { kinds: vec![1, 7], authors: vec!["f8".to_string()], since: Some(5), until: Some(9), limit: 20 }
    );
}

#[test]
fn the_limit_is_capped_at_500_and_defaults_to_100() {
    let with = |l: Option<u64>| {
        let mut f = Filter::new();
        f.limit = l;
        lower(&vec![f]).limit
    };
    assert_eq!(with(None), 100);
    assert_eq!(with(Some(0)), 0);
    assert_eq!(with(Some(1)), 1);
    assert_eq!(with(Some(499)), 499);
    assert_eq!(with(Some(500)), 500);
    assert_eq!(with(Some(501)), 500);
    assert_eq!(with(Some(u64::MAX)), 500);
}

#[test]
fn the_open_selection_binds_only_the_limit() {
    assert_eq!(
        render(&open()),
        Statement {
            sql: format!("{} ORDER BY \"createdAt\" DESC LIMIT $1", HEAD),
            params: vec![SqlParam::Number(100)],
        }
    );
}

#[test]
fn every_value_of_a_selection_is_bound() {
    let full = "ab".repeat(32);
    let s = Selection {
        kinds: vec![1, 30000],
        authors: vec![full.clone(), "f8".to_string(), "x' OR 1=1 --".to_string()],
        since: Some(5),
        until: Some(9),
        limit: 20,
    };
    assert_eq!(
        render(&s),
        Statement {
            sql: format!(
                "{} AND kind IN ($1,$2) AND (pubkey = $3 OR pubkey LIKE $4 OR pubkey LIKE $5) AND EXTRACT(EPOCH FROM \"createdAt\") >= $6 AND EXTRACT(EPOCH FROM \"createdAt\") <= $7 ORDER BY \"createdAt\" DESC LIMIT $8",
                HEAD
            ),
            params: vec![
                SqlParam::Number(1),
                SqlParam::Number(30000),
                SqlParam::Text(full),
                SqlParam::Text("f8%".to_string()),
                SqlParam::Text("x' OR 1=1 --%".to_string()),
                SqlParam::Number(5),
                SqlParam::Number(9),
                SqlParam::Number(20),
            ],
        }
    );
}

#[test]
fn placeholders_count_on_past_nine() {
    let s = Selection { kinds: (1..=11).collect(), authors: vec![], since: None, until: Some(3), limit: 1 };
    let r = render(&s);
    assert_eq!(
        r.sql,
        format!(
            "{} AND kind IN ($1,$2,$3,$4,$5,$6,$7,$8,$9,$10,$11) AND EXTRACT(EPOCH FROM \"createdAt\") <= $12 ORDER BY \"createdAt\" DESC LIMIT $13",
            HEAD
        )
    );
    assert_eq!(r.params.len(), 13);
}

#[test]
fn one_author_stands_alone_in_its_clause() {
    let s = Selection { kinds: vec![], authors: vec!["ab".to_string()], since: Some(1), until: None, limit: 5 };
    assert_eq!(
        render(&s).sql,
        format!("{} AND (pubkey LIKE $1) AND EXTRACT(EPOCH FROM \"createdAt\") >= $2 ORDER BY \"createdAt\" DESC LIMIT $3", HEAD)
    );
}

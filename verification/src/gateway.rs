//! The gateway to the database: the statement for each operation on the
//! event store and the user table.

use crate::event::{copy_tags, Event, EventV};
use crate::ingest::{StoreOp, StoreOpV};
use crate::query::{param_views, SqlParam, SqlParamV, Statement, StatementV};
use crate::store::{Target, TargetV};
use vstd::prelude::*;

verus! {

/// Seconds as the database counts them: the number itself, and the largest
/// the database has where the number is larger.
pub open spec fn seconds(t: u64) -> i64 {
    if t > i64::MAX {
        i64::MAX
    } else {
        t as i64
    }
}

/// The text of the insertion of an event: it does nothing where the event id
/// is taken.
pub open spec fn insert_event_sql() -> Seq<char> {
    "INSERT INTO events (id, \"eventId\", pubkey, kind, content, tags, sig, \"createdAt\", \"receivedAt\", \"expiresAt\") VALUES ($1, $2, $3, $4, $5, $6, $7, $8, $9, $10) ON CONFLICT (\"eventId\") DO NOTHING"@
}

/// The text of the deletion of every version of an addressable event: the
/// rows of the author and kind whose first tag named `d` carries the
/// discriminator, a missing tag or value counting as the empty text.
pub open spec fn delete_addressable_sql() -> Seq<char> {
    "DELETE FROM events WHERE pubkey = $1 AND kind = $2 AND COALESCE((SELECT t->>1 FROM jsonb_array_elements(tags) WITH ORDINALITY AS x(t, n) WHERE t->>0 = 'd' ORDER BY n LIMIT 1), '') = $3"@
}

/// The text of the deletion of one event of an author.
pub open spec fn delete_owned_sql() -> Seq<char> {
    "DELETE FROM events WHERE \"eventId\" = $1 AND pubkey = $2"@
}

/// The text of the deletion of every event of an author.
pub open spec fn delete_author_sql() -> Seq<char> {
    "DELETE FROM events WHERE pubkey = $1"@
}

/// The text that sets a user to vanished.
pub open spec fn mark_vanished_sql() -> Seq<char> {
    "UPDATE users SET \"whitelistStatus\" = 'VANISHED' WHERE pubkey = $1"@
}

/// The text that reads the flag and the status of a user.
pub open spec fn select_user_sql() -> Seq<char> {
    "SELECT \"isAdmin\", \"whitelistStatus\"::text as status FROM users WHERE pubkey = $1"@
}

/// The text that reads the active users.
pub open spec fn select_active_sql() -> Seq<char> {
    "SELECT pubkey, \"whitelistStatus\" FROM users WHERE \"whitelistStatus\" = 'ACTIVE'"@
}

/// The text that makes a user active, with a new row where there is none.
pub open spec fn allow_user_sql() -> Seq<char> {
    "INSERT INTO users (id, npub, pubkey, \"whitelistStatus\") VALUES ($1, $2, $3, 'ACTIVE') ON CONFLICT (pubkey) DO UPDATE SET \"whitelistStatus\" = 'ACTIVE'"@
}

/// The text that revokes a user.
pub open spec fn ban_user_sql() -> Seq<char> {
    "UPDATE users SET \"whitelistStatus\" = 'REVOKED' WHERE pubkey = $1"@
}

/// The text that reads every stored event.
pub open spec fn select_events_sql() -> Seq<char> {
    "SELECT \"eventId\", pubkey, kind, content, tags, sig, \"createdAt\" FROM events"@
}

/// The statement that inserts an event under a row id.
pub open spec fn insert_event_statement(
    row_id: Seq<char>,
    e: EventV,
    expires_at: Option<i64>,
    received_at: i64,
) -> StatementV {
    StatementV {
        sql: insert_event_sql(),
        params: seq![
            SqlParamV::Text(row_id),
            SqlParamV::Text(e.id),
            SqlParamV::Text(e.pubkey),
            SqlParamV::Number(e.kind),
            SqlParamV::Text(e.content),
            SqlParamV::Tags(e.tags),
            SqlParamV::Text(e.sig),
            SqlParamV::Time(seconds(e.created_at)),
            SqlParamV::Time(received_at),
            SqlParamV::MaybeTime(expires_at),
        ],
    }
}

/// The statement that deletes what a target is aimed at.
pub open spec fn delete_statement(t: TargetV) -> StatementV {
    match t {
        TargetV::Addressable { pubkey, kind, d_tag } => StatementV {
            sql: delete_addressable_sql(),
            params: seq![SqlParamV::Text(pubkey), SqlParamV::Number(kind), SqlParamV::Text(d_tag)],
        },
        TargetV::Owned { event_id, pubkey } => StatementV {
            sql: delete_owned_sql(),
            params: seq![SqlParamV::Text(event_id), SqlParamV::Text(pubkey)],
        },
        TargetV::Author { pubkey } => StatementV {
            sql: delete_author_sql(),
            params: seq![SqlParamV::Text(pubkey)],
        },
    }
}

/// The statement with one text bound.
pub open spec fn keyed(sql: Seq<char>, key: Seq<char>) -> StatementV {
    StatementV { sql, params: seq![SqlParamV::Text(key)] }
}

/// The statement for an operation on the database; none for the operation
/// on the cache.
pub open spec fn statement_of(op: StoreOpV, row_id: Seq<char>) -> Option<StatementV> {
    match op {
        StoreOpV::Delete(t) => Some(delete_statement(t)),
        StoreOpV::Insert { event, expires_at, received_at } => Some(
            insert_event_statement(row_id, event, expires_at, received_at),
        ),
        StoreOpV::MarkVanished { pubkey } => Some(keyed(mark_vanished_sql(), pubkey)),
        StoreOpV::Invalidate { .. } => None,
    }
}

/// The statement that makes a user active, with a new row under the row id
/// where there is none.
pub open spec fn allow_user_statement(row_id: Seq<char>, pubkey: Seq<char>) -> StatementV {
    StatementV {
        sql: allow_user_sql(),
        params: seq![SqlParamV::Text(row_id), SqlParamV::Text(pubkey), SqlParamV::Text(pubkey)],
    }
}

/// The statement without values.
pub open spec fn plain(sql: Seq<char>) -> StatementV {
    StatementV { sql, params: Seq::empty() }
}

fn with_key(sql: &str, key: &str) -> (r: Statement)
    ensures
        r@ == keyed(sql@, key@),
{
    let mut params: Vec<SqlParam> = Vec::new();
    params.push(SqlParam::Text(key.to_owned()));
    assert(param_views(params@) =~= seq![SqlParamV::Text(key@)]);
    Statement { sql: String::from_str(sql), params }
}

fn without_values(sql: &str) -> (r: Statement)
    ensures
        r@ == plain(sql@),
{
    let params: Vec<SqlParam> = Vec::new();
    assert(param_views(params@) =~= Seq::<SqlParamV>::empty());
    Statement { sql: String::from_str(sql), params }
}

/// The statement that inserts an event under a row id.
pub fn insert_event(row_id: &str, e: &Event, expires_at: Option<i64>, received_at: i64) -> (r:
    Statement)
    ensures
        r@ == insert_event_statement(row_id@, e@, expires_at, received_at),
{
    let created_at: i64 = if e.created_at > 9223372036854775807 {
        i64::MAX
    } else {
        e.created_at as i64
    };
    let mut params: Vec<SqlParam> = Vec::new();
    params.push(SqlParam::Text(row_id.to_owned()));
    params.push(SqlParam::Text(e.id.clone()));
    params.push(SqlParam::Text(e.pubkey.clone()));
    params.push(SqlParam::Number(e.kind));
    params.push(SqlParam::Text(e.content.clone()));
    params.push(SqlParam::Tags(copy_tags(&e.tags)));
    params.push(SqlParam::Text(e.sig.clone()));
    params.push(SqlParam::Time(created_at));
    params.push(SqlParam::Time(received_at));
    params.push(SqlParam::MaybeTime(expires_at));
    assert(param_views(params@) =~= insert_event_statement(
        row_id@,
        e@,
        expires_at,
        received_at,
    ).params);
    Statement {
        sql: String::from_str(
            "INSERT INTO events (id, \"eventId\", pubkey, kind, content, tags, sig, \"createdAt\", \"receivedAt\", \"expiresAt\") VALUES ($1, $2, $3, $4, $5, $6, $7, $8, $9, $10) ON CONFLICT (\"eventId\") DO NOTHING",
        ),
        params,
    }
}

/// The statement that deletes what a target is aimed at.
pub fn delete_events(t: &Target) -> (r: Statement)
    ensures
        r@ == delete_statement(t@),
{
    match t {
        Target::Addressable { pubkey, kind, d_tag } => {
            let mut params: Vec<SqlParam> = Vec::new();
            params.push(SqlParam::Text(pubkey.clone()));
            params.push(SqlParam::Number(*kind));
            params.push(SqlParam::Text(d_tag.clone()));
            assert(param_views(params@) =~= delete_statement(t@).params);
            Statement {
                sql: String::from_str(
                    "DELETE FROM events WHERE pubkey = $1 AND kind = $2 AND COALESCE((SELECT t->>1 FROM jsonb_array_elements(tags) WITH ORDINALITY AS x(t, n) WHERE t->>0 = 'd' ORDER BY n LIMIT 1), '') = $3",
                ),
                params,
            }
        },
        Target::Owned { event_id, pubkey } => {
            let mut params: Vec<SqlParam> = Vec::new();
            params.push(SqlParam::Text(event_id.clone()));
            params.push(SqlParam::Text(pubkey.clone()));
            assert(param_views(params@) =~= delete_statement(t@).params);
            Statement {
                sql: String::from_str("DELETE FROM events WHERE \"eventId\" = $1 AND pubkey = $2"),
                params,
            }
        },
        Target::Author { pubkey } => with_key(
            "DELETE FROM events WHERE pubkey = $1",
            pubkey.as_str(),
        ),
    }
}

/// The statement for an operation on the database; none for the operation
/// on the cache.
pub fn statement(op: &StoreOp, row_id: &str) -> (r: Option<Statement>)
    ensures
        r.is_some() == statement_of(op@, row_id@).is_some(),
        r matches Some(s) ==> Some(s@) == statement_of(op@, row_id@),
{
    match op {
        StoreOp::Delete(t) => Some(delete_events(t)),
        StoreOp::Insert { event, expires_at, received_at } => Some(
            insert_event(row_id, event, *expires_at, *received_at),
        ),
        StoreOp::MarkVanished { pubkey } => Some(
            with_key(
                "UPDATE users SET \"whitelistStatus\" = 'VANISHED' WHERE pubkey = $1",
                pubkey.as_str(),
            ),
        ),
        StoreOp::Invalidate { .. } => None,
    }
}

/// The statement that reads the flag and the status of a user.
pub fn select_user(pubkey: &str) -> (r: Statement)
    ensures
        r@ == keyed(select_user_sql(), pubkey@),
{
    with_key(
        "SELECT \"isAdmin\", \"whitelistStatus\"::text as status FROM users WHERE pubkey = $1",
        pubkey,
    )
}

/// The statement that reads the active users.
pub fn select_active_users() -> (r: Statement)
    ensures
        r@ == plain(select_active_sql()),
{
    without_values(
        "SELECT pubkey, \"whitelistStatus\" FROM users WHERE \"whitelistStatus\" = 'ACTIVE'",
    )
}

/// The statement that makes a user active, with a new row under the row id
/// where there is none.
pub fn allow_user(row_id: &str, pubkey: &str) -> (r: Statement)
    ensures
        r@ == allow_user_statement(row_id@, pubkey@),
{
    let mut params: Vec<SqlParam> = Vec::new();
    params.push(SqlParam::Text(row_id.to_owned()));
    params.push(SqlParam::Text(pubkey.to_owned()));
    params.push(SqlParam::Text(pubkey.to_owned()));
    assert(param_views(params@) =~= allow_user_statement(row_id@, pubkey@).params);
    Statement {
        sql: String::from_str(
            "INSERT INTO users (id, npub, pubkey, \"whitelistStatus\") VALUES ($1, $2, $3, 'ACTIVE') ON CONFLICT (pubkey) DO UPDATE SET \"whitelistStatus\" = 'ACTIVE'",
        ),
        params,
    }
}

/// The statement that revokes a user.
pub fn ban_user(pubkey: &str) -> (r: Statement)
    ensures
        r@ == keyed(ban_user_sql(), pubkey@),
{
    with_key("UPDATE users SET \"whitelistStatus\" = 'REVOKED' WHERE pubkey = $1", pubkey)
}

/// The statement that reads every stored event.
pub fn select_events() -> (r: Statement)
    ensures
        r@ == plain(select_events_sql()),
{
    without_values(
        "SELECT \"eventId\", pubkey, kind, content, tags, sig, \"createdAt\" FROM events",
    )
}

} // verus!

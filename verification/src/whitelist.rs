//! The whitelist: who may publish, and how the answer is cached.

use crate::text::{chars_of, joined};
use vstd::prelude::*;

verus! {

/// The seconds for which a cached answer is served.
pub const CACHE_TTL: i64 = 300;

/// Where a user stands with the relay.
#[derive(Debug, Clone, Copy, PartialEq, Eq, Structural)]
pub enum WhitelistStatus {
    Active,
    Revoked,
    Vanished,
}

/// What the relay needs to know of an author before it takes an event.
#[derive(Debug, Clone, Copy, PartialEq, Eq, Structural)]
pub struct Access {
    pub is_admin: bool,
    pub is_active: bool,
}

/// A row of the user table.
#[derive(Debug, PartialEq, Eq)]
pub struct User {
    pub pubkey: String,
    pub is_admin: bool,
    pub status: WhitelistStatus,
}

/// The mathematical value of a [`User`].
pub struct UserV {
    pub pubkey: Seq<char>,
    pub is_admin: bool,
    pub status: WhitelistStatus,
}

impl View for User {
    type V = UserV;

    open spec fn view(&self) -> UserV {
        UserV { pubkey: self.pubkey@, is_admin: self.is_admin, status: self.status }
    }
}

/// The values of a list of users.
pub open spec fn user_views(users: Seq<User>) -> Seq<UserV> {
    Seq::new(users.len(), |i: int| users[i]@)
}

/// Whether an author may publish: administrators and active users may.
pub open spec fn permitted(a: Access) -> bool {
    a.is_admin || a.is_active
}

/// What a row of the user table, or its absence, says of an author.
pub open spec fn access_of(row: Option<UserV>) -> Access {
    match row {
        Some(u) => Access { is_admin: u.is_admin, is_active: u.status == WhitelistStatus::Active },
        None => Access { is_admin: false, is_active: false },
    }
}

/// The text under which an answer is cached: `1` or `0` for the
/// administrator flag, a colon, `1` or `0` for the active flag.
pub open spec fn encoded(a: Access) -> Seq<char> {
    seq![
        if a.is_admin {
            '1'
        } else {
            '0'
        },
        ':',
        if a.is_active {
            '1'
        } else {
            '0'
        },
    ]
}

/// Whether the one colon of a text stands at `i`.
pub open spec fn only_colon_at(s: Seq<char>, i: int) -> bool {
    &&& 0 <= i < s.len()
    &&& s[i] == ':'
    &&& forall|j: int| 0 <= j < s.len() && j != i ==> s[j] != ':'
}

/// The answer that a cached text holds: a text with exactly one colon holds
/// one, and each flag is set where its side of the colon is `1`. Any other
/// text holds none.
pub open spec fn decoded(s: Seq<char>) -> Option<Access> {
    if exists|i: int| only_colon_at(s, i) {
        let i = choose|i: int| only_colon_at(s, i);
        Some(Access { is_admin: s.take(i) == seq!['1'], is_active: s.skip(i + 1) == seq!['1'] })
    } else {
        None
    }
}

/// The key under which the answer for an author is cached.
pub open spec fn cache_key_of(pubkey: Seq<char>) -> Seq<char> {
    "whitelist:"@ + pubkey
}

/// The cached text of an answer holds that answer.
pub proof fn lemma_decode_encode(a: Access)
    ensures
        decoded(encoded(a)) == Some(a),
{
    let s = encoded(a);
    assert(only_colon_at(s, 1));
    let i = choose|i: int| only_colon_at(s, i);
    assert(i == 1) by {
        if i != 1 {
            assert(s[1] != ':');
        }
    }
    assert(s.take(1) =~= seq![s[0]]);
    assert(s.skip(2) =~= seq![s[2]]);
    assert(seq!['0'][0] != seq!['1'][0]);
}

/// Whether an author may publish.
pub fn is_permitted(a: Access) -> (r: bool)
    ensures
        r == permitted(a),
{
    a.is_admin || a.is_active
}

/// The key under which the answer for an author is cached.
pub fn cache_key(pubkey: &str) -> (r: String)
    ensures
        r@ == cache_key_of(pubkey@),
{
    joined("whitelist:", pubkey)
}

/// Writes an answer as the text to cache.
pub fn encode(a: Access) -> (r: String)
    ensures
        r@ == encoded(a),
{
    proof {
        reveal_strlit("1:1");
        reveal_strlit("1:0");
        reveal_strlit("0:1");
        reveal_strlit("0:0");
    }
    let r = if a.is_admin {
        if a.is_active {
            "1:1"
        } else {
            "1:0"
        }
    } else if a.is_active {
        "0:1"
    } else {
        "0:0"
    };
    assert(r@ =~= encoded(a));
    String::from_str(r)
}

/// Reads an answer from a cached text; `None` where the text holds none.
pub fn decode(text: &str) -> (r: Option<Access>)
    ensures
        r == decoded(text@),
{
    let s = chars_of(text);
    let mut at: usize = 0;
    while at < s.len() && s[at] != ':'
        invariant
            at <= s.len(),
            forall|j: int| 0 <= j < at ==> s@[j] != ':',
        decreases s.len() - at,
    {
        at += 1;
    }
    if at == s.len() {
        assert forall|i: int| !only_colon_at(s@, i) by {}
        return None;
    }
    let mut k: usize = at + 1;
    while k < s.len()
        invariant
            at < k <= s.len(),
            s@[at as int] == ':',
            forall|j: int| 0 <= j < at ==> s@[j] != ':',
            forall|j: int| at < j < k ==> s@[j] != ':',
            s@ == text@,
        decreases s.len() - k,
    {
        if s[k] == ':' {
            assert forall|i: int| !only_colon_at(s@, i) by {
                if only_colon_at(s@, i) {
                    if i == at {
                        assert(s@[k as int] != ':');
                    } else {
                        assert(s@[at as int] != ':');
                    }
                }
            }
            return None;
        }
        k += 1;
    }
    proof {
        assert(only_colon_at(s@, at as int));
        let i = choose|i: int| only_colon_at(s@, i);
        assert(i == at) by {
            if i != at {
                assert(s@[at as int] != ':');
            }
        }
        assert(s@.take(at as int) == seq!['1'] <==> (at == 1 && s@[0] == '1')) by {
            if at == 1 && s@[0] == '1' {
                assert(s@.take(1) =~= seq!['1']);
            }
            if s@.take(at as int) == seq!['1'] {
                assert(s@.take(at as int).len() == 1);
                assert(s@.take(at as int)[0] == '1');
            }
        }
        assert(s@.skip(at + 1) == seq!['1'] <==> (s.len() == at + 2 && s@[at + 1] == '1')) by {
            if s.len() == at + 2 && s@[at + 1] == '1' {
                assert(s@.skip(at + 1) =~= seq!['1']);
            }
            if s@.skip(at + 1) == seq!['1'] {
                assert(s@.skip(at + 1).len() == 1);
                assert(s@.skip(at + 1)[0] == '1');
            }
        }
    }
    Some(
        Access {
            is_admin: at == 1 && s[0] == '1',
            is_active: s.len() - at == 2 && s[at + 1] == '1',
        },
    )
}

/// What a row of the user table, or its absence, says of an author.
pub fn access_from_row(row: Option<&User>) -> (r: Access)
    ensures
        r == access_of(
            match row {
                Some(u) => Some(u@),
                None => None,
            },
        ),
{
    match row {
        Some(u) => Access {
            is_admin: u.is_admin,
            is_active: match u.status {
                WhitelistStatus::Active => true,
                _ => false,
            },
        },
        None => Access { is_admin: false, is_active: false },
    }
}

/// What the columns of a row of the user table say of its user: the flag,
/// and whether the status reads `ACTIVE`.
pub open spec fn access_of_columns(is_admin: bool, status: Option<Seq<char>>) -> Access {
    Access { is_admin, is_active: status == Some("ACTIVE"@) }
}

/// The status that a text of the user table names.
pub open spec fn status_of(text: Seq<char>) -> Option<WhitelistStatus> {
    if text == "ACTIVE"@ {
        Some(WhitelistStatus::Active)
    } else if text == "REVOKED"@ {
        Some(WhitelistStatus::Revoked)
    } else if text == "VANISHED"@ {
        Some(WhitelistStatus::Vanished)
    } else {
        None
    }
}

/// What the columns of a row of the user table say of its user.
pub fn access_from_columns(is_admin: bool, status: Option<&str>) -> (r: Access)
    ensures
        r == access_of_columns(
            is_admin,
            match status {
                Some(s) => Some(s@),
                None => None,
            },
        ),
{
    let is_active = match status {
        Some(s) => crate::text::str_eq(s, "ACTIVE"),
        None => false,
    };
    Access { is_admin, is_active }
}

/// The status that a text of the user table names.
pub fn status_from_text(text: &str) -> (r: Option<WhitelistStatus>)
    ensures
        r == status_of(text@),
{
    if crate::text::str_eq(text, "ACTIVE") {
        Some(WhitelistStatus::Active)
    } else if crate::text::str_eq(text, "REVOKED") {
        Some(WhitelistStatus::Revoked)
    } else if crate::text::str_eq(text, "VANISHED") {
        Some(WhitelistStatus::Vanished)
    } else {
        None
    }
}

/// The answer for an author, from the cache where it holds one, else from
/// the user table.
pub open spec fn resolved(cached: Option<Seq<char>>, row: Option<UserV>) -> Access {
    match cached {
        Some(text) => match decoded(text) {
            Some(a) => a,
            None => access_of(row),
        },
        None => access_of(row),
    }
}

/// Whether a cached text answers the question, so that the user table need
/// not be read.
pub fn cache_hit(cached: Option<&str>) -> (r: Option<Access>)
    ensures
        r == match cached {
            Some(text) => decoded(text@),
            None => None,
        },
{
    match cached {
        Some(text) => decode(text),
        None => None,
    }
}

} // verus!

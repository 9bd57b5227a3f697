//! The user table in memory.

use crate::text::str_eq;
use crate::whitelist::{user_views, User, UserV, WhitelistStatus};
use vstd::prelude::*;

verus! {

/// The row of an author: the first one of that key.
pub open spec fn found(users: Seq<UserV>, pubkey: Seq<char>) -> Option<UserV>
    decreases users.len(),
{
    if users.len() == 0 {
        None
    } else if users[0].pubkey == pubkey {
        Some(users[0])
    } else {
        found(users.skip(1), pubkey)
    }
}

/// The table with the status of an author set; the rows of others unchanged.
pub open spec fn with_status(
    users: Seq<UserV>,
    pubkey: Seq<char>,
    status: WhitelistStatus,
) -> Seq<UserV> {
    Seq::new(
        users.len(),
        |i: int|
            if users[i].pubkey == pubkey {
                UserV { pubkey: users[i].pubkey, is_admin: users[i].is_admin, status }
            } else {
                users[i]
            },
    )
}

/// The table after an author is allowed: the row is set to active, and made,
/// without the administrator flag, where there is none.
pub open spec fn allowed(users: Seq<UserV>, pubkey: Seq<char>) -> Seq<UserV> {
    if found(users, pubkey).is_some() {
        with_status(users, pubkey, WhitelistStatus::Active)
    } else {
        users.push(UserV { pubkey, is_admin: false, status: WhitelistStatus::Active })
    }
}

/// The keys of the active users, in the order of their rows.
pub open spec fn active_keys(users: Seq<UserV>) -> Seq<Seq<char>>
    decreases users.len(),
{
    if users.len() == 0 {
        Seq::empty()
    } else if users.last().status == WhitelistStatus::Active {
        active_keys(users.drop_last()).push(users.last().pubkey)
    } else {
        active_keys(users.drop_last())
    }
}

/// No two rows hold the same key.
pub open spec fn unique_keys(users: Seq<UserV>) -> bool {
    forall|i: int, j: int|
        0 <= i < j < users.len() ==> (#[trigger] users[i]).pubkey != (#[trigger] users[j]).pubkey
}

/// An author has a row exactly where some row holds the key, and the row
/// found holds the key.
pub proof fn lemma_found(users: Seq<UserV>, pubkey: Seq<char>)
    ensures
        found(users, pubkey).is_some() <==> exists|i: int|
            0 <= i < users.len() && (#[trigger] users[i]).pubkey == pubkey,
        found(users, pubkey) matches Some(u) ==> u.pubkey == pubkey && users.contains(u),
    decreases users.len(),
{
    if users.len() > 0 {
        let rest = users.skip(1);
        lemma_found(rest, pubkey);
        if users[0].pubkey != pubkey {
            if exists|i: int| 0 <= i < users.len() && (#[trigger] users[i]).pubkey == pubkey {
                let i = choose|i: int|
                    0 <= i < users.len() && (#[trigger] users[i]).pubkey == pubkey;
                assert(rest[i - 1] == users[i]);
            }
            if found(rest, pubkey).is_some() {
                let i = choose|i: int| 0 <= i < rest.len() && (#[trigger] rest[i]).pubkey == pubkey;
                assert(users[i + 1] == rest[i]);
                let u = found(rest, pubkey).unwrap();
                let k = choose|k: int| 0 <= k < rest.len() && rest[k] == u;
                assert(users[k + 1] == u);
            }
        } else {
            assert(users.contains(users[0]));
        }
    }
}

/// Once set, the status of an author is what the table says of them, if
/// they have a row.
pub proof fn lemma_with_status(users: Seq<UserV>, pubkey: Seq<char>, status: WhitelistStatus)
    ensures
        found(with_status(users, pubkey, status), pubkey).is_some() == found(
            users,
            pubkey,
        ).is_some(),
        found(with_status(users, pubkey, status), pubkey) matches Some(u) ==> u.status == status
            && u.is_admin == found(users, pubkey).unwrap().is_admin,
        unique_keys(users) ==> unique_keys(with_status(users, pubkey, status)),
    decreases users.len(),
{
    let out = with_status(users, pubkey, status);
    if users.len() > 0 {
        lemma_with_status(users.skip(1), pubkey, status);
        assert(out.skip(1) =~= with_status(users.skip(1), pubkey, status));
    }
}

/// The user table of the relay, held in memory. No two rows of a
/// well-formed table hold the same key.
pub struct UserStore {
    users: Vec<User>,
}

impl View for UserStore {
    type V = Seq<UserV>;

    closed spec fn view(&self) -> Seq<UserV> {
        user_views(self.users@)
    }
}

impl UserStore {
    /// No two rows hold the same key.
    pub open spec fn wf(&self) -> bool {
        unique_keys(self@)
    }

    /// The empty table.
    pub fn new() -> (r: UserStore)
        ensures
            r@ == Seq::<UserV>::empty(),
            r.wf(),
    {
        let r = UserStore { users: Vec::new() };
        assert(r@ =~= Seq::<UserV>::empty());
        r
    }

    fn position(&self, pubkey: &str) -> (r: Option<usize>)
        ensures
            r.is_some() == found(self@, pubkey@).is_some(),
            r matches Some(i) ==> i < self.users.len() && Some(self.users@[i as int]@) == found(
                self@,
                pubkey@,
            ),
    {
        let ghost all = self@;
        let mut i: usize = 0;
        assert(all.skip(0) =~= all);
        while i < self.users.len()
            invariant
                i <= self.users.len(),
                all == self@,
                found(all, pubkey@) == found(all.skip(i as int), pubkey@),
            decreases self.users.len() - i,
        {
            let ghost rest = all.skip(i as int);
            assert(rest[0] == self.users@[i as int]@);
            assert(rest.skip(1) =~= all.skip(i + 1));
            if str_eq(self.users[i].pubkey.as_str(), pubkey) {
                return Some(i);
            }
            i += 1;
        }
        None
    }

    /// The row of an author, if they have one.
    pub fn find(&self, pubkey: &str) -> (r: Option<&User>)
        ensures
            r.is_some() == found(self@, pubkey@).is_some(),
            r matches Some(u) ==> Some(u@) == found(self@, pubkey@),
    {
        match self.position(pubkey) {
            Some(i) => Some(&self.users[i]),
            None => None,
        }
    }

    /// Sets the status of an author, if they have a row.
    pub fn set_status(&mut self, pubkey: &str, status: WhitelistStatus)
        ensures
            final(self)@ == with_status(old(self)@, pubkey@, status),
            old(self).wf() ==> final(self).wf(),
    {
        proof {
            lemma_with_status(self@, pubkey@, status);
        }
        let ghost all = self@;
        let mut i: usize = 0;
        while i < self.users.len()
            invariant
                i <= self.users.len(),
                self.users.len() == all.len(),
                forall|k: int| 0 <= k < i ==> self@[k] == with_status(all, pubkey@, status)[k],
                forall|k: int| i <= k < all.len() ==> self@[k] == all[k],
            decreases self.users.len() - i,
        {
            let ghost view_before = self@;
            let ghost target = with_status(all, pubkey@, status);
            assert(view_before[i as int] == self.users@[i as int]@);
            assert(view_before[i as int] == all[i as int]);
            if str_eq(self.users[i].pubkey.as_str(), pubkey) {
                let ghost before = self.users@;
                let u = User {
                    pubkey: self.users[i].pubkey.clone(),
                    is_admin: self.users[i].is_admin,
                    status,
                };
                self.users.set(i, u);
                assert(self@[i as int] == u@);
                assert(u@ == target[i as int]);
                assert forall|k: int| 0 <= k < all.len() && k != i implies self@[k]
                    == view_before[k] by {
                    assert(self.users@[k] == before[k]);
                    assert(view_before[k] == before[k]@);
                }
            } else {
                assert(target[i as int] == all[i as int]);
            }
            assert forall|k: int| 0 <= k < i + 1 implies self@[k] == target[k] by {
                if k < i {
                    assert(view_before[k] == target[k]);
                    assert(self@[k] == view_before[k]);
                }
            }
            assert forall|k: int| i + 1 <= k < all.len() implies self@[k] == all[k] by {
                assert(view_before[k] == all[k]);
                assert(self@[k] == view_before[k]);
            }
            i += 1;
        }
        assert(self@ =~= with_status(all, pubkey@, status));
    }

    /// Allows an author: their row is set to active, and made where there is
    /// none.
    pub fn allow(&mut self, pubkey: &str)
        ensures
            final(self)@ == allowed(old(self)@, pubkey@),
            old(self).wf() ==> final(self).wf(),
    {
        if self.position(pubkey).is_some() {
            self.set_status(pubkey, WhitelistStatus::Active);
        } else {
            let ghost before = self@;
            proof {
                lemma_found(before, pubkey@);
            }
            let u = User {
                pubkey: pubkey.to_owned(),
                is_admin: false,
                status: WhitelistStatus::Active,
            };
            self.users.push(u);
            assert(self@ =~= before.push(u@));
            assert(unique_keys(before) ==> unique_keys(self@)) by {
                if unique_keys(before) {
                    assert forall|i: int, j: int| 0 <= i < j < self@.len() implies (
                    #[trigger] self@[i]).pubkey != (#[trigger] self@[j]).pubkey by {
                        if j == before.len() {
                            assert(before[i] == self@[i]);
                        } else {
                            assert(before[i] == self@[i] && before[j] == self@[j]);
                        }
                    }
                }
            }
        }
    }

    /// Adds a row as it is given, unless the key has one.
    pub fn add(&mut self, user: User) -> (r: bool)
        ensures
            r == found(old(self)@, user@.pubkey).is_none(),
            r ==> final(self)@ == old(self)@.push(user@),
            !r ==> final(self)@ == old(self)@,
            old(self).wf() ==> final(self).wf(),
    {
        if self.position(user.pubkey.as_str()).is_some() {
            return false;
        }
        let ghost before = self@;
        proof {
            lemma_found(before, user@.pubkey);
        }
        self.users.push(user);
        assert(self@ =~= before.push(user@));
        assert(unique_keys(before) ==> unique_keys(self@)) by {
            if unique_keys(before) {
                assert forall|i: int, j: int| 0 <= i < j < self@.len() implies (
                #[trigger] self@[i]).pubkey != (#[trigger] self@[j]).pubkey by {
                    if j == before.len() {
                        assert(before[i] == self@[i]);
                    } else {
                        assert(before[i] == self@[i] && before[j] == self@[j]);
                    }
                }
            }
        }
        true
    }

    /// The keys of the active users, in the order of their rows.
    pub fn list_active(&self) -> (r: Vec<String>)
        ensures
            r.deep_view() == active_keys(self@),
    {
        let ghost all = self@;
        let mut r: Vec<String> = Vec::new();
        let mut i: usize = 0;
        assert(all.take(0) =~= Seq::empty());
        assert(r.deep_view() =~= Seq::empty());
        while i < self.users.len()
            invariant
                i <= self.users.len(),
                all == self@,
                r.deep_view() == active_keys(all.take(i as int)),
            decreases self.users.len() - i,
        {
            let ghost before = r.deep_view();
            let ghost upto = all.take(i + 1);
            assert(upto.drop_last() =~= all.take(i as int));
            assert(upto.last() == self.users@[i as int]@);
            match self.users[i].status {
                WhitelistStatus::Active => {
                    r.push(self.users[i].pubkey.clone());
                    assert(r.deep_view() =~= before.push(self.users@[i as int]@.pubkey));
                },
                _ => {
                    assert(r.deep_view() =~= before);
                },
            }
            i += 1;
        }
        assert(all.take(i as int) =~= all);
        r
    }
}

} // verus!

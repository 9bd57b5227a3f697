//! The cache in memory, and the whitelist read through it.

use crate::text::str_eq;
use crate::users::{found, UserStore};
use crate::whitelist::{
    access_from_row, access_of, cache_key, cache_key_of, decode, decoded, encode, encoded,
    resolved, Access, CACHE_TTL,
};
use vstd::prelude::*;

verus! {

/// A text kept under a key until a time.
#[derive(Debug, PartialEq, Eq)]
pub struct CacheEntry {
    pub key: String,
    pub value: String,
    pub expires_at: i64,
}

/// The mathematical value of a [`CacheEntry`].
pub struct CacheEntryV {
    pub key: Seq<char>,
    pub value: Seq<char>,
    pub expires_at: i64,
}

impl View for CacheEntry {
    type V = CacheEntryV;

    open spec fn view(&self) -> CacheEntryV {
        CacheEntryV { key: self.key@, value: self.value@, expires_at: self.expires_at }
    }
}

/// The values of a list of entries.
pub open spec fn entry_views(entries: Seq<CacheEntry>) -> Seq<CacheEntryV> {
    Seq::new(entries.len(), |i: int| entries[i]@)
}

/// The entries without those of a key.
pub open spec fn dropped(entries: Seq<CacheEntryV>, key: Seq<char>) -> Seq<CacheEntryV>
    decreases entries.len(),
{
    if entries.len() == 0 {
        Seq::empty()
    } else if entries.last().key == key {
        dropped(entries.drop_last(), key)
    } else {
        dropped(entries.drop_last(), key).push(entries.last())
    }
}

/// The entries after a text is kept under a key: it takes the place of what
/// the key held.
pub open spec fn kept(
    entries: Seq<CacheEntryV>,
    key: Seq<char>,
    value: Seq<char>,
    expires_at: i64,
) -> Seq<CacheEntryV> {
    dropped(entries, key).push(CacheEntryV { key, value, expires_at })
}

/// The text that a key holds at time `now`: that of its first entry, while
/// that entry has not run out.
pub open spec fn held(entries: Seq<CacheEntryV>, key: Seq<char>, now: i64) -> Option<Seq<char>>
    decreases entries.len(),
{
    if entries.len() == 0 {
        None
    } else if entries[0].key == key {
        if now < entries[0].expires_at {
            Some(entries[0].value)
        } else {
            None
        }
    } else {
        held(entries.skip(1), key, now)
    }
}

/// The time at which what is kept at `now` for `ttl` seconds runs out; the
/// last time there is, where the sum would pass it.
pub open spec fn deadline(now: i64, ttl: i64) -> i64 {
    if now + ttl > i64::MAX {
        i64::MAX
    } else if now + ttl < i64::MIN {
        i64::MIN
    } else {
        (now + ttl) as i64
    }
}

/// A key whose entries were dropped holds nothing.
pub proof fn lemma_dropped_holds_nothing(entries: Seq<CacheEntryV>, key: Seq<char>, now: i64)
    ensures
        held(dropped(entries, key), key, now).is_none(),
        forall|i: int|
            0 <= i < dropped(entries, key).len() ==> (#[trigger] dropped(entries, key)[i]).key
                != key,
    decreases entries.len(),
{
    if entries.len() > 0 {
        lemma_dropped_holds_nothing(entries.drop_last(), key, now);
        lemma_held_absent(dropped(entries, key), key, now);
    }
}

/// A key that no entry names holds nothing.
pub proof fn lemma_held_absent(entries: Seq<CacheEntryV>, key: Seq<char>, now: i64)
    requires
        forall|i: int| 0 <= i < entries.len() ==> (#[trigger] entries[i]).key != key,
    ensures
        held(entries, key, now).is_none(),
    decreases entries.len(),
{
    if entries.len() > 0 {
        let rest = entries.skip(1);
        assert forall|i: int| 0 <= i < rest.len() implies (#[trigger] rest[i]).key != key by {
            assert(rest[i] == entries[i + 1]);
        }
        lemma_held_absent(rest, key, now);
        assert(entries[0].key != key);
    }
}

/// What was just kept under a key is what the key holds until it runs out.
pub proof fn lemma_kept_is_held(
    entries: Seq<CacheEntryV>,
    key: Seq<char>,
    value: Seq<char>,
    expires_at: i64,
    now: i64,
)
    ensures
        held(kept(entries, key, value, expires_at), key, now) == if now < expires_at {
            Some(value)
        } else {
            None
        },
{
    let base = dropped(entries, key);
    lemma_dropped_holds_nothing(entries, key, now);
    lemma_held_pushed(base, CacheEntryV { key, value, expires_at }, now);
}

proof fn lemma_held_pushed(base: Seq<CacheEntryV>, e: CacheEntryV, now: i64)
    requires
        forall|i: int| 0 <= i < base.len() ==> (#[trigger] base[i]).key != e.key,
    ensures
        held(base.push(e), e.key, now) == if now < e.expires_at {
            Some(e.value)
        } else {
            None
        },
    decreases base.len(),
{
    let all = base.push(e);
    if base.len() > 0 {
        let rest = base.skip(1);
        assert forall|i: int| 0 <= i < rest.len() implies (#[trigger] rest[i]).key != e.key by {
            assert(rest[i] == base[i + 1]);
        }
        lemma_held_pushed(rest, e, now);
        assert(all.skip(1) =~= rest.push(e));
        assert(all[0] == base[0]);
    } else {
        assert(all[0] == e);
    }
}

/// The ephemeral cache of the relay, held in memory: texts under keys, each
/// until its time runs out.
pub struct Cache {
    entries: Vec<CacheEntry>,
}

impl View for Cache {
    type V = Seq<CacheEntryV>;

    closed spec fn view(&self) -> Seq<CacheEntryV> {
        entry_views(self.entries@)
    }
}

impl Cache {
    /// The empty cache.
    pub fn new() -> (r: Cache)
        ensures
            r@ == Seq::<CacheEntryV>::empty(),
    {
        let r = Cache { entries: Vec::new() };
        assert(r@ =~= Seq::<CacheEntryV>::empty());
        r
    }

    /// The text that a key holds at time `now`.
    pub fn get(&self, key: &str, now: i64) -> (r: Option<String>)
        ensures
            r.is_some() == held(self@, key@, now).is_some(),
            r matches Some(v) ==> Some(v@) == held(self@, key@, now),
    {
        let ghost all = self@;
        let mut i: usize = 0;
        assert(all.skip(0) =~= all);
        while i < self.entries.len()
            invariant
                i <= self.entries.len(),
                all == self@,
                held(all, key@, now) == held(all.skip(i as int), key@, now),
            decreases self.entries.len() - i,
        {
            let ghost rest = all.skip(i as int);
            assert(rest[0] == self.entries@[i as int]@);
            assert(rest.skip(1) =~= all.skip(i + 1));
            if str_eq(self.entries[i].key.as_str(), key) {
                if now < self.entries[i].expires_at {
                    return Some(self.entries[i].value.clone());
                } else {
                    return None;
                }
            }
            i += 1;
        }
        None
    }

    /// Drops what a key holds.
    pub fn del(&mut self, key: &str)
        ensures
            final(self)@ == dropped(old(self)@, key@),
    {
        let ghost all = self@;
        let ghost mut seen: int = 0;
        let mut i: usize = 0;
        assert(all.take(0) =~= Seq::empty());
        assert(self@ =~= dropped(all.take(0), key@) + all.skip(0));
        while i < self.entries.len()
            invariant
                0 <= seen <= all.len(),
                i == dropped(all.take(seen), key@).len(),
                self@ == dropped(all.take(seen), key@) + all.skip(seen),
                i <= self.entries.len(),
            decreases all.len() - seen,
        {
            let ghost so_far = dropped(all.take(seen), key@);
            let ghost upto = all.take(seen + 1);
            assert(self@[i as int] == all.skip(seen)[0]);
            assert(seen < all.len());
            assert(upto.drop_last() =~= all.take(seen));
            assert(upto.last() == all[seen]);
            assert(self@[i as int] == self.entries@[i as int]@);
            if str_eq(self.entries[i].key.as_str(), key) {
                let ghost before = self.entries@;
                self.entries.remove(i);
                assert(self@ =~= so_far + all.skip(seen + 1)) by {
                    let was = entry_views(before);
                    let now_is = so_far + all.skip(seen + 1);
                    assert(was == so_far + all.skip(seen));
                    assert(self.entries@ == before.remove(i as int));
                    assert(self@.len() == was.len() - 1);
                    assert(now_is.len() == was.len() - 1);
                    assert forall|k: int| 0 <= k < self@.len() implies self@[k] == now_is[k] by {
                        if k < i {
                            assert(self.entries@[k] == before[k]);
                            assert(was[k] == before[k]@);
                            assert(was[k] == so_far[k]);
                        } else {
                            assert(self.entries@[k] == before[k + 1]);
                            assert(was[k + 1] == before[k + 1]@);
                            assert(was[k + 1] == all.skip(seen)[k + 1 - i]);
                            assert(now_is[k] == all.skip(seen + 1)[k - i]);
                        }
                    }
                }
            } else {
                assert(self@ =~= so_far.push(all[seen]) + all.skip(seen + 1));
                i += 1;
            }
            proof {
                seen = seen + 1;
            }
        }
        proof {
            assert(self@.len() == i + (all.len() - seen));
            assert(all.take(seen) =~= all);
            assert(self@ =~= dropped(all, key@));
        }
    }

    /// Keeps a text under a key until `ttl` seconds after `now`.
    pub fn set_ex(&mut self, key: &str, value: &str, ttl: i64, now: i64)
        ensures
            final(self)@ == kept(old(self)@, key@, value@, deadline(now, ttl)),
    {
        self.del(key);
        let expires_at = if ttl >= 0 {
            if now > i64::MAX - ttl {
                i64::MAX
            } else {
                now + ttl
            }
        } else if now < i64::MIN - ttl {
            i64::MIN
        } else {
            now + ttl
        };
        let ghost before = self@;
        let e = CacheEntry { key: key.to_owned(), value: value.to_owned(), expires_at };
        self.entries.push(e);
        assert(self@ =~= before.push(e@));
    }
}

/// The cache after the answer for an author was asked at `now`: as it was
/// where it held an answer, and with the answer from the user table kept for
/// the time to live where it held none.
pub open spec fn refreshed(
    cache: Seq<CacheEntryV>,
    users: Seq<crate::whitelist::UserV>,
    pubkey: Seq<char>,
    now: i64,
) -> Seq<CacheEntryV> {
    let key = cache_key_of(pubkey);
    match held(cache, key, now) {
        Some(text) if decoded(text).is_some() => cache,
        _ => kept(cache, key, encoded(access_of(found(users, pubkey))), deadline(now, CACHE_TTL)),
    }
}

/// The answer for an author at `now`, read through the cache.
pub open spec fn looked_up(
    cache: Seq<CacheEntryV>,
    users: Seq<crate::whitelist::UserV>,
    pubkey: Seq<char>,
    now: i64,
) -> Access {
    resolved(held(cache, cache_key_of(pubkey), now), found(users, pubkey))
}

/// Answers for an author through the cache: what the cache holds is served;
/// else the user table is read and the answer kept for the time to live.
pub fn lookup(cache: &mut Cache, users: &UserStore, pubkey: &str, now: i64) -> (r: Access)
    ensures
        r == looked_up(old(cache)@, users@, pubkey@, now),
        final(cache)@ == refreshed(old(cache)@, users@, pubkey@, now),
{
    let key = cache_key(pubkey);
    let cached = cache.get(key.as_str(), now);
    if let Some(text) = &cached {
        if let Some(a) = decode(text.as_str()) {
            return a;
        }
    }
    let a = access_from_row(users.find(pubkey));
    let text = encode(a);
    cache.set_ex(key.as_str(), text.as_str(), CACHE_TTL, now);
    a
}

/// Drops the cached answer for an author.
pub fn invalidate(cache: &mut Cache, pubkey: &str)
    ensures
        final(cache)@ == dropped(old(cache)@, cache_key_of(pubkey@)),
{
    let key = cache_key(pubkey);
    cache.del(key.as_str());
}

/// After an invalidation the next answer comes from the user table.
pub proof fn lemma_invalidated_reads_table(
    cache: Seq<CacheEntryV>,
    users: Seq<crate::whitelist::UserV>,
    pubkey: Seq<char>,
    now: i64,
)
    ensures
        looked_up(dropped(cache, cache_key_of(pubkey)), users, pubkey, now) == access_of(
            found(users, pubkey),
        ),
{
    lemma_dropped_holds_nothing(cache, cache_key_of(pubkey), now);
}

/// An answer read from the user table is served again, whatever the table
/// says by then, until its time to live has run out.
pub proof fn lemma_answer_is_memoized(
    cache: Seq<CacheEntryV>,
    users: Seq<crate::whitelist::UserV>,
    later_users: Seq<crate::whitelist::UserV>,
    pubkey: Seq<char>,
    now: i64,
    later: i64,
)
    requires
        held(cache, cache_key_of(pubkey), now).is_none(),
        later < deadline(now, CACHE_TTL),
    ensures
        looked_up(refreshed(cache, users, pubkey, now), later_users, pubkey, later) == access_of(
            found(users, pubkey),
        ),
{
    let key = cache_key_of(pubkey);
    let a = access_of(found(users, pubkey));
    crate::whitelist::lemma_decode_encode(a);
    lemma_kept_is_held(cache, key, encoded(a), deadline(now, CACHE_TTL), later);
}

} // verus!

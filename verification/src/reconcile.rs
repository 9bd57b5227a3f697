//! Reconciliation sessions over the ids of the stored events.

use crate::event::{Event, EventV};
use crate::filter::{filter_matches, Filter, FilterV};
use crate::message::{RelayMessage, RelayMessageV};
use crate::store::event_views;
use crate::strict::text_option;
use crate::text::str_eq;
use negentropy::{Negentropy, NegentropyStorageVector};
use vstd::prelude::*;

verus! {

/// The length of an event id in bytes.
pub const ID_BYTES: usize = 32;

/// The frame size limit that every session is made with.
pub const FRAME_LIMIT: u64 = 100000;

/// The most ids that a session holds.
pub const MAX_SESSION_IDS: usize = 100000;

/// `negentropy::NegentropyStorageVector`, of which the verifier sees nothing
/// inside: a list of items, each a time and an id, and a seal.
#[verifier::external_type_specification]
#[verifier::external_body]
pub struct ExStorage(NegentropyStorageVector);

/// `negentropy::Negentropy`, of which the verifier sees nothing inside: a
/// storage, a frame size limit, and whether the engine has initiated.
#[verifier::external_type_specification]
#[verifier::external_body]
#[verifier::reject_recursive_types(T)]
pub struct ExNegentropy<T>(Negentropy<T>);

/// The items that a storage holds, each a time and an id.
pub uninterp spec fn storage_items(s: NegentropyStorageVector) -> Set<(u64, Seq<u8>)>;

/// Whether a storage has been sealed.
pub uninterp spec fn storage_sealed(s: NegentropyStorageVector) -> bool;

/// The items of the storage that an engine was made with.
pub uninterp spec fn engine_items(n: Negentropy<NegentropyStorageVector>) -> Set<(u64, Seq<u8>)>;

/// Whether the storage that an engine was made with is sealed.
pub uninterp spec fn engine_sealed(n: Negentropy<NegentropyStorageVector>) -> bool;

/// The frame size limit that an engine was made with.
pub uninterp spec fn engine_limit(n: Negentropy<NegentropyStorageVector>) -> u64;

/// Whether an engine has initiated a reconciliation itself.
pub uninterp spec fn engine_initiated(n: Negentropy<NegentropyStorageVector>) -> bool;

/// The answer of an engine to a message, in hex: what
/// `Negentropy::reconcile` returns for these items, seal and limit and for
/// an engine that has or has not initiated, or `None` where it reports an
/// error.
pub uninterp spec fn reconciled(
    items: Set<(u64, Seq<u8>)>,
    sealed: bool,
    limit: u64,
    initiated: bool,
    query: Seq<u8>,
) -> Option<Seq<char>>;

/// The number that a hexadecimal digit stands for.
pub open spec fn hex_digit(c: char) -> Option<int> {
    if '0' <= c <= '9' {
        Some(c as int - '0' as int)
    } else if 'a' <= c <= 'f' {
        Some(c as int - 'a' as int + 10)
    } else if 'A' <= c <= 'F' {
        Some(c as int - 'A' as int + 10)
    } else {
        None
    }
}

/// The bytes that a text writes in hexadecimal: two digits of either case
/// for each byte, the high one first. `None` where the length is odd or a
/// character is no digit.
pub open spec fn hex_bytes(s: Seq<char>) -> Option<Seq<u8>> {
    if s.len() % 2 == 0 && forall|i: int|
        0 <= i < s.len() ==> hex_digit(#[trigger] s[i]).is_some() {
        Some(
            Seq::new(
                s.len() / 2,
                |i: int|
                    (hex_digit(s[2 * i]).unwrap() * 16 + hex_digit(s[2 * i + 1]).unwrap()) as u8,
            ),
        )
    } else {
        None
    }
}

/// The bytes of an optional list of bytes.
pub open spec fn bytes_option(o: Option<Vec<u8>>) -> Option<Seq<u8>> {
    match o {
        Some(v) => Some(v@),
        None => None,
    }
}

/// Calls `hex::decode`, which reads two hexadecimal digits of either case
/// for each byte and fails on an odd length or on any other character.
#[verifier::external_body]
pub(crate) fn hex_decode(s: &str) -> (r: Option<Vec<u8>>)
    ensures
        bytes_option(r) == hex_bytes(s@),
{
    hex::decode(s).ok()
}

/// Calls `NegentropyStorageVector::new`: a storage that holds nothing and is
/// not sealed.
#[verifier::external_body]
pub(crate) fn new_storage() -> (r: NegentropyStorageVector)
    ensures
        storage_items(r) == Set::<(u64, Seq<u8>)>::empty(),
        !storage_sealed(r),
{
    NegentropyStorageVector::new()
}

/// Makes an id with `negentropy::Id::from_slice`, which takes 32 bytes and
/// nothing else, and calls `NegentropyStorageVector::insert`, which adds the
/// item unless the storage is sealed. Says whether the item was added.
#[verifier::external_body]
pub(crate) fn storage_insert(s: &mut NegentropyStorageVector, created_at: u64, id: &[u8]) -> (r:
    bool)
    ensures
        r == (id@.len() == ID_BYTES && !storage_sealed(*old(s))),
        r ==> storage_items(*final(s)) == storage_items(*old(s)).insert((created_at, id@)),
        !r ==> storage_items(*final(s)) == storage_items(*old(s)),
        storage_sealed(*final(s)) == storage_sealed(*old(s)),
{
    match negentropy::Id::from_slice(id) {
        Ok(i) => s.insert(created_at, i).is_ok(),
        Err(_) => false,
    }
}

/// Calls `NegentropyStorageVector::seal`, which fails on a sealed storage
/// and else seals it, sorting the items and dropping repeated ones: the set
/// of items stays. Says whether it sealed.
#[verifier::external_body]
pub(crate) fn storage_seal(s: &mut NegentropyStorageVector) -> (r: bool)
    ensures
        r == !storage_sealed(*old(s)),
        storage_sealed(*final(s)),
        storage_items(*final(s)) == storage_items(*old(s)),
{
    s.seal().is_ok()
}

/// Calls `Negentropy::new`, which takes a frame size limit of zero or of at
/// least 4096 and keeps the storage as it is. The new engine has not
/// initiated.
#[verifier::external_body]
pub(crate) fn new_engine(s: NegentropyStorageVector, limit: u64) -> (r: Option<
    Negentropy<NegentropyStorageVector>,
>)
    ensures
        r.is_some() == (limit == 0 || limit >= 4096),
        r matches Some(n) ==> engine_items(n) == storage_items(s) && engine_sealed(n)
            == storage_sealed(s) && engine_limit(n) == limit && !engine_initiated(n),
{
    Negentropy::new(s, limit).ok()
}

/// Calls `Negentropy::reconcile` on the message and writes the answer in hex
/// with `Bytes::to_hex`. The answer depends on the engine's items, seal and
/// limit, on whether it has initiated, and on the message alone:
/// [`reconciled`]. The call leaves all four as they were, and reports what
/// it cannot read as an error, never by a panic.
#[verifier::external_body]
pub(crate) fn engine_reconcile(n: &mut Negentropy<NegentropyStorageVector>, query: &[u8]) -> (r:
    Option<String>)
    ensures
        text_option(r) == reconciled(
            engine_items(*old(n)),
            engine_sealed(*old(n)),
            engine_limit(*old(n)),
            engine_initiated(*old(n)),
            query@,
        ),
        engine_items(*final(n)) == engine_items(*old(n)),
        engine_sealed(*final(n)) == engine_sealed(*old(n)),
        engine_limit(*final(n)) == engine_limit(*old(n)),
        engine_initiated(*final(n)) == engine_initiated(*old(n)),
    no_unwind
{
    n.reconcile(&negentropy::Bytes::from_slice(query)).ok().map(|b| b.to_hex())
}

/// The ids of the events that a filter matches, in the order of the events.
pub open spec fn matching_ids(f: FilterV, events: Seq<EventV>) -> Seq<Seq<char>>
    decreases events.len(),
{
    if events.len() == 0 {
        Seq::empty()
    } else if filter_matches(f, events.last()) {
        matching_ids(f, events.drop_last()).push(events.last().id)
    } else {
        matching_ids(f, events.drop_last())
    }
}

/// The ids of the events that a filter matches.
pub fn ids_matching(f: &Filter, events: &Vec<Event>) -> (r: Vec<String>)
    ensures
        r.deep_view() == matching_ids(f@, event_views(events@)),
{
    let ghost all = event_views(events@);
    let mut r: Vec<String> = Vec::new();
    let mut i: usize = 0;
    assert(all.take(0) =~= Seq::empty());
    assert(r.deep_view() =~= Seq::empty());
    while i < events.len()
        invariant
            i <= events.len(),
            all == event_views(events@),
            r.deep_view() == matching_ids(f@, all.take(i as int)),
        decreases events.len() - i,
    {
        let ghost before = r.deep_view();
        let ghost upto = all.take(i + 1);
        assert(upto.drop_last() =~= all.take(i as int));
        assert(upto.last() == events@[i as int]@);
        if f.matches(&events[i]) {
            r.push(events[i].id.clone());
            assert(r.deep_view() =~= before.push(events@[i as int]@.id));
        } else {
            assert(r.deep_view() =~= before);
        }
        i += 1;
    }
    assert(all.take(i as int) =~= all);
    r
}

/// The id that a text writes: 32 bytes in hexadecimal.
pub open spec fn id_of(text: Seq<char>) -> Option<Seq<u8>> {
    match hex_bytes(text) {
        Some(b) => if b.len() == ID_BYTES {
            Some(b)
        } else {
            None
        },
        None => None,
    }
}

/// The ids that a session takes from a list of texts, in their order: those
/// that write an id, until the session is full.
pub open spec fn session_ids(texts: Seq<Seq<char>>) -> Seq<Seq<u8>>
    decreases texts.len(),
{
    if texts.len() == 0 {
        Seq::empty()
    } else if session_ids(texts.drop_last()).len() < MAX_SESSION_IDS && id_of(
        texts.last(),
    ).is_some() {
        session_ids(texts.drop_last()).push(id_of(texts.last()).unwrap())
    } else {
        session_ids(texts.drop_last())
    }
}

/// The items of a session that holds the ids: each at time zero.
pub open spec fn items_of(ids: Seq<Seq<u8>>) -> Set<(u64, Seq<u8>)>
    decreases ids.len(),
{
    if ids.len() == 0 {
        Set::empty()
    } else {
        items_of(ids.drop_last()).insert((0u64, ids.last()))
    }
}

/// The answer of a session with these items to a message in hex; `None`
/// where the message is no hex or the engine refuses it.
pub open spec fn replied(items: Set<(u64, Seq<u8>)>, message: Seq<char>) -> Option<Seq<char>> {
    match hex_bytes(message) {
        Some(q) => reconciled(items, true, FRAME_LIMIT, false, q),
        None => None,
    }
}

/// A session never holds more ids than the cap.
pub proof fn lemma_session_ids_capped(texts: Seq<Seq<char>>)
    ensures
        session_ids(texts).len() <= MAX_SESSION_IDS,
        session_ids(texts).len() <= texts.len(),
    decreases texts.len(),
{
    if texts.len() > 0 {
        lemma_session_ids_capped(texts.drop_last());
    }
}

/// A reconciliation session: a sealed set of ids and the engine that
/// answers for it.
pub struct Session {
    engine: Negentropy<NegentropyStorageVector>,
}

impl Session {
    #[verifier::type_invariant]
    spec fn sound(self) -> bool {
        engine_sealed(self.engine) && engine_limit(self.engine) == FRAME_LIMIT
            && !engine_initiated(self.engine)
    }

    /// The items that the session holds.
    pub closed spec fn items(&self) -> Set<(u64, Seq<u8>)> {
        engine_items(self.engine)
    }

    /// Builds a session over the ids that the texts write, each at time
    /// zero, and seals it.
    pub fn build(ids: &Vec<String>) -> (r: Option<Session>)
        ensures
            r.is_some(),
            r.unwrap().items() == items_of(session_ids(ids.deep_view())),
    {
        let ghost texts = ids.deep_view();
        let mut storage = new_storage();
        let mut count: usize = 0;
        let mut i: usize = 0;
        assert(texts.take(0) =~= Seq::empty());
        while i < ids.len()
            invariant
                i <= ids.len(),
                texts == ids.deep_view(),
                !storage_sealed(storage),
                count == session_ids(texts.take(i as int)).len(),
                count <= MAX_SESSION_IDS,
                storage_items(storage) == items_of(session_ids(texts.take(i as int))),
            decreases ids.len() - i,
        {
            let ghost upto = texts.take(i + 1);
            let ghost before = session_ids(texts.take(i as int));
            assert(upto.drop_last() =~= texts.take(i as int));
            assert(upto.last() == ids@[i as int]@);
            if count < MAX_SESSION_IDS {
                match hex_decode(ids[i].as_str()) {
                    Some(bytes) => {
                        if storage_insert(&mut storage, 0, bytes.as_slice()) {
                            assert(before.push(bytes@).drop_last() =~= before);
                            count += 1;
                        }
                    },
                    None => {},
                }
            }
            i += 1;
        }
        assert(texts.take(i as int) =~= texts);
        storage_seal(&mut storage);
        match new_engine(storage, FRAME_LIMIT) {
            Some(engine) => Some(Session { engine }),
            None => None,
        }
    }

    /// Answers a message of the peer, both in hex. `None` where the message
    /// is no hex or the engine refuses it.
    pub fn step(&mut self, message: &str) -> (r: Option<String>)
        ensures
            text_option(r) == replied(old(self).items(), message@),
            final(self).items() == old(self).items(),
    {
        proof {
            use_type_invariant(&*self);
        }
        match hex_decode(message) {
            Some(query) => engine_reconcile(&mut self.engine, query.as_slice()),
            None => None,
        }
    }
}

/// A session under the name of its subscription.
pub struct NamedSession {
    pub name: String,
    pub session: Session,
}

/// The mathematical value of a [`NamedSession`].
pub struct NamedSessionV {
    pub name: Seq<char>,
    pub items: Set<(u64, Seq<u8>)>,
}

impl View for NamedSession {
    type V = NamedSessionV;

    open spec fn view(&self) -> NamedSessionV {
        NamedSessionV { name: self.name@, items: self.session.items() }
    }
}

/// The values of a list of sessions.
pub open spec fn session_views(s: Seq<NamedSession>) -> Seq<NamedSessionV> {
    Seq::new(s.len(), |i: int| s[i]@)
}

/// The place of the session of a name: that of the first one by that name,
/// and the length of the list where there is none.
pub open spec fn place_of(s: Seq<NamedSessionV>, name: Seq<char>) -> int
    decreases s.len(),
{
    if s.len() == 0 {
        0
    } else if s[0].name == name {
        0
    } else {
        1 + place_of(s.skip(1), name)
    }
}

/// The sessions without the first one of a name.
pub open spec fn ended(s: Seq<NamedSessionV>, name: Seq<char>) -> Seq<NamedSessionV> {
    if place_of(s, name) < s.len() {
        s.remove(place_of(s, name))
    } else {
        s
    }
}

/// The sessions after one is begun: it takes the place of the one that had
/// its name, at the end of the list.
pub open spec fn begun(
    s: Seq<NamedSessionV>,
    name: Seq<char>,
    items: Set<(u64, Seq<u8>)>,
) -> Seq<NamedSessionV> {
    ended(s, name).push(NamedSessionV { name, items })
}

/// The answer of the session of a name to a message; `None` where there is
/// no such session, the message is no hex, or the engine refuses it.
pub open spec fn advanced(s: Seq<NamedSessionV>, name: Seq<char>, message: Seq<char>) -> Option<
    Seq<char>,
> {
    if place_of(s, name) < s.len() {
        replied(s[place_of(s, name)].items, message)
    } else {
        None
    }
}

/// The place of a name lies within the list or at its end; a place within
/// the list holds the name, and no place before it does.
pub proof fn lemma_place_of(s: Seq<NamedSessionV>, name: Seq<char>)
    ensures
        0 <= place_of(s, name) <= s.len(),
        place_of(s, name) < s.len() ==> s[place_of(s, name)].name == name,
        forall|k: int| 0 <= k < place_of(s, name) ==> (#[trigger] s[k]).name != name,
    decreases s.len(),
{
    if s.len() > 0 && s[0].name != name {
        let rest = s.skip(1);
        lemma_place_of(rest, name);
        assert forall|k: int| 0 <= k < place_of(s, name) implies (#[trigger] s[k]).name != name by {
            if k > 0 {
                assert(rest[k - 1] == s[k]);
            }
        }
        if place_of(s, name) < s.len() {
            assert(rest[place_of(rest, name)] == s[place_of(s, name)]);
        }
    }
}

/// No two sessions have the same name.
pub open spec fn unique_sessions(s: Seq<NamedSessionV>) -> bool {
    forall|i: int, j: int|
        0 <= i < j < s.len() ==> (#[trigger] s[i]).name != (#[trigger] s[j]).name
}

/// Ending a session leaves the names apart, and where they were apart, no
/// session of the name.
pub proof fn lemma_ended(s: Seq<NamedSessionV>, name: Seq<char>)
    requires
        unique_sessions(s),
    ensures
        unique_sessions(ended(s, name)),
        forall|k: int| 0 <= k < ended(s, name).len() ==> (#[trigger] ended(s, name)[k]).name != name,
{
    lemma_place_of(s, name);
    let at = place_of(s, name);
    let out = ended(s, name);
    if at < s.len() {
        assert forall|i: int, j: int| 0 <= i < j < out.len() implies (#[trigger] out[i]).name != (
        #[trigger] out[j]).name by {
            let a = if i < at {
                i
            } else {
                i + 1
            };
            let b = if j < at {
                j
            } else {
                j + 1
            };
            assert(out[i] == s[a] && out[j] == s[b]);
        }
        assert forall|k: int| 0 <= k < out.len() implies (#[trigger] out[k]).name != name by {
            if k < at {
                assert(out[k] == s[k]);
            } else {
                assert(out[k] == s[k + 1]);
                assert(s[at].name != s[k + 1].name);
            }
        }
    }
}

/// Beginning a session leaves the names apart.
pub proof fn lemma_begun(s: Seq<NamedSessionV>, name: Seq<char>, items: Set<(u64, Seq<u8>)>)
    requires
        unique_sessions(s),
    ensures
        unique_sessions(begun(s, name, items)),
{
    lemma_ended(s, name);
    let base = ended(s, name);
    let out = begun(s, name, items);
    assert forall|i: int, j: int| 0 <= i < j < out.len() implies (#[trigger] out[i]).name != (
    #[trigger] out[j]).name by {
        if j == base.len() {
            assert(out[i] == base[i]);
        } else {
            assert(out[i] == base[i] && out[j] == base[j]);
        }
    }
}

/// The reconciliation sessions of one connection. No two sessions of a
/// well-formed table have the same name.
pub struct SessionTable {
    sessions: Vec<NamedSession>,
}

impl View for SessionTable {
    type V = Seq<NamedSessionV>;

    closed spec fn view(&self) -> Seq<NamedSessionV> {
        session_views(self.sessions@)
    }
}

impl SessionTable {
    /// No two sessions have the same name.
    pub open spec fn wf(&self) -> bool {
        unique_sessions(self@)
    }

    /// The table of a new connection.
    pub fn new() -> (r: SessionTable)
        ensures
            r@ == Seq::<NamedSessionV>::empty(),
            r.wf(),
    {
        let r = SessionTable { sessions: Vec::new() };
        assert(r@ =~= Seq::<NamedSessionV>::empty());
        r
    }

    /// The number of sessions.
    pub fn len(&self) -> (r: usize)
        ensures
            r == self@.len(),
    {
        self.sessions.len()
    }

    fn position(&self, name: &str) -> (r: usize)
        ensures
            r == place_of(self@, name@),
            r <= self.sessions.len(),
    {
        let ghost all = self@;
        let mut i: usize = 0;
        assert(all.skip(0) =~= all);
        while i < self.sessions.len()
            invariant
                i <= self.sessions.len(),
                all == self@,
                place_of(all, name@) == i + place_of(all.skip(i as int), name@),
            decreases self.sessions.len() - i,
        {
            let ghost rest = all.skip(i as int);
            assert(rest[0] == self.sessions@[i as int]@);
            assert(rest.skip(1) =~= all.skip(i + 1));
            if str_eq(self.sessions[i].name.as_str(), name) {
                return i;
            }
            i += 1;
        }
        assert(all.skip(i as int) =~= Seq::<NamedSessionV>::empty());
        i
    }

    /// Ends the session of a name; says whether there was one.
    pub fn end(&mut self, name: &str) -> (r: bool)
        ensures
            final(self)@ == ended(old(self)@, name@),
            r == (place_of(old(self)@, name@) < old(self)@.len()),
            old(self).wf() ==> final(self).wf(),
    {
        proof {
            if old(self).wf() {
                lemma_ended(old(self)@, name@);
            }
        }
        let at = self.position(name);
        if at < self.sessions.len() {
            let ghost before = self@;
            self.sessions.remove(at);
            assert(self@ =~= before.remove(at as int));
            true
        } else {
            false
        }
    }

    /// Begins a session under a name; it takes the place of the one that had
    /// the name.
    pub fn begin(&mut self, name: &str, session: Session)
        ensures
            final(self)@ == begun(old(self)@, name@, session.items()),
            old(self).wf() ==> final(self).wf(),
    {
        proof {
            if old(self).wf() {
                lemma_begun(old(self)@, name@, session.items());
            }
        }
        self.end(name);
        let ghost before = self@;
        let s = NamedSession { name: name.to_owned(), session };
        self.sessions.push(s);
        assert(self@ =~= before.push(s@));
    }

    /// Hands a message to the session of a name and returns its answer; the
    /// sessions stay as they are.
    pub fn advance(&mut self, name: &str, message: &str) -> (r: Option<String>)
        ensures
            text_option(r) == advanced(old(self)@, name@, message@),
            final(self)@ == old(self)@,
            old(self).wf() ==> final(self).wf(),
    {
        let at = self.position(name);
        if at >= self.sessions.len() {
            return None;
        }
        let ghost before = self@;
        let mut s = self.sessions.remove(at);
        assert(s@ == before[at as int]);
        let r = s.session.step(message);
        self.sessions.insert(at, s);
        assert(self@ =~= before);
        r
    }
}

/// The frame that carries an answer of a session.
pub fn neg_frame(sub_id: &str, answer: String) -> (r: RelayMessage)
    ensures
        r@ == (RelayMessageV::NegMsg { sub_id: sub_id@, message: answer@ }),
{
    RelayMessage::NegMsg { sub_id: sub_id.to_owned(), message: answer }
}

} // verus!

use vstd::prelude::*;
use dashmap::DashMap;
use crate::clock::now_unix;
use crate::codec::id_of;
use crate::kv::keys_unique;
use crate::session::{Session, SessionView};

verus! {

/// The concurrent map of the dashmap crate, carried as an opaque type.
#[verifier::external_type_specification]
#[verifier::external_body]
#[verifier::reject_recursive_types(K)]
#[verifier::reject_recursive_types(V)]
#[verifier::reject_recursive_types(S)]
pub struct ExDashMap<K, V, S>(DashMap<K, V, S>);

/// What the store's map holds: the session recorded under each id.
pub uninterp spec fn dash_contents(m: DashMap<String, Session>) -> Map<Seq<char>, SessionView>;

/// Relies on DashMap::new: an empty map.
#[verifier::external_body]
fn dash_new() -> (m: DashMap<String, Session>)
    ensures
        dash_contents(m) =~= Map::empty(),
{
    DashMap::new()
}

/// Relies on DashMap::insert: the entry under `key` is created or
/// replaced; every other entry stays.
#[verifier::external_body]
fn dash_insert(m: &mut DashMap<String, Session>, key: String, session: Session)
    ensures
        dash_contents(*final(m)) == dash_contents(*old(m)).insert(key@, session@),
{
    (&*m).insert(key, session);
}

/// Relies on DashMap::get: a copy of the entry under `key`, if any.
#[verifier::external_body]
fn dash_get(m: &DashMap<String, Session>, key: &String) -> (r: Option<Session>)
    ensures
        match r {
            Some(s) => dash_contents(*m).contains_key(key@) && s@ == dash_contents(*m)[key@],
            None => !dash_contents(*m).contains_key(key@),
        },
{
    m.get(key).map(|entry| entry.value().clone())
}

/// Relies on DashMap::remove: the entry under `key` leaves the map;
/// every other entry stays.
#[verifier::external_body]
fn dash_remove(m: &mut DashMap<String, Session>, key: &String)
    ensures
        dash_contents(*final(m)) == dash_contents(*old(m)).remove(key@),
{
    (&*m).remove(key);
}

/// Relies on DashMap::clear: every entry leaves the map.
#[verifier::external_body]
fn dash_clear(m: &mut DashMap<String, Session>)
    ensures
        dash_contents(*final(m)) =~= Map::empty(),
{
    (&*m).clear();
}

/// Relies on DashMap::len: the number of entries.
#[verifier::external_body]
fn dash_len(m: &DashMap<String, Session>) -> (r: usize)
    ensures
        dash_contents(*m).dom().finite() ==> r == dash_contents(*m).dom().len(),
{
    m.len()
}

/// The entries of `m` that are not expired at `now`.
pub open spec fn live_at(m: Map<Seq<char>, SessionView>, now: i64) -> Map<Seq<char>, SessionView> {
    Map::new(
        |k: Seq<char>| m.dom().contains(k) && !m[k].is_expired_at(now),
        |k: Seq<char>| m[k],
    )
}

/// Relies on DashMap::retain: exactly the entries the predicate
/// accepts stay; the predicate here keeps what is not expired at `now`.
#[verifier::external_body]
fn dash_retain_unexpired(m: &mut DashMap<String, Session>, now: i64)
    ensures
        dash_contents(*final(m)) == live_at(dash_contents(*old(m)), now),
{
    (&*m).retain(|_, session| !session.is_expired_at(now));
}

/// The error of the in-memory store: the cookie value handed to
/// `load_session` was not valid base64.
#[derive(Debug, Clone, Copy, PartialEq, Eq, Structural)]
pub enum MemoryStoreError {
    Base64,
}

/// A process-local store holding sessions in a concurrent map keyed by
/// session id (not by cookie value).
pub struct MemoryStore {
    map: DashMap<String, Session>,
}

impl View for MemoryStore {
    type V = Map<Seq<char>, SessionView>;

    closed spec fn view(&self) -> Map<Seq<char>, SessionView> {
        dash_contents(self.map)
    }
}

impl MemoryStore {
    /// Every entry stands under its session's id, and every recorded
    /// session is well formed.
    pub open spec fn wf(&self) -> bool {
        &&& self@.dom().finite()
        &&& forall|k: Seq<char>|
            #[trigger] self@.contains_key(k) ==> self@[k].id == k && keys_unique(self@[k].data)
    }

    /// Creates an empty store.
    pub fn new() -> (r: MemoryStore)
        ensures
            r.wf(),
            r@ == Map::<Seq<char>, SessionView>::empty(),
    {
        MemoryStore { map: dash_new() }
    }

    /// The number of sessions the store holds.
    pub fn count(&self) -> (r: usize)
        requires
            self.wf(),
        ensures
            r == self@.dom().len(),
    {
        dash_len(&self.map)
    }

    /// Persists the session under its id: resets its dirty tracking,
    /// takes its pending cookie value, records a copy, and returns the
    /// taken cookie value.
    pub fn store_session(&mut self, session: &mut Session) -> (r: Result<
        Option<String>,
        MemoryStoreError,
    >)
        requires
            old(self).wf(),
            old(session).wf(),
        ensures
            final(self).wf(),
            final(session).wf(),
            final(session)@ == (SessionView {
                data_changed: false,
                cookie_value: None,
                ..old(session)@
            }),
            final(self)@ == old(self)@.insert(old(session)@.id, final(session)@),
            (r matches Ok(c) && match c {
                Some(cv) => old(session)@.cookie_value == Some(cv@),
                None => old(session)@.cookie_value is None,
            }),
    {
        session.reset_data_changed();
        let cookie_value = session.take_cookie_value();
        let id = session.id().to_owned();
        let stored = session.clone();
        dash_insert(&mut self.map, id, stored);
        Ok(cookie_value)
    }

    /// Looks the session up by the id derived from the cookie value, at
    /// time `now`.  An invalid cookie value is an error; an absent
    /// entry is nothing; an expired entry is removed and is nothing; a
    /// live entry is returned as a copy.
    pub fn load_session_at(&mut self, cookie_value: &str, now: i64) -> (r: Result<
        Option<Session>,
        MemoryStoreError,
    >)
        requires
            old(self).wf(),
        ensures
            final(self).wf(),
            match id_of(cookie_value@) {
                None => (r matches Err(e) && e == MemoryStoreError::Base64 && final(self)@ == old(
                    self,
                )@),
                Some(id) => if !old(self)@.contains_key(id) {
                    (r matches Ok(o) && o is None && final(self)@ == old(self)@)
                } else if old(self)@[id].is_expired_at(now) {
                    (r matches Ok(o) && o is None && final(self)@ == old(self)@.remove(id))
                } else {
                    (r matches Ok(o) && o matches Some(s) && s.wf() && s@ == old(self)@[id]
                        && final(self)@ == old(self)@)
                },
            },
    {
        let id = match Session::id_from_cookie_value(cookie_value) {
            Ok(id) => id,
            Err(_) => {
                return Err(MemoryStoreError::Base64);
            },
        };
        match dash_get(&self.map, &id) {
            None => Ok(None),
            Some(entry) => {
                if entry.is_expired_at(now) {
                    dash_remove(&mut self.map, &id);
                    Ok(None)
                } else {
                    Ok(Some(entry))
                }
            },
        }
    }

    /// Looks the session up by the id derived from the cookie value, at
    /// the current time.
    pub fn load_session(&mut self, cookie_value: &str) -> (r: Result<
        Option<Session>,
        MemoryStoreError,
    >)
        requires
            old(self).wf(),
        ensures
            final(self).wf(),
            (r is Err <==> id_of(cookie_value@) is None),
            (r matches Err(e) ==> e == MemoryStoreError::Base64 && final(self)@ == old(self)@),
            (r matches Ok(o) ==> o matches Some(s) ==> ({
                let id = id_of(cookie_value@)->0;
                &&& id_of(cookie_value@) is Some
                &&& old(self)@.contains_key(id)
                &&& s.wf()
                &&& s@ == old(self)@[id]
                &&& final(self)@ == old(self)@
            })),
            (r matches Ok(o) ==> o is None ==> ({
                let id = id_of(cookie_value@)->0;
                &&& id_of(cookie_value@) is Some
                &&& final(self)@ == old(self)@.remove(id)
                &&& (old(self)@.contains_key(id) ==> old(self)@[id].expiry is Some)
            })),
    {
        let now = now_unix();
        let r = self.load_session_at(cookie_value, now);
        proof {
            if id_of(cookie_value@) is Some {
                let id = id_of(cookie_value@)->0;
                if !old(self)@.contains_key(id) {
                    assert(old(self)@.remove(id) =~= old(self)@);
                }
            }
        }
        r
    }

    /// Removes the entry under the session's id; removing an absent
    /// session is not an error.
    pub fn destroy_session(&mut self, session: &Session) -> (r: Result<(), MemoryStoreError>)
        requires
            old(self).wf(),
        ensures
            final(self).wf(),
            final(self)@ == old(self)@.remove(session@.id),
            r is Ok,
    {
        let id = session.id().to_owned();
        dash_remove(&mut self.map, &id);
        Ok(())
    }

    /// Removes every session the store holds.
    pub fn clear_store(&mut self) -> (r: Result<(), MemoryStoreError>)
        ensures
            final(self).wf(),
            final(self)@ == Map::<Seq<char>, SessionView>::empty(),
            r is Ok,
    {
        dash_clear(&mut self.map);
        Ok(())
    }

    /// Evicts every entry expired at `now`; the rest stay unchanged.
    pub fn cleanup_at(&mut self, now: i64)
        requires
            old(self).wf(),
        ensures
            final(self).wf(),
            final(self)@ == live_at(old(self)@, now),
    {
        dash_retain_unexpired(&mut self.map, now);
        proof {
            assert(final(self)@.dom() =~= old(self)@.dom().intersect(
                Set::new(|k: Seq<char>| final(self)@.dom().contains(k)),
            ));
            vstd::set_lib::lemma_len_intersect(
                old(self)@.dom(),
                Set::new(|k: Seq<char>| final(self)@.dom().contains(k)),
            );
        }
    }

    /// Evicts every entry expired at the current time; what stays was
    /// already recorded, unchanged, and an entry without an expiry
    /// always stays.
    pub fn cleanup(&mut self)
        requires
            old(self).wf(),
        ensures
            final(self).wf(),
            forall|k: Seq<char>|
                #[trigger] final(self)@.contains_key(k) ==> old(self)@.contains_key(k)
                    && final(self)@[k] == old(self)@[k],
            forall|k: Seq<char>|
                #[trigger] old(self)@.contains_key(k) && old(self)@[k].expiry is None
                    ==> final(self)@.contains_key(k),
    {
        let now = now_unix();
        self.cleanup_at(now);
    }
}

impl Default for MemoryStore {
    /// A default store is an empty one.
    fn default() -> (r: MemoryStore)
        ensures
            r.wf(),
            r@ == Map::<Seq<char>, SessionView>::empty(),
    {
        MemoryStore::new()
    }
}

/// Destroying a session twice is the same as destroying it once: the
/// second removal of `id` finds nothing and leaves the store as it
/// was, and the first removal of a present `id` lowers the count by
/// exactly one.
pub proof fn lemma_destroy_idempotent(m: Map<Seq<char>, SessionView>, id: Seq<char>)
    requires
        m.dom().finite(),
    ensures
        m.remove(id).remove(id) == m.remove(id),
        !m.remove(id).contains_key(id),
        m.contains_key(id) ==> m.remove(id).dom().len() == m.dom().len() - 1,
        !m.contains_key(id) ==> m.remove(id) == m,
{
    assert(m.remove(id).remove(id) =~= m.remove(id));
    if m.contains_key(id) {
        assert(m.remove(id).dom() =~= m.dom().remove(id));
    } else {
        assert(m.remove(id) =~= m);
    }
}

/// The round trip of the in-memory store: after a session is recorded
/// under its id, loading by the id derived from its cookie value finds
/// a record with the same id and the same data, and it is not expired
/// when the session was not.
pub proof fn lemma_memory_round_trip(
    m: Map<Seq<char>, SessionView>,
    s: SessionView,
    cv: Seq<char>,
    now: i64,
)
    requires
        id_of(cv) == Some(s.id),
        !s.is_expired_at(now),
    ensures
        ({
            let stored = SessionView { data_changed: false, cookie_value: None, ..s };
            let m1 = m.insert(s.id, stored);
            &&& id_of(cv) matches Some(id)
            &&& m1.contains_key(id_of(cv)->0)
            &&& m1[id_of(cv)->0].id == s.id
            &&& m1[id_of(cv)->0].data == s.data
            &&& m1[id_of(cv)->0].data_changed == false
            &&& !m1[id_of(cv)->0].is_expired_at(now)
        }),
{
}

} // verus!

use vstd::prelude::*;
use crate::clock::now_unix;
use crate::codec::{derive_id, encodes_secret_of_len, generate_secret, id_of};
use crate::kv::{assoc_find, assoc_map, has_key, keys_unique, lemma_assoc_map_dom,
    lemma_assoc_map_index, lemma_assoc_map_push, lemma_assoc_map_remove, lemma_assoc_map_update};
use crate::value::{SpecValue, Value};

verus! {

/// The abstraction of a [`Session`].
pub struct SessionView {
    pub id: Seq<char>,
    pub expiry: Option<i64>,
    pub data: Seq<(Seq<char>, SpecValue)>,
    pub cookie_value: Option<Seq<char>>,
    pub data_changed: bool,
    pub destroy: bool,
}

impl SessionView {
    /// The data pairs carry pairwise distinct keys.
    pub open spec fn wf(self) -> bool {
        keys_unique(self.data)
    }

    /// The data, read as a map from key to value.
    pub open spec fn data_map(self) -> Map<Seq<char>, SpecValue> {
        assoc_map(self.data)
    }

    /// An expiry is set and lies strictly in the past of `now`.
    pub open spec fn is_expired_at(self, now: i64) -> bool {
        match self.expiry {
            Some(e) => e < now,
            None => false,
        }
    }

    /// The value under `k`, when one is there.
    pub open spec fn spec_get(self, k: Seq<char>) -> Option<SpecValue> {
        if self.data_map().contains_key(k) {
            Some(self.data_map()[k])
        } else {
            None
        }
    }
}

/// The pairs of a data vector, read at the level of abstractions.
pub open spec fn entries_view(s: Seq<(String, Value)>) -> Seq<(Seq<char>, SpecValue)> {
    s.map_values(|p: (String, Value)| (p.0@, p.1@))
}

/// The expiry reached `ttl_secs` after `now`, capped at the largest
/// representable timestamp.
pub open spec fn expiry_after(now: i64, ttl_secs: u64) -> i64 {
    if now + ttl_secs > i64::MAX {
        i64::MAX
    } else {
        (now + ttl_secs) as i64
    }
}

/// The whole seconds from `now` until `expiry`, or nothing when the
/// expiry is absent or already past.
pub open spec fn secs_until(expiry: Option<i64>, now: i64) -> Option<u64> {
    match expiry {
        Some(e) => if e < now {
            None
        } else {
            Some((e - now) as u64)
        },
        None => None,
    }
}

/// A session: keyed application data under a hash-derived identity,
/// with dirty tracking, expiry and a pending cookie secret that is
/// handed out at most once.
#[derive(Debug)]
pub struct Session {
    id: String,
    expiry: Option<i64>,
    data: Vec<(String, Value)>,
    cookie_value: Option<String>,
    data_changed: bool,
    destroy: bool,
}

impl View for Session {
    type V = SessionView;

    closed spec fn view(&self) -> SessionView {
        SessionView {
            id: self.id@,
            expiry: self.expiry,
            data: entries_view(self.data@),
            cookie_value: match self.cookie_value {
                Some(cv) => Some(cv@),
                None => None,
            },
            data_changed: self.data_changed,
            destroy: self.destroy,
        }
    }
}

impl Session {
    /// The session's data keys are pairwise distinct.
    pub open spec fn wf(&self) -> bool {
        self@.wf()
    }

    /// Creates a fresh session: a random 64-byte secret, the id derived
    /// from it, no expiry, no data, nothing marked.
    pub fn new() -> (r: Session)
        ensures
            r.wf(),
            r@.expiry is None,
            r@.data == Seq::<(Seq<char>, SpecValue)>::empty(),
            r@.data_changed == false,
            r@.destroy == false,
            (r@.cookie_value matches Some(cv) && id_of(cv) == Some(r@.id)
                && encodes_secret_of_len(cv, 64)),
    {
        let cookie_value = generate_secret(64);
        let id = match derive_id(cookie_value.as_str()) {
            Ok(id) => id,
            Err(_) => vstd::pervasive::unreached(),
        };
        let r = Session {
            id,
            expiry: None,
            data: Vec::new(),
            cookie_value: Some(cookie_value),
            data_changed: false,
            destroy: false,
        };
        assert(entries_view(r.data@) =~= Seq::<(Seq<char>, SpecValue)>::empty());
        r
    }

    /// Rehydrates a session from its durable parts, as a store does;
    /// no cookie value is set and nothing is marked.
    pub fn from_parts(id: String, data: Vec<(String, Value)>, expiry: Option<i64>) -> (r: Session)
        requires
            keys_unique(entries_view(data@)),
        ensures
            r.wf(),
            r@.id == id@,
            r@.data == entries_view(data@),
            r@.expiry == expiry,
            r@.cookie_value is None,
            r@.data_changed == false,
            r@.destroy == false,
    {
        Session { id, expiry, data, cookie_value: None, data_changed: false, destroy: false }
    }

    /// Borrows the data pairs, as a store does.
    pub fn data(&self) -> (r: &Vec<(String, Value)>)
        ensures
            entries_view(r@) == self@.data,
    {
        &self.data
    }

    /// Derives the session id for a cookie value; an error exactly when
    /// the cookie value is not valid base64.
    pub fn id_from_cookie_value(cookie_value: &str) -> (r: Result<String, base64::DecodeError>)
        ensures
            match r {
                Ok(id) => id_of(cookie_value@) == Some(id@),
                Err(_) => id_of(cookie_value@) is None,
            },
    {
        derive_id(cookie_value)
    }

    /// Marks this session for destruction; the record itself is removed
    /// only by a later store operation.
    pub fn destroy(&mut self)
        ensures
            final(self)@ == (SessionView { destroy: true, ..old(self)@ }),
    {
        self.destroy = true;
    }

    /// Whether this session is marked for destruction.
    pub fn is_destroyed(&self) -> (r: bool)
        ensures
            r == self@.destroy,
    {
        self.destroy
    }

    /// The session id.
    pub fn id(&self) -> (r: &str)
        ensures
            r@ == self@.id,
    {
        self.id.as_str()
    }

    /// Overwrites the value under `key`; the session counts as changed
    /// exactly when the new value differs from what was there (a
    /// missing key differs from any value).
    pub fn insert_value(&mut self, key: &str, value: Value)
        requires
            old(self).wf(),
        ensures
            final(self).wf(),
            final(self)@.data_map() == old(self)@.data_map().insert(key@, value@),
            final(self)@.data.len() == old(self)@.data.len() + (if old(self)@.data_map().contains_key(key@) { 0int } else { 1int }),
            final(self)@.data_changed == (old(self)@.data_changed || !(old(
                self,
            )@.data_map().contains_key(key@) && old(self)@.data_map()[key@] == value@)),
            final(self)@.id == old(self)@.id,
            final(self)@.expiry == old(self)@.expiry,
            final(self)@.cookie_value == old(self)@.cookie_value,
            final(self)@.destroy == old(self)@.destroy,
    {
        let ghost old_entries = entries_view(self.data@);
        let owned_key = key.to_owned();
        match assoc_find(&self.data, &owned_key) {
            Some(i) => {
                proof {
                    lemma_assoc_map_index(old_entries, i as int);
                }
                if crate::value::value_eq(&self.data[i].1, &value) {
                    proof {
                        assert(old(self)@.data_map().insert(key@, value@) =~= old(
                            self,
                        )@.data_map());
                    }
                } else {
                    let k = self.data[i].0.clone();
                    let elem = vstd::std_specs::vec::vec_index_mut(&mut self.data, i);
                    *elem = (k, value);
                    self.data_changed = true;
                    proof {
                        assert(entries_view(self.data@) =~= old_entries.update(
                            i as int,
                            (key@, value@),
                        ));
                        lemma_assoc_map_update(old_entries, i as int, value@);
                    }
                }
            },
            None => {
                proof {
                    lemma_assoc_map_dom(old_entries);
                    assert forall|j: int| 0 <= j < old_entries.len() implies old_entries[j].0
                        != key@ by {
                        assert(old(self).data@[j].0@ != key@);
                    }
                    assert(!has_key(old_entries, key@));
                }
                self.data.push((owned_key, value));
                self.data_changed = true;
                proof {
                    assert(entries_view(self.data@) =~= old_entries.push((key@, value@)));
                    lemma_assoc_map_push(old_entries, key@, value@);
                }
            },
        }
    }

    /// The value under `key`, when one is there.
    pub fn get_value(&self, key: &str) -> (r: Option<Value>)
        requires
            self.wf(),
        ensures
            match r {
                Some(v) => self@.spec_get(key@) == Some(v@),
                None => self@.spec_get(key@) is None,
            },
    {
        let owned_key = key.to_owned();
        match assoc_find(&self.data, &owned_key) {
            Some(i) => {
                proof {
                    lemma_assoc_map_index(entries_view(self.data@), i as int);
                }
                Some(self.data[i].1.clone())
            },
            None => {
                proof {
                    lemma_assoc_map_dom(entries_view(self.data@));
                    assert forall|j: int| 0 <= j < self@.data.len() implies self@.data[j].0
                        != key@ by {
                        assert(self.data@[j].0@ != key@);
                    }
                    assert(!has_key(self@.data, key@));
                }
                None
            },
        }
    }

    /// The integer under `key`, when the value there is an integer.
    pub fn get_i64(&self, key: &str) -> (r: Option<i64>)
        requires
            self.wf(),
        ensures
            r == (match self@.spec_get(key@) {
                Some(SpecValue::Int(i)) => Some(i),
                _ => None::<i64>,
            }),
    {
        match self.get_value(key) {
            Some(Value::Int(i)) => Some(i),
            _ => None,
        }
    }

    /// The boolean under `key`, when the value there is a boolean.
    pub fn get_bool(&self, key: &str) -> (r: Option<bool>)
        requires
            self.wf(),
        ensures
            r == (match self@.spec_get(key@) {
                Some(SpecValue::Bool(b)) => Some(b),
                _ => None::<bool>,
            }),
    {
        match self.get_value(key) {
            Some(Value::Bool(b)) => Some(b),
            _ => None,
        }
    }

    /// The string under `key`, when the value there is a string.
    pub fn get_string(&self, key: &str) -> (r: Option<String>)
        requires
            self.wf(),
        ensures
            match r {
                Some(s) => self@.spec_get(key@) == Some(SpecValue::Str(s@)),
                None => !(self@.spec_get(key@) matches Some(v) && v is Str),
            },
    {
        match self.get_value(key) {
            Some(Value::Str(s)) => Some(s),
            _ => None,
        }
    }

    /// Removes the entry under `key`; the session counts as changed
    /// exactly when the key was there.
    pub fn remove(&mut self, key: &str)
        requires
            old(self).wf(),
        ensures
            final(self).wf(),
            final(self)@.data_map() == old(self)@.data_map().remove(key@),
            final(self)@.data.len() == old(self)@.data.len() - (if old(self)@.data_map().contains_key(key@) { 1int } else { 0int }),
            final(self)@.data_changed == (old(self)@.data_changed || old(
                self,
            )@.data_map().contains_key(key@)),
            final(self)@.id == old(self)@.id,
            final(self)@.expiry == old(self)@.expiry,
            final(self)@.cookie_value == old(self)@.cookie_value,
            final(self)@.destroy == old(self)@.destroy,
    {
        let _ = self.take_value(key);
    }

    /// Removes and returns the entry under `key`; the session counts as
    /// changed exactly when the key was there.
    pub fn take_value(&mut self, key: &str) -> (r: Option<Value>)
        requires
            old(self).wf(),
        ensures
            final(self).wf(),
            final(self)@.data_map() == old(self)@.data_map().remove(key@),
            final(self)@.data.len() == old(self)@.data.len() - (if old(self)@.data_map().contains_key(key@) { 1int } else { 0int }),
            final(self)@.data_changed == (old(self)@.data_changed || old(
                self,
            )@.data_map().contains_key(key@)),
            final(self)@.id == old(self)@.id,
            final(self)@.expiry == old(self)@.expiry,
            final(self)@.cookie_value == old(self)@.cookie_value,
            final(self)@.destroy == old(self)@.destroy,
            match r {
                Some(v) => old(self)@.spec_get(key@) == Some(v@),
                None => old(self)@.spec_get(key@) is None,
            },
    {
        let ghost old_entries = entries_view(self.data@);
        let owned_key = key.to_owned();
        match assoc_find(&self.data, &owned_key) {
            Some(i) => {
                proof {
                    lemma_assoc_map_index(old_entries, i as int);
                    lemma_assoc_map_remove(old_entries, i as int);
                }
                let removed = self.data.remove(i);
                self.data_changed = true;
                proof {
                    assert(entries_view(self.data@) =~= old_entries.remove(i as int));
                }
                Some(removed.1)
            },
            None => {
                proof {
                    lemma_assoc_map_dom(old_entries);
                    assert forall|j: int| 0 <= j < old_entries.len() implies old_entries[j].0
                        != key@ by {
                        assert(old(self).data@[j].0@ != key@);
                    }
                    assert(!has_key(old_entries, key@));
                    assert(old(self)@.data_map().remove(key@) =~= old(self)@.data_map());
                }
                None
            },
        }
    }

    /// The number of entries in the session data.
    pub fn len(&self) -> (r: usize)
        ensures
            r == self@.data.len(),
    {
        self.data.len()
    }

    /// Whether the session data holds no entry.
    pub fn is_empty(&self) -> (r: bool)
        ensures
            r == (self@.data.len() == 0),
    {
        self.data.is_empty()
    }

    /// Rotates the identity: a fresh secret and the id derived from it,
    /// with the data preserved.
    pub fn regenerate(&mut self)
        ensures
            final(self)@.data == old(self)@.data,
            final(self)@.expiry == old(self)@.expiry,
            final(self)@.data_changed == old(self)@.data_changed,
            final(self)@.destroy == old(self)@.destroy,
            (final(self)@.cookie_value matches Some(cv) && id_of(cv) == Some(final(self)@.id)
                && encodes_secret_of_len(cv, 64)),
    {
        let cookie_value = generate_secret(64);
        let id = match derive_id(cookie_value.as_str()) {
            Ok(id) => id,
            Err(_) => vstd::pervasive::unreached(),
        };
        self.id = id;
        self.cookie_value = Some(cookie_value);
    }

    /// Overwrites the pending cookie value; for store implementers
    /// reconstructing the outgoing cookie.
    pub fn set_cookie_value(&mut self, cookie_value: String)
        ensures
            final(self)@ == (SessionView {
                cookie_value: Some(cookie_value@),
                ..old(self)@
            }),
    {
        self.cookie_value = Some(cookie_value);
    }

    /// The expiry timestamp, when one is set.
    pub fn expiry(&self) -> (r: Option<i64>)
        ensures
            r == self@.expiry,
    {
        self.expiry
    }

    /// Sets an absolute expiry timestamp.
    pub fn set_expiry(&mut self, expiry: i64)
        ensures
            final(self)@ == (SessionView { expiry: Some(expiry), ..old(self)@ }),
    {
        self.expiry = Some(expiry);
    }

    /// Sets the expiry to `ttl_secs` after `now`, capped at the largest
    /// representable timestamp.
    pub fn expire_in_at(&mut self, now: i64, ttl_secs: u64)
        ensures
            final(self)@ == (SessionView {
                expiry: Some(expiry_after(now, ttl_secs)),
                ..old(self)@
            }),
    {
        let sum: i128 = now as i128 + ttl_secs as i128;
        let e: i64 = if sum > i64::MAX as i128 {
            i64::MAX
        } else {
            sum as i64
        };
        self.expiry = Some(e);
    }

    /// Sets the expiry to `ttl_secs` after the current time.
    pub fn expire_in(&mut self, ttl_secs: u64)
        ensures
            final(self)@.expiry is Some,
            final(self)@ == (SessionView { expiry: final(self)@.expiry, ..old(self)@ }),
    {
        let now = now_unix();
        self.expire_in_at(now, ttl_secs);
    }

    /// Whether the session is expired at `now`: an expiry is set and
    /// lies strictly in the past.
    pub fn is_expired_at(&self, now: i64) -> (r: bool)
        ensures
            r == self@.is_expired_at(now),
    {
        match self.expiry {
            Some(e) => e < now,
            None => false,
        }
    }

    /// Whether the session is expired at the current time.  A session
    /// without an expiry is never expired.
    pub fn is_expired(&self) -> (r: bool)
        ensures
            self@.expiry is None ==> r == false,
            r ==> self@.expiry is Some,
    {
        let now = now_unix();
        self.is_expired_at(now)
    }

    /// Yields the session unchanged when it is not expired at `now`,
    /// and nothing when it is.
    pub fn validate_at(self, now: i64) -> (r: Option<Session>)
        ensures
            self@.is_expired_at(now) ==> r is None,
            !self@.is_expired_at(now) ==> r == Some(self),
    {
        if self.is_expired_at(now) {
            None
        } else {
            Some(self)
        }
    }

    /// Yields the session unchanged when it is not expired at the
    /// current time, and nothing when it is.
    pub fn validate(self) -> (r: Option<Session>)
        ensures
            r matches Some(s) ==> s == self,
            self@.expiry is None ==> r == Some(self),
            r is None ==> self@.expiry is Some,
    {
        let now = now_unix();
        self.validate_at(now)
    }

    /// The whole seconds from `now` until the expiry, or nothing when
    /// the expiry is absent or already past.
    pub fn expires_in_at(&self, now: i64) -> (r: Option<u64>)
        ensures
            r == secs_until(self@.expiry, now),
    {
        match self.expiry {
            Some(e) => if e < now {
                None
            } else {
                let diff: i128 = e as i128 - now as i128;
                Some(diff as u64)
            },
            None => None,
        }
    }

    /// The whole seconds from the current time until the expiry.
    pub fn expires_in(&self) -> (r: Option<u64>)
        ensures
            self@.expiry is None ==> r is None,
            r is Some ==> self@.expiry is Some,
    {
        let now = now_unix();
        self.expires_in_at(now)
    }

    /// Whether the data differs from its last-reset baseline.
    pub fn data_changed(&self) -> (r: bool)
        ensures
            r == self@.data_changed,
    {
        self.data_changed
    }

    /// Resets dirty tracking.
    pub fn reset_data_changed(&mut self)
        ensures
            final(self)@ == (SessionView { data_changed: false, ..old(self)@ }),
    {
        self.data_changed = false;
    }

    /// Takes the pending cookie value, consuming the session; at most
    /// one emission of the secret per store cycle.
    pub fn into_cookie_value(self) -> (r: Option<String>)
        ensures
            match r {
                Some(cv) => self@.cookie_value == Some(cv@),
                None => self@.cookie_value is None,
            },
    {
        let mut s = self;
        s.take_cookie_value()
    }

    /// Takes the pending cookie value, leaving none behind; at most one
    /// emission of the secret per store cycle.
    pub fn take_cookie_value(&mut self) -> (r: Option<String>)
        ensures
            final(self)@ == (SessionView { cookie_value: None, ..old(self)@ }),
            match r {
                Some(cv) => old(self)@.cookie_value == Some(cv@),
                None => old(self)@.cookie_value is None,
            },
    {
        let r = match &self.cookie_value {
            Some(cv) => Some(cv.clone()),
            None => None,
        };
        self.cookie_value = None;
        r
    }
}

impl Clone for Session {
    /// A clone denotes the same abstract session.
    fn clone(&self) -> (res: Self)
        ensures
            res@ == self@,
    {
        let mut data: Vec<(String, Value)> = Vec::new();
        let mut i: usize = 0;
        while i < self.data.len()
            invariant
                i <= self.data@.len(),
                data@.len() == i,
                forall|j: int|
                    0 <= j < i ==> (#[trigger] data@[j]).0@ == self.data@[j].0@ && data@[j].1@
                        == self.data@[j].1@,
            decreases self.data@.len() - i,
        {
            let pair = (self.data[i].0.clone(), self.data[i].1.clone());
            data.push(pair);
            i = i + 1;
        }
        let res = Session {
            id: self.id.clone(),
            expiry: self.expiry,
            data,
            cookie_value: match &self.cookie_value {
                Some(cv) => Some(cv.clone()),
                None => None,
            },
            data_changed: self.data_changed,
            destroy: self.destroy,
        };
        proof {
            assert(entries_view(res.data@) =~= entries_view(self.data@));
        }
        res
    }
}

impl Default for Session {
    /// A default session is a fresh one.
    fn default() -> (r: Session)
        ensures
            r.wf(),
            r@.expiry is None,
            r@.data == Seq::<(Seq<char>, SpecValue)>::empty(),
            r@.data_changed == false,
            r@.destroy == false,
            r@.cookie_value is Some,
    {
        Session::new()
    }
}

impl PartialEq for Session {
    /// Session equality is identity equality: equal ids, nothing more.
    fn eq(&self, other: &Session) -> (r: bool) {
        self.id == other.id
    }
}

impl vstd::std_specs::cmp::PartialEqSpecImpl for Session {
    open spec fn obeys_eq_spec() -> bool {
        true
    }

    open spec fn eq_spec(&self, other: &Session) -> bool {
        self@.id == other@.id
    }
}

/// Re-inserting a value a key already holds keeps the dirty tracker
/// where it was: after one insert of `val` under `k`, a second insert
/// of `val` finds the key present with an equal value, so the
/// tracker's update rule leaves its prior state `flag` unchanged.
pub proof fn lemma_repeat_insert_keeps_flag(
    m: Map<Seq<char>, SpecValue>,
    k: Seq<char>,
    val: SpecValue,
    flag: bool,
)
    ensures
        ({
            let m1 = m.insert(k, val);
            (flag || !(m1.contains_key(k) && m1[k] == val)) == flag
        }),
{
}

/// A session set to expire `ttl_secs` after `now` counts as live at
/// every time up to its expiry and as expired at every later time.
pub proof fn lemma_expiry_window(v: SessionView, now: i64, ttl_secs: u64, t: i64)
    ensures
        ({
            let v2 = SessionView { expiry: Some(expiry_after(now, ttl_secs)), ..v };
            &&& (t <= expiry_after(now, ttl_secs) ==> !v2.is_expired_at(t))
            &&& (t > expiry_after(now, ttl_secs) ==> v2.is_expired_at(t))
        }),
{
}

} // verus!

use vstd::prelude::*;
use crate::clock::now_unix;
use crate::codec::{b64_decode, b64_decode_of, b64_encode, b64_of};
use crate::kv::{assoc_map, keys_unique};
use crate::session::{Session, SessionView};
use crate::value::SpecValue;
use crate::wire::{decode_session, dec_session, enc_session, encode_session, entries_len_ok,
    fits_word, lemma_dec_session_enc};

verus! {

/// The error of the cookie store: the cookie value was not valid
/// base64, or the decoded bytes were not a serialized session.
#[derive(Debug, Clone, Copy, PartialEq, Eq, Structural)]
pub enum CookieStoreError {
    Base64,
    Deserialize,
}

/// Whether an optional expiry lies strictly in the past of `now`.
pub open spec fn expiry_past(expiry: Option<i64>, now: i64) -> bool {
    match expiry {
        Some(e) => e < now,
        None => false,
    }
}

/// A store with no server-side state: the whole session travels,
/// serialized and base64-encoded, in the cookie value itself.
pub struct CookieStore;

impl CookieStore {
    /// Creates a cookie store; it holds nothing.
    pub fn new() -> CookieStore {
        CookieStore
    }

    /// Serializes the session's durable parts into a fresh cookie
    /// value; a cookie value is always issued.
    pub fn store_session(&self, session: &Session) -> (r: Result<
        Option<String>,
        CookieStoreError,
    >)
        ensures
            (r matches Ok(c) ==> c matches Some(cv) && cv@ == b64_of(
                enc_session(session@.id, session@.expiry, session@.data),
            ) && b64_decode_of(cv@) == Some(
                enc_session(session@.id, session@.expiry, session@.data),
            )),
            r is Ok,
    {
        let bytes = encode_session(session);
        Ok(Some(b64_encode(bytes.as_slice())))
    }

    /// Decodes the cookie value back into a session at time `now`:
    /// invalid base64 and malformed bytes are the two errors, an
    /// expired session is nothing, and a live one is returned with the
    /// decoded id, expiry and data.
    pub fn load_session_at(&self, cookie_value: &str, now: i64) -> (r: Result<
        Option<Session>,
        CookieStoreError,
    >)
        ensures
            match b64_decode_of(cookie_value@) {
                None => (r matches Err(e) && e == CookieStoreError::Base64),
                Some(bytes) => match dec_session(bytes) {
                    None => (r matches Err(e) && e == CookieStoreError::Deserialize),
                    Some(parts) => if expiry_past(parts.1, now) {
                        (r matches Ok(o) && o is None)
                    } else {
                        (r matches Ok(o) && o matches Some(s) && s.wf() && s@.id == parts.0
                            && s@.expiry == parts.1 && s@.data_map() == assoc_map(parts.2)
                            && s@.cookie_value is None && s@.data_changed == false && s@.destroy
                            == false)
                    },
                },
            },
    {
        let bytes = match b64_decode(cookie_value) {
            Ok(b) => b,
            Err(_) => {
                return Err(CookieStoreError::Base64);
            },
        };
        let session = match decode_session(&bytes) {
            Some(s) => s,
            None => {
                return Err(CookieStoreError::Deserialize);
            },
        };
        Ok(session.validate_at(now))
    }

    /// Decodes the cookie value back into a session at the current
    /// time.
    pub fn load_session(&self, cookie_value: &str) -> (r: Result<Option<Session>, CookieStoreError>)
        ensures
            (r matches Err(e) ==> (e == CookieStoreError::Base64 <==> b64_decode_of(cookie_value@)
                is None)),
            (r is Err <==> (b64_decode_of(cookie_value@) is None || dec_session(
                b64_decode_of(cookie_value@)->0,
            ) is None)),
            (r matches Ok(o) ==> o is None ==> (dec_session(
                b64_decode_of(cookie_value@)->0,
            )->0).1 is Some),
            (r matches Ok(o) ==> o matches Some(s) ==> ({
                let parts = dec_session(b64_decode_of(cookie_value@)->0)->0;
                &&& s.wf()
                &&& s@.id == parts.0
                &&& s@.expiry == parts.1
                &&& s@.data_map() == assoc_map(parts.2)
                &&& s@.cookie_value is None
                &&& s@.data_changed == false
                &&& s@.destroy == false
            })),
    {
        let now = now_unix();
        self.load_session_at(cookie_value, now)
    }

    /// There is no server-side record to remove: a no-op that always
    /// succeeds.
    pub fn destroy_session(&self, _session: &Session) -> (r: Result<(), CookieStoreError>)
        ensures
            r is Ok,
    {
        Ok(())
    }

    /// There is no server-side state to clear: a no-op that always
    /// succeeds.
    pub fn clear_store(&self) -> (r: Result<(), CookieStoreError>)
        ensures
            r is Ok,
    {
        Ok(())
    }
}

impl Default for CookieStore {
    /// A default cookie store; it holds nothing.
    fn default() -> CookieStore {
        CookieStore::new()
    }
}

/// The round trip of the cookie store: decoding what `store_session`
/// issued for a session finds exactly the session's durable parts —
/// the same id, the same expiry, and data denoting the same map.
pub proof fn lemma_cookie_round_trip(v: SessionView)
    requires
        keys_unique(v.data),
        fits_word(v.id.len()),
        fits_word(v.data.len()),
        entries_len_ok(v.data),
    ensures
        ({
            let bytes = enc_session(v.id, v.expiry, v.data);
            let parts = dec_session(bytes)->0;
            &&& dec_session(bytes) is Some
            &&& parts.0 == v.id
            &&& parts.1 == v.expiry
            &&& assoc_map(parts.2) == v.data_map()
        }),
{
    lemma_dec_session_enc(v.id, v.expiry, v.data);
}

} // verus!

//! A session abstraction for stateful HTTP-style interactions.
//!
//! A [`Session`](session::Session) is a record of keyed application
//! data together with a derived identity, dirty tracking and expiry
//! handling.  Two store backends persist sessions keyed by an opaque
//! cookie value: an in-memory store and a store that encodes the whole
//! session into the cookie value itself.

pub mod clock;
pub mod codec;
pub mod cookie_store;
pub mod kv;
pub mod memory_store;
pub mod session;
pub mod value;
pub mod wire;

pub use cookie_store::CookieStore;
pub use memory_store::MemoryStore;
pub use session::Session;
pub use value::Value;

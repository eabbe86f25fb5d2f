//! A cookie jar shared between threads: it records the cookies of HTTP
//! responses in a `cookie_store::CookieStore` held behind a mutex, builds the
//! `Cookie` header of outgoing requests, and finds or removes cookies by name.
//!
//! Policies:
//! - A response header that the engine turns down is skipped and reported by
//!   position; the rest of the batch is still applied. A header that is not
//!   text ends the batch, with the headers before it applied.
//! - A lock poisoned by a panicking holder is recovered from by default; a jar
//!   built with `LockPolicy::FailFast` reports it instead.
//! - A cookie is removed under the domain, path and name the engine files it
//!   by, so every listed cookie has a key to be removed with.

pub mod engine;
pub mod header;
pub mod jar;
pub mod store;

//! A cookie session library: a verified Set-Cookie parser, a verified
//! cookie store with URL-based matching and expiration, a synchronized
//! jar, and the decision logic of a cookie-aware request middleware.
pub mod cookie;
pub mod jar;
pub mod laws;
pub mod middleware;
pub mod request_url;
pub mod store;
pub mod strutil;

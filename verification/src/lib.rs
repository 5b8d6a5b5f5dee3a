//! A configuration-driven reverse-proxy gateway library.
//!
//! The crate holds the decision logic of the gateway: host-based route
//! planning, CORS gating, upstream-error interception, the cookie codec for
//! auth token bundles, the authorization gate state machine, and the HTML
//! snippet injection for client-side token revalidation. All wire and file
//! I/O stays outside; the functions here take and return plain values.

pub mod auth;
pub mod b64;
pub mod client;
pub mod config;
pub mod cookies;
pub mod cors;
pub mod errors;
pub mod http;
pub mod inject;
pub mod lifecycle;
pub mod provision;
pub mod proxy;
pub mod routes;
pub mod text;

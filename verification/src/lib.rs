//! A recording and replaying HTTP proxy, as a library of verified decisions.
//!
//! The server around this library receives requests and performs the network
//! and file operations; every decision about a request is taken here: which
//! handler a request belongs to, which session it speaks for, what is stored
//! in a session while recording, and which stored response is served on
//! replay.
//!
//! A request is handed to [`pipeline::ProxyState::handle_request`], which
//! answers with an [`pipeline::Action`]: the answer to send, or the outside
//! work to do before there is an answer. When that work is done, its outcome
//! goes to [`pipeline::ProxyState::captured`], [`pipeline::ProxyState::replay`]
//! or [`pipeline::ProxyState::persisted`], which give the answer.
//!
//! - [`pipeline`]: the handlers, and what holds of them across requests.
//! - [`store`], [`records`], [`strmap`]: the sessions and what they hold.
//! - [`session`]: the session cookie.
//! - [`forward`], [`capture`], [`status`], [`response`]: what goes upstream,
//!   what comes back, and what is kept of it.
//! - [`snapshot`], [`json`]: the snapshot file.
//! - [`config`], [`cli`]: how the proxy is set up.
//! - [`text`]: helpers for text.

pub mod capture;
pub mod cli;
pub mod config;
pub mod forward;
pub mod json;
pub mod pipeline;
pub mod records;
pub mod response;
pub mod session;
pub mod snapshot;
pub mod status;
pub mod store;
pub mod strmap;
pub mod text;

//! Request-handling core of a tracker-blocking forward proxy.
//!
//! - `tracker_blocker`: the blocklist with exact and suffix matching, its
//!   file format, and the stripping of tracking parameters from URLs.
//! - `ai_tracker`: the heuristic classifier that flags likely trackers.
//! - `shared_state`: the hub of switches, log, statistics and suggestions.
//! - `run_proxy`: the decision that the proxy takes on each request.
//! - `text`, `url_parts`, `clock`: text operations, and the calls into the
//!   standard library's Unicode tables, the `url` crate and the `chrono`
//!   clock. The functions marked `external_body` there are trusted; all
//!   other code is proved against its contract.

pub mod ai_tracker;
pub mod clock;
pub mod run_proxy;
pub mod shared_state;
pub mod text;
pub mod tracker_blocker;
pub mod url_parts;

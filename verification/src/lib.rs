//! A short-lived WebSocket rendezvous relay: two endpoints connect to the
//! same opaque channel identifier and exchange framed text messages through
//! an in-process broker, which enforces per-channel capacity and per-session
//! quotas, derives client IPs under a trusted-proxy policy, and drives the
//! heartbeat/expiry state machine for each attached session.

pub mod broker;
pub mod channelid;
pub mod error;
pub mod ip;
pub mod json;
pub mod lang;
pub mod logging;
pub mod meta;
pub mod metrics;
pub mod reputation;
pub mod routes;
pub mod session;
pub mod settings;
pub mod text;

//! Route classification for the WebSocket endpoint, and the health
//! endpoint body. The HTTP plumbing itself lives outside the library.

use vstd::prelude::*;

verus! {

use vstd::string::StringExecFns;
use crate::channelid::{ChannelID, is_valid_encoding, decoded_bytes};

/// How a connection request is classed, for the `conn.request` counter.
#[derive(Clone, Copy, Debug, PartialEq, Eq, Structural)]
pub enum RouteTag {
    /// An empty identifier: a new channel.
    New,
    /// A well-formed identifier: a join.
    Existing,
    /// A malformed identifier: a routing failure.
    RouteError,
    /// No path segment at all.
    NoPath,
}

impl RouteTag {
    /// The tag value the counter is emitted with.
    pub open spec fn text(self) -> Seq<char> {
        match self {
            RouteTag::New => "new"@,
            RouteTag::Existing => "existing"@,
            RouteTag::RouteError => "error"@,
            RouteTag::NoPath => "none"@,
        }
    }

    /// The tag value the counter is emitted with.
    pub fn as_str(&self) -> (r: &'static str)
        ensures
            r@ == self.text(),
    {
        match self {
            RouteTag::New => "new",
            RouteTag::Existing => "existing",
            RouteTag::RouteError => "error",
            RouteTag::NoPath => "none",
        }
    }
}

/// What the connection route decided: the channel to join (none means a
/// fresh identifier must be generated), whether the request may create
/// the channel, and the request's class.
pub struct RouteDecision {
    pub channel: Option<ChannelID>,
    pub initial_connect: bool,
    pub tag: RouteTag,
}

/// Class the last path segment of a connection request. Only an absent
/// or empty segment may create a channel; a well-formed identifier joins
/// an existing one; a malformed identifier is a routing failure — the
/// session proceeds under a fresh identifier it may not create, so the
/// broker rejects it after the upgrade and no channel comes into being.
pub fn classify_route(tail: Option<&str>) -> (r: RouteDecision)
    ensures
        match tail {
            None => r.channel is None && r.initial_connect && r.tag == RouteTag::NoPath,
            Some(t) => {
                if t@.len() == 0 {
                    r.channel is None && r.initial_connect && r.tag == RouteTag::New
                } else if is_valid_encoding(t@) {
                    &&& r.channel matches Some(id) && id.bytes() == decoded_bytes(t@)
                    &&& !r.initial_connect
                    &&& r.tag == RouteTag::Existing
                } else {
                    r.channel is None && !r.initial_connect && r.tag == RouteTag::RouteError
                }
            },
        },
{
    match tail {
        None => RouteDecision { channel: None, initial_connect: true, tag: RouteTag::NoPath },
        Some(t) => {
            if t.unicode_len() == 0 {
                RouteDecision { channel: None, initial_connect: true, tag: RouteTag::New }
            } else {
                match ChannelID::from_str(t) {
                    Ok(id) => RouteDecision {
                        channel: Some(id),
                        initial_connect: false,
                        tag: RouteTag::Existing,
                    },
                    Err(_) => RouteDecision {
                        channel: None,
                        initial_connect: false,
                        tag: RouteTag::RouteError,
                    },
                }
            }
        },
    }
}

/// The health endpoint's JSON body for a given package version.
pub fn heartbeat_body(version: &str) -> (r: String)
    ensures
        r@ == "{\"status\":\"ok\",\"version\":\""@ + version@ + "\"}"@,
{
    let mut r = String::from_str("{\"status\":\"ok\",\"version\":\"");
    r.append(version);
    r.append("\"}");
    r
}

} // verus!

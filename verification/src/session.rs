//! The per-socket session state machine: it registers with the broker,
//! reacts to WebSocket frames and broker controls, and honors the idle
//! and lifespan deadlines. The machine only decides; the caller performs
//! each returned action (socket writes, broker sends, metric counts) and
//! hands back the events.

use vstd::prelude::*;

verus! {

use crate::broker::{ClientMessage, Disconnect, DisconnectReason, MessageType, TextMessage};
use crate::channelid::ChannelID;
use crate::meta::SenderData;

/// Where a session stands.
#[derive(Clone, Copy, Debug, PartialEq, Eq, Structural)]
pub enum SessionPhase {
    /// Awaiting the broker's reply to Connect.
    Connecting,
    /// Registered; frames flow.
    Attached,
    /// On the way down; the socket closes.
    Closing,
}

/// One inbound WebSocket frame, as the state machine sees it.
pub enum WsFrame {
    Ping(Vec<u8>),
    Pong(Vec<u8>),
    Text(String),
    Binary(Vec<u8>),
    Close,
    Continuation,
    Nop,
}

/// One thing the caller must do for the session.
pub enum SessionAction {
    /// Write a pong with the given payload.
    ReplyPong(Vec<u8>),
    /// Send the message to the broker.
    Forward(ClientMessage),
    /// Send the disconnect to the broker.
    SendDisconnect(Disconnect),
    /// Write a text frame to the socket.
    WriteText(String),
    /// Write a ping to the socket.
    SendPing,
    /// Close the socket and stop the session task.
    CloseSocket,
    /// Count one `conn.expired`.
    CountExpired,
    /// Count one `conn.timeout`.
    CountTimeout,
    /// Record a `conn.length` of so many milliseconds.
    TimeConnLength(u64),
}

/// One WebSocket session. All instants are caller-supplied milliseconds.
pub struct WsChannelSession {
    /// The broker-assigned session id; 0 until attached.
    pub id: u64,
    /// The last-heartbeat instant.
    pub hb: u64,
    /// When the session started.
    pub started: u64,
    /// The joined channel.
    pub channel: ChannelID,
    /// Whether this session may create the channel.
    pub initial_connect: bool,
    /// The sender metadata snapshot.
    pub meta: SenderData,
    /// Where the session stands.
    pub phase: SessionPhase,
}

impl WsChannelSession {
    /// A session about to register with the broker.
    pub fn new(channel: ChannelID, initial_connect: bool, meta: SenderData, now: u64) -> (r:
        WsChannelSession)
        ensures
            r.id == 0,
            r.hb == now,
            r.started == now,
            r.channel == channel,
            r.initial_connect == initial_connect,
            r.meta == meta,
            r.phase == SessionPhase::Connecting,
    {
        WsChannelSession {
            id: 0,
            hb: now,
            started: now,
            channel,
            initial_connect,
            meta,
            phase: SessionPhase::Connecting,
        }
    }

    /// Take the broker's reply to Connect: a zero id is a rejection and
    /// closes the session; any other id attaches it.
    pub fn on_connect_reply(&mut self, session_id: u64) -> (close: bool)
        ensures
            final(self).hb == old(self).hb,
            final(self).started == old(self).started,
            final(self).channel == old(self).channel,
            final(self).initial_connect == old(self).initial_connect,
            final(self).meta == old(self).meta,
            session_id == 0 ==> close && final(self).phase == SessionPhase::Closing && final(self).id == old(self).id,
            session_id != 0 ==> !close && final(self).phase == SessionPhase::Attached && final(self).id == session_id,
    {
        if session_id == 0 {
            self.phase = SessionPhase::Closing;
            true
        } else {
            self.id = session_id;
            self.phase = SessionPhase::Attached;
            false
        }
    }

    /// React to one inbound frame. Ping, pong and text refresh the
    /// heartbeat; text is forwarded to the broker; binary is dropped;
    /// close tells the broker and closes; a continuation closes without
    /// telling the broker first, as the session does not reassemble.
    pub fn on_frame(&mut self, frame: WsFrame, now: u64) -> (r: Vec<SessionAction>)
        ensures
            final(self).id == old(self).id,
            final(self).started == old(self).started,
            final(self).channel == old(self).channel,
            final(self).initial_connect == old(self).initial_connect,
            final(self).meta == old(self).meta,
            match frame {
                WsFrame::Ping(p) => final(self).hb == now && final(self).phase == old(self).phase
                    && r@ == seq![SessionAction::ReplyPong(p)],
                WsFrame::Pong(_) => final(self).hb == now && final(self).phase == old(self).phase
                    && r@.len() == 0,
                WsFrame::Text(t) => final(self).hb == now && final(self).phase == old(self).phase
                    && r@ == seq![
                    SessionAction::Forward(
                        ClientMessage {
                            id: old(self).id,
                            message_type: MessageType::Text,
                            msg: t,
                            channel: old(self).channel,
                            sender: old(self).meta,
                        },
                    ),
                ],
                WsFrame::Binary(_) => *final(self) == *old(self) && r@.len() == 0,
                WsFrame::Close => final(self).hb == old(self).hb && final(self).phase
                    == SessionPhase::Closing && r@ == seq![
                    SessionAction::SendDisconnect(
                        Disconnect {
                            channel: old(self).channel,
                            id: old(self).id,
                            reason: DisconnectReason::Normal,
                        },
                    ),
                    SessionAction::CloseSocket,
                ],
                WsFrame::Continuation => final(self).hb == old(self).hb && final(self).phase
                    == SessionPhase::Closing && r@ == seq![SessionAction::CloseSocket],
                WsFrame::Nop => *final(self) == *old(self) && r@.len() == 0,
            },
    {
        let mut r: Vec<SessionAction> = Vec::new();
        match frame {
            WsFrame::Ping(p) => {
                self.hb = now;
                r.push(SessionAction::ReplyPong(p));
                proof {
                    assert(r@ =~= seq![SessionAction::ReplyPong(p)]);
                }
            },
            WsFrame::Pong(_) => {
                self.hb = now;
            },
            WsFrame::Text(t) => {
                self.hb = now;
                let cm = ClientMessage {
                    id: self.id,
                    message_type: MessageType::Text,
                    msg: t,
                    channel: self.channel,
                    sender: self.meta.duplicate(),
                };
                r.push(SessionAction::Forward(cm));
            },
            WsFrame::Binary(_) => {},
            WsFrame::Close => {
                self.phase = SessionPhase::Closing;
                r.push(
                    SessionAction::SendDisconnect(
                        Disconnect {
                            channel: self.channel,
                            id: self.id,
                            reason: DisconnectReason::Normal,
                        },
                    ),
                );
                r.push(SessionAction::CloseSocket);
            },
            WsFrame::Continuation => {
                self.phase = SessionPhase::Closing;
                r.push(SessionAction::CloseSocket);
            },
            WsFrame::Nop => {},
        }
        r
    }

    /// React to a broker-initiated control: text goes out on the socket;
    /// a terminate closes the session.
    pub fn on_broker_message(&mut self, msg: TextMessage) -> (r: Vec<SessionAction>)
        ensures
            final(self).id == old(self).id,
            final(self).hb == old(self).hb,
            final(self).started == old(self).started,
            final(self).channel == old(self).channel,
            final(self).initial_connect == old(self).initial_connect,
            final(self).meta == old(self).meta,
            match msg {
                TextMessage(MessageType::Terminate, _) => final(self).phase
                    == SessionPhase::Closing && r@ == seq![SessionAction::CloseSocket],
                TextMessage(MessageType::Text, body) => final(self).phase == old(self).phase && r@
                    == seq![SessionAction::WriteText(body)],
            },
    {
        let mut r: Vec<SessionAction> = Vec::new();
        match msg {
            TextMessage(MessageType::Terminate, _) => {
                self.phase = SessionPhase::Closing;
                r.push(SessionAction::CloseSocket);
            },
            TextMessage(MessageType::Text, body) => {
                r.push(SessionAction::WriteText(body));
            },
        }
        r
    }

    /// The idle interval at `now`.
    pub open spec fn idle_ms(self, now: u64) -> int {
        if now >= self.hb {
            now - self.hb
        } else {
            0
        }
    }

    /// The session's age at `now`.
    pub open spec fn age_ms(self, now: u64) -> int {
        if now >= self.started {
            now - self.started
        } else {
            0
        }
    }

    /// One heartbeat tick. An idle session (past `client_timeout`) is
    /// expired; one alive past `conn_lifespan` is timed out; otherwise a
    /// ping goes out. Both deadlines disconnect with the timeout reason
    /// and close the session, counting `conn.expired` or `conn.timeout`.
    pub fn on_heartbeat_tick(&mut self, now: u64, client_timeout_ms: u64, conn_lifespan_ms: u64)
        -> (r: Vec<SessionAction>)
        ensures
            final(self).id == old(self).id,
            final(self).hb == old(self).hb,
            final(self).started == old(self).started,
            final(self).channel == old(self).channel,
            final(self).initial_connect == old(self).initial_connect,
            final(self).meta == old(self).meta,
            old(self).idle_ms(now) > client_timeout_ms ==> final(self).phase
                == SessionPhase::Closing && r@ == seq![
                SessionAction::CountExpired,
                SessionAction::SendDisconnect(
                    Disconnect {
                        channel: old(self).channel,
                        id: old(self).id,
                        reason: DisconnectReason::Timeout,
                    },
                ),
                SessionAction::CloseSocket,
            ],
            old(self).idle_ms(now) <= client_timeout_ms && old(self).age_ms(now)
                > conn_lifespan_ms ==> final(self).phase == SessionPhase::Closing && r@ == seq![
                SessionAction::CountTimeout,
                SessionAction::SendDisconnect(
                    Disconnect {
                        channel: old(self).channel,
                        id: old(self).id,
                        reason: DisconnectReason::Timeout,
                    },
                ),
                SessionAction::CloseSocket,
            ],
            old(self).idle_ms(now) <= client_timeout_ms && old(self).age_ms(now)
                <= conn_lifespan_ms ==> *final(self) == *old(self) && r@ == seq![
                SessionAction::SendPing,
            ],
    {
        let mut r: Vec<SessionAction> = Vec::new();
        let idle: u64 = if now >= self.hb {
            now - self.hb
        } else {
            0
        };
        let age: u64 = if now >= self.started {
            now - self.started
        } else {
            0
        };
        if idle > client_timeout_ms {
            self.phase = SessionPhase::Closing;
            r.push(SessionAction::CountExpired);
            r.push(
                SessionAction::SendDisconnect(
                    Disconnect {
                        channel: self.channel,
                        id: self.id,
                        reason: DisconnectReason::Timeout,
                    },
                ),
            );
            r.push(SessionAction::CloseSocket);
        } else if age > conn_lifespan_ms {
            self.phase = SessionPhase::Closing;
            r.push(SessionAction::CountTimeout);
            r.push(
                SessionAction::SendDisconnect(
                    Disconnect {
                        channel: self.channel,
                        id: self.id,
                        reason: DisconnectReason::Timeout,
                    },
                ),
            );
            r.push(SessionAction::CloseSocket);
        } else {
            r.push(SessionAction::SendPing);
        }
        r
    }

    /// The session task is stopping: record its length and send the
    /// final (idempotent) disconnect.
    pub fn on_stop(&mut self, now: u64) -> (r: Vec<SessionAction>)
        ensures
            final(self).id == old(self).id,
            final(self).hb == old(self).hb,
            final(self).started == old(self).started,
            final(self).channel == old(self).channel,
            final(self).initial_connect == old(self).initial_connect,
            final(self).meta == old(self).meta,
            final(self).phase == SessionPhase::Closing,
            r@ == seq![
                SessionAction::TimeConnLength(old(self).age_ms(now) as u64),
                SessionAction::SendDisconnect(
                    Disconnect {
                        channel: old(self).channel,
                        id: old(self).id,
                        reason: DisconnectReason::Normal,
                    },
                ),
            ],
    {
        self.phase = SessionPhase::Closing;
        let age: u64 = if now >= self.started {
            now - self.started
        } else {
            0
        };
        let mut r: Vec<SessionAction> = Vec::new();
        r.push(SessionAction::TimeConnLength(age));
        r.push(
            SessionAction::SendDisconnect(
                Disconnect {
                    channel: self.channel,
                    id: self.id,
                    reason: DisconnectReason::Normal,
                },
            ),
        );
        r
    }
}

} // verus!

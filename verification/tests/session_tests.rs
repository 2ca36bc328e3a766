use channelserver::broker::{DisconnectReason, MessageType, TextMessage};
use channelserver::channelid::ChannelID;
use channelserver::meta::SenderData;
use channelserver::session::{SessionAction, SessionPhase, WsChannelSession, WsFrame};

fn session() -> WsChannelSession {
    WsChannelSession::new(
        ChannelID::from_bytes([1u8; 16]),
        true,
        SenderData::default(),
        1_000,
    )
}

#[test]
fn rejected_connect_closes() {
    let mut s = session();
    assert_eq!(s.phase, SessionPhase::Connecting);
    assert!(s.on_connect_reply(0));
    assert_eq!(s.phase, SessionPhase::Closing);
}

#[test]
fn accepted_connect_attaches() {
    let mut s = session();
    assert!(!s.on_connect_reply(42));
    assert_eq!(s.id, 42);
    assert_eq!(s.phase, SessionPhase::Attached);
}

#[test]
fn ping_refreshes_heartbeat_and_pongs() {
    let mut s = session();
    s.on_connect_reply(42);
    let acts = s.on_frame(WsFrame::Ping(vec![1, 2]), 5_000);
    assert_eq!(s.hb, 5_000);
    assert!(matches!(&acts[..], [SessionAction::ReplyPong(p)] if p == &vec![1, 2]));
}

#[test]
fn text_is_forwarded_to_broker() {
    let mut s = session();
    s.on_connect_reply(42);
    let acts = s.on_frame(WsFrame::Text("hello".to_owned()), 6_000);
    assert_eq!(s.hb, 6_000);
    assert_eq!(acts.len(), 1);
    match &acts[0] {
        SessionAction::Forward(cm) => {
            assert_eq!(cm.id, 42);
            assert_eq!(cm.message_type, MessageType::Text);
            assert_eq!(cm.msg, "hello");
        }
        _ => panic!("expected a forward"),
    }
}

#[test]
fn binary_is_dropped() {
    let mut s = session();
    s.on_connect_reply(42);
    let acts = s.on_frame(WsFrame::Binary(vec![0, 1]), 6_000);
    assert!(acts.is_empty());
    assert_eq!(s.phase, SessionPhase::Attached);
}

#[test]
fn close_tells_broker_and_closes() {
    let mut s = session();
    s.on_connect_reply(42);
    let acts = s.on_frame(WsFrame::Close, 6_000);
    assert_eq!(s.phase, SessionPhase::Closing);
    assert_eq!(acts.len(), 2);
    match &acts[0] {
        SessionAction::SendDisconnect(d) => {
            assert_eq!(d.id, 42);
            assert_eq!(d.reason, DisconnectReason::Normal);
        }
        _ => panic!("expected a disconnect"),
    }
    assert!(matches!(acts[1], SessionAction::CloseSocket));
}

#[test]
fn continuation_closes_without_reassembly() {
    let mut s = session();
    s.on_connect_reply(42);
    let acts = s.on_frame(WsFrame::Continuation, 6_000);
    assert_eq!(s.phase, SessionPhase::Closing);
    assert!(matches!(&acts[..], [SessionAction::CloseSocket]));
}

#[test]
fn broker_text_reaches_socket() {
    let mut s = session();
    s.on_connect_reply(42);
    let acts = s.on_broker_message(TextMessage(MessageType::Text, "payload".to_owned()));
    assert!(matches!(&acts[..], [SessionAction::WriteText(t)] if t == "payload"));
    assert_eq!(s.phase, SessionPhase::Attached);
}

#[test]
fn broker_terminate_closes() {
    let mut s = session();
    s.on_connect_reply(42);
    let acts = s.on_broker_message(TextMessage(MessageType::Terminate, "\u{4}".to_owned()));
    assert!(matches!(&acts[..], [SessionAction::CloseSocket]));
    assert_eq!(s.phase, SessionPhase::Closing);
}

#[test]
fn idle_timeout_expires_session() {
    // client_timeout of 10 s: past it, the session is expired.
    let mut s = session();
    s.on_connect_reply(42);
    let acts = s.on_heartbeat_tick(1_000 + 10_001, 10_000, 60_000);
    assert_eq!(s.phase, SessionPhase::Closing);
    assert_eq!(acts.len(), 3);
    assert!(matches!(acts[0], SessionAction::CountExpired));
    match &acts[1] {
        SessionAction::SendDisconnect(d) => assert_eq!(d.reason, DisconnectReason::Timeout),
        _ => panic!("expected a disconnect"),
    }
    assert!(matches!(acts[2], SessionAction::CloseSocket));
}

#[test]
fn lifespan_expiry_times_out_session() {
    // conn_lifespan of 60 s: an active session past it is timed out.
    let mut s = session();
    s.on_connect_reply(42);
    // Stay active: frames keep refreshing the heartbeat.
    s.on_frame(WsFrame::Pong(vec![]), 56_000);
    let acts = s.on_heartbeat_tick(61_001, 10_000, 60_000);
    assert_eq!(s.phase, SessionPhase::Closing);
    assert_eq!(acts.len(), 3);
    assert!(matches!(acts[0], SessionAction::CountTimeout));
    match &acts[1] {
        SessionAction::SendDisconnect(d) => assert_eq!(d.reason, DisconnectReason::Timeout),
        _ => panic!("expected a disconnect"),
    }
}

#[test]
fn quiet_tick_pings() {
    let mut s = session();
    s.on_connect_reply(42);
    let acts = s.on_heartbeat_tick(2_000, 10_000, 60_000);
    assert!(matches!(&acts[..], [SessionAction::SendPing]));
    assert_eq!(s.phase, SessionPhase::Attached);
}

#[test]
fn stop_records_session_length() {
    let mut s = session();
    s.on_connect_reply(42);
    let acts = s.on_stop(4_500);
    assert_eq!(s.phase, SessionPhase::Closing);
    assert_eq!(acts.len(), 2);
    assert!(matches!(acts[0], SessionAction::TimeConnLength(3_500)));
    match &acts[1] {
        SessionAction::SendDisconnect(d) => assert_eq!(d.reason, DisconnectReason::Normal),
        _ => panic!("expected a disconnect"),
    }
}

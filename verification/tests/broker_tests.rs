use channelserver::broker::{
    reconnect_check, Channel, ChannelServer, ClientMessage, Connect, MessageType,
};
use channelserver::channelid::ChannelID;
use channelserver::meta::SenderData;
use channelserver::settings::Settings;

fn member(session_id: u64, remote: Option<&str>) -> Channel {
    Channel {
        session_id,
        started: 0,
        msg_count: 0,
        data_exchanged: 0,
        remote: remote.map(|r| r.to_owned()),
    }
}

fn broker(max_conn: u8, max_exchanges: u8, max_data: u64) -> ChannelServer {
    let mut settings = Settings::default();
    settings.max_channel_connections = max_conn;
    settings.max_exchanges = max_exchanges;
    settings.max_data = max_data;
    ChannelServer::new(settings)
}

fn join(b: &mut ChannelServer, id: ChannelID, remote: &str, initial: bool) -> u64 {
    let (sid, _) = b.handle_connect(
        Connect { channel: id, remote: Some(remote.to_owned()), initial_connect: initial },
        0,
    );
    sid
}

fn text(id: u64, chan: ChannelID, msg: &str) -> ClientMessage {
    ClientMessage {
        id,
        message_type: MessageType::Text,
        msg: msg.to_owned(),
        channel: chan,
        sender: SenderData::default(),
    }
}

#[test]
fn test_reconnect() {
    let mut test_group: Vec<Channel> = Vec::new();
    test_group.push(member(1, Some("127.0.0.1")));
    test_group.push(member(2, Some("127.0.0.2")));

    assert!(reconnect_check(&test_group, &None) == false);
    assert!(reconnect_check(&test_group, &Some("10.0.0.1".to_owned())) == false);
    assert!(reconnect_check(&test_group, &Some("127.0.0.2".to_owned())) == true);
}

#[test]
fn unknown_channel_probe_is_rejected() {
    let mut b = broker(3, 0, 0);
    let id = ChannelID::from_bytes([7u8; 16]);
    let (sid, ds) = b.handle_connect(
        Connect { channel: id, remote: None, initial_connect: false },
        0,
    );
    assert_eq!(sid, 0);
    assert!(ds.is_empty());
    // No channel was created: a later probe still fails.
    assert!(b.list_channels().is_empty());
    let (sid, _) = b.handle_connect(
        Connect { channel: id, remote: None, initial_connect: false },
        0,
    );
    assert_eq!(sid, 0);
}

#[test]
fn malformed_id_probe_creates_no_channel() {
    // A decode error in the route leaves the session unable to create:
    // the broker rejects the substituted fresh id and no channel exists.
    let decision = channelserver::routes::classify_route(Some("aaaaaaaaaaaaaaaaaaaaaa"));
    assert!(!decision.initial_connect);
    let mut b = broker(3, 0, 0);
    let fresh = ChannelID::generate();
    let (sid, ds) = b.handle_connect(
        Connect { channel: fresh, remote: None, initial_connect: decision.initial_connect },
        0,
    );
    assert_eq!(sid, 0);
    assert!(ds.is_empty());
    assert!(b.list_channels().is_empty());
}

#[test]
fn capacity_rejects_fourth_member() {
    let mut b = broker(3, 0, 0);
    let id = ChannelID::from_bytes([1u8; 16]);
    assert!(join(&mut b, id, "1.1.1.1", true) != 0);
    assert!(join(&mut b, id, "2.2.2.2", false) != 0);
    assert!(join(&mut b, id, "1.1.1.1", false) != 0);
    assert_eq!(b.metrics.max_conn, 0);
    // The 4th concurrent connect is over capacity.
    assert_eq!(join(&mut b, id, "1.1.1.1", false), 0);
    assert_eq!(b.metrics.max_conn, 1);
    assert_eq!(b.metrics.conn_create, 3);
}

#[test]
fn third_party_join_is_rejected() {
    let mut b = broker(10, 0, 0);
    let id = ChannelID::from_bytes([2u8; 16]);
    assert!(join(&mut b, id, "1.1.1.1", true) != 0);
    assert!(join(&mut b, id, "2.2.2.2", false) != 0);
    assert!(join(&mut b, id, "2.2.2.2", false) != 0);
    // Beyond two members only a matching remote may join.
    assert!(join(&mut b, id, "2.2.2.2", false) != 0);
    assert_eq!(join(&mut b, id, "3.3.3.3", false), 0);
    let (sid, _) = b.handle_connect(Connect { channel: id, remote: None, initial_connect: false }, 0);
    assert_eq!(sid, 0);
}

#[test]
fn first_frame_names_the_channel() {
    let mut b = broker(3, 0, 0);
    let id = ChannelID::from_str("j6jLPVPeQR6diyrkQinRAQ").unwrap();
    let (sid, ds) = b.handle_connect(
        Connect { channel: id, remote: None, initial_connect: true },
        0,
    );
    assert!(sid != 0);
    assert_eq!(ds.len(), 1);
    assert_eq!(ds[0].id, sid);
    assert_eq!(ds[0].kind, MessageType::Text);
    assert_eq!(
        String::from_utf8(ds[0].body.clone()).unwrap(),
        "{\"link\":\"/v1/ws/j6jLPVPeQR6diyrkQinRAQ\",\"channelid\":\"j6jLPVPeQR6diyrkQinRAQ\"}"
    );
}

#[test]
fn relay_wraps_message_with_sender() {
    let mut b = broker(3, 0, 0);
    let id = ChannelID::from_bytes([3u8; 16]);
    let a = join(&mut b, id, "1.1.1.1", true);
    let peer = join(&mut b, id, "2.2.2.2", false);
    let mut sender = SenderData::default();
    sender.remote = Some("1.1.1.1".to_owned());
    let ds = b.handle_client_message(ClientMessage {
        id: a,
        message_type: MessageType::Text,
        msg: "hello".to_owned(),
        channel: id,
        sender,
    });
    assert_eq!(ds.len(), 1);
    assert_eq!(ds[0].id, peer);
    assert_eq!(
        String::from_utf8(ds[0].body.clone()).unwrap(),
        "{\"message\":\"hello\",\"sender\":{\"remote\":\"1.1.1.1\"}}"
    );
}

#[test]
fn message_quota_terminates_channel() {
    let mut b = broker(3, 3, 0);
    let id = ChannelID::from_bytes([4u8; 16]);
    let a = join(&mut b, id, "1.1.1.1", true);
    let peer = join(&mut b, id, "2.2.2.2", false);
    for _ in 0..3 {
        let ds = b.handle_client_message(text(a, id, "hi"));
        assert_eq!(ds.len(), 1);
        assert_eq!(ds[0].kind, MessageType::Text);
    }
    assert_eq!(b.metrics.max_msg, 0);
    // The 4th relayed message to the peer goes over the quota.
    let ds = b.handle_client_message(text(a, id, "hi"));
    assert_eq!(ds.len(), 2);
    assert!(ds.iter().all(|d| d.kind == MessageType::Terminate));
    assert_eq!(ds[0].id, a);
    assert_eq!(ds[1].id, peer);
    assert_eq!(b.metrics.max_msg, 1);
    assert!(b.list_channels().is_empty());
}

#[test]
fn byte_quota_terminates_channel() {
    let mut b = broker(3, 0, 50);
    let id = ChannelID::from_bytes([5u8; 16]);
    let a = join(&mut b, id, "1.1.1.1", true);
    let _peer = join(&mut b, id, "2.2.2.2", false);
    let big = "x".repeat(60);
    let ds = b.handle_client_message(text(a, id, &big));
    // The peer never sees the text; both members are terminated.
    assert_eq!(ds.len(), 2);
    assert!(ds.iter().all(|d| d.kind == MessageType::Terminate));
    assert_eq!(b.metrics.max_data, 1);
    assert!(b.list_channels().is_empty());
}

#[test]
fn empty_channel_is_removed() {
    let mut b = broker(3, 0, 0);
    let id = ChannelID::from_bytes([6u8; 16]);
    let a = join(&mut b, id, "1.1.1.1", true);
    assert_eq!(b.list_channels().len(), 1);
    let ds = b.disconnect(&id, a);
    assert_eq!(ds.len(), 1);
    assert_eq!(ds[0].kind, MessageType::Terminate);
    assert!(b.list_channels().is_empty());
    // Reconnecting to the dropped id needs initial_connect again.
    let (sid, _) = b.handle_connect(Connect { channel: id, remote: None, initial_connect: false }, 0);
    assert_eq!(sid, 0);
    let (sid, _) = b.handle_connect(Connect { channel: id, remote: None, initial_connect: true }, 0);
    assert!(sid != 0);
}

#[test]
fn disconnect_keeps_other_members() {
    let mut b = broker(3, 0, 0);
    let id = ChannelID::from_bytes([8u8; 16]);
    let a = join(&mut b, id, "1.1.1.1", true);
    let peer = join(&mut b, id, "2.2.2.2", false);
    let ds = b.disconnect(&id, a);
    assert_eq!(ds.len(), 1);
    assert_eq!(ds[0].id, a);
    assert_eq!(b.list_channels().len(), 1);
    // The peer can still be reached.
    let ds = b.handle_client_message(text(peer, id, "still here"));
    assert!(ds.is_empty());
}

#[test]
fn terminate_control_disconnects_sender() {
    let mut b = broker(3, 0, 0);
    let id = ChannelID::from_bytes([9u8; 16]);
    let a = join(&mut b, id, "1.1.1.1", true);
    let ds = b.handle_client_message(ClientMessage {
        id: a,
        message_type: MessageType::Terminate,
        msg: String::new(),
        channel: id,
        sender: SenderData::default(),
    });
    assert_eq!(ds.len(), 1);
    assert_eq!(ds[0].kind, MessageType::Terminate);
    assert_eq!(ds[0].body, vec![4u8]);
    assert!(b.list_channels().is_empty());
}

#[test]
fn shutdown_terminates_every_member() {
    let mut b = broker(3, 0, 0);
    let id = ChannelID::from_bytes([10u8; 16]);
    let a = join(&mut b, id, "1.1.1.1", true);
    let peer = join(&mut b, id, "2.2.2.2", false);
    let ds = b.shutdown(&id);
    assert_eq!(ds.len(), 2);
    assert_eq!(ds[0].id, a);
    assert_eq!(ds[1].id, peer);
    assert!(b.list_channels().is_empty());
    // Idempotent: a second shutdown does nothing.
    assert!(b.shutdown(&id).is_empty());
}

#[test]
fn session_ids_are_nonzero_and_distinct() {
    let mut b = broker(10, 0, 0);
    let id = ChannelID::from_bytes([11u8; 16]);
    let mut seen: Vec<u64> = Vec::new();
    for i in 0..5 {
        let sid = join(&mut b, id, "1.1.1.1", i == 0);
        assert!(sid != 0);
        assert!(!seen.contains(&sid));
        seen.push(sid);
    }
}

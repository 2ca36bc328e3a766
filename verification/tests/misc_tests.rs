use channelserver::broker::DisconnectReason;
use channelserver::error::HandlerErrorKind;
use channelserver::logging::{ErrorLevel, LogMessage};
use channelserver::metrics::{parse_statsd_host, MetricCounters};
use channelserver::reputation::IPReputation;
use channelserver::routes::{classify_route, heartbeat_body, RouteTag};
use channelserver::settings::Settings;

#[test]
fn settings_defaults() {
    let s = Settings::default();
    assert_eq!(s.hostname, "0.0.0.0");
    assert_eq!(s.port, 8000);
    assert_eq!(s.max_channel_connections, 3);
    assert_eq!(s.conn_lifespan, 300);
    assert_eq!(s.client_timeout, 30);
    assert_eq!(s.max_exchanges, 3);
    assert_eq!(s.max_data, 0);
    assert_eq!(s.heartbeat, 5);
    assert_eq!(s.default_lang, "en");
    assert!(!s.human_logs);
}

#[test]
fn route_classification() {
    let none = classify_route(None);
    assert!(none.channel.is_none());
    assert!(none.initial_connect);
    assert_eq!(none.tag, RouteTag::NoPath);
    assert_eq!(none.tag.as_str(), "none");

    let fresh = classify_route(Some(""));
    assert!(fresh.channel.is_none());
    assert!(fresh.initial_connect);
    assert_eq!(fresh.tag.as_str(), "new");

    let join = classify_route(Some("j6jLPVPeQR6diyrkQinRAQ"));
    assert!(join.channel.is_some());
    assert!(!join.initial_connect);
    assert_eq!(join.tag.as_str(), "existing");
    assert_eq!(
        join.channel.unwrap().as_string(),
        "j6jLPVPeQR6diyrkQinRAQ"
    );

    // A malformed id is a routing failure: the session may not create
    // a channel under the substituted fresh id.
    let bad = classify_route(Some("aaaaaaaaaaaaaaaaaaaaaa!"));
    assert!(bad.channel.is_none());
    assert!(!bad.initial_connect);
    assert_eq!(bad.tag.as_str(), "error");
    // An id with non-zero trailing bits is a decode error too, not an
    // unknown channel.
    let bad = classify_route(Some("aaaaaaaaaaaaaaaaaaaaaa"));
    assert!(bad.channel.is_none());
    assert!(!bad.initial_connect);
    assert_eq!(bad.tag.as_str(), "error");
}

#[test]
fn heartbeat_body_shape() {
    assert_eq!(
        heartbeat_body("1.2.3"),
        "{\"status\":\"ok\",\"version\":\"1.2.3\"}"
    );
}

#[test]
fn statsd_host_parsing() {
    let (host, port) = parse_statsd_host(&b"localhost:8125".to_vec());
    assert_eq!(host, b"localhost".to_vec());
    assert_eq!(port, 8125);
    let (host, port) = parse_statsd_host(&b"statsd.example".to_vec());
    assert_eq!(host, b"statsd.example".to_vec());
    assert_eq!(port, 8529);
    let (host, port) = parse_statsd_host(&b"statsd.example:notaport".to_vec());
    assert_eq!(host, b"statsd.example".to_vec());
    assert_eq!(port, 8529);
    let (_, port) = parse_statsd_host(&b"h:70000".to_vec());
    assert_eq!(port, 8529);
}

#[test]
fn metric_counters_start_at_zero() {
    let m = MetricCounters::new();
    assert_eq!(m.conn_create, 0);
    assert_eq!(m.max_conn, 0);
    assert_eq!(m.max_data, 0);
    assert_eq!(m.max_msg, 0);
    assert_eq!(m.expired, 0);
    assert_eq!(m.timeout, 0);
}

#[test]
fn error_messages() {
    assert_eq!(
        HandlerErrorKind::XSDataErr("1.2.3.4".to_owned()).message(),
        "Excess Data Exchanged: 1.2.3.4"
    );
    assert_eq!(
        HandlerErrorKind::XSMessageErr("1.2.3.4".to_owned()).message(),
        "Excess Messages: 1.2.3.4"
    );
    assert_eq!(HandlerErrorKind::IOError("boom".to_owned()).message(), "IO Error: boom");
    assert_eq!(
        HandlerErrorKind::MetricsError("boom".to_owned()).message(),
        "Could not start metrics: boom"
    );
    assert_eq!(
        HandlerErrorKind::BadRemoteAddrError("none".to_owned()).message(),
        "Bad remote address: none"
    );
}

#[test]
fn disconnect_reason_text() {
    assert_eq!(DisconnectReason::Normal.as_str(), "Client Disconnect");
    assert_eq!(DisconnectReason::ConnectionError.as_str(), "Connection Error");
    assert_eq!(DisconnectReason::Timeout.as_str(), "Connection Timeout");
}

#[test]
fn log_message_rendering() {
    assert_eq!(ErrorLevel::Warn.as_str(), "Warn");
    let plain = LogMessage {
        level: ErrorLevel::Info,
        msg: "starting".to_owned(),
        attributes: vec![],
    };
    assert_eq!(plain.render(), "INFO: starting");
    let tagged = LogMessage {
        level: ErrorLevel::Error,
        msg: "bad remote".to_owned(),
        attributes: vec![
            ("remote_ip".to_owned(), "1.2.3.4".to_owned()),
            ("channel".to_owned(), "abc".to_owned()),
        ],
    };
    assert_eq!(tagged.render(), "ERROR: bad remote :: remote_ip=1.2.3.4, channel=abc");
}

#[test]
fn reputation_decisions() {
    let mut s = Settings::default();
    let rep = IPReputation::from_settings(&s);
    assert!(rep.iprepd_server.is_none());
    assert!(!rep.is_abusive(0));
    s.ip_reputation_server = "iprepd.example".to_owned();
    s.iprep_min = 50;
    let rep = IPReputation::from_settings(&s);
    assert_eq!(rep.iprepd_server, Some("iprepd.example".to_owned()));
    assert!(rep.is_abusive(49));
    assert!(!rep.is_abusive(50));
    assert_eq!(
        String::from_utf8(rep.abuse_report(&"1.2.3.4".to_owned())).unwrap(),
        "{\"ip\":\"1.2.3.4\",\"violation\":\"channel_abuse\"}"
    );
}

use channelserver::ip::{trusted_proxy_list, IpAddress};
use channelserver::meta::{
    apply_gcp_header, apply_geo_names, gcp_location, get_remote, normalize_ua, GeoIpErrorKind,
    SenderData,
};
use channelserver::logging::ErrorLevel;

fn v4(a: u8, b: u8, c: u8, d: u8) -> IpAddress {
    IpAddress::V4(u32::from_be_bytes([a, b, c, d]))
}

#[test]
fn test_get_remote() {
    let proxy_list = trusted_proxy_list(&b"192.168.0.0/24".to_vec());

    let true_remote = v4(1, 2, 3, 4);
    let proxy_server = v4(192, 168, 0, 4);

    // Proxy only, no XFF header
    let remote = get_remote(Some(proxy_server), None, &proxy_list);
    assert!(remote.is_err());

    // Proxy only, empty XFF header
    let remote = get_remote(Some(proxy_server), Some(&b"".to_vec()), &proxy_list);
    assert!(remote.is_err());

    // Proxy only, crap XFF header
    let remote = get_remote(Some(proxy_server), Some(&b"invalid".to_vec()), &proxy_list);
    assert!(remote.is_err());

    // Peer only, no header
    let remote = get_remote(Some(true_remote), None, &proxy_list);
    assert_eq!(remote.unwrap(), "1.2.3.4".to_owned());

    // Peer proxy, fetch from XFF header
    let remote = get_remote(
        Some(proxy_server),
        Some(&b"1.2.3.4, 192.168.0.4".to_vec()),
        &proxy_list,
    );
    assert_eq!(remote.unwrap(), "1.2.3.4".to_owned());

    // Peer proxy, ensure right most XFF client fetched
    let remote = get_remote(
        Some(proxy_server),
        Some(&b"1.2.3.4, 2.3.4.5".to_vec()),
        &proxy_list,
    );
    assert_eq!(remote.unwrap(), "2.3.4.5".to_owned());

    // Peer proxy, ensure right most non-proxy XFF client fetched
    let remote = get_remote(
        Some(proxy_server),
        Some(&b"1.2.3.4, 2.3.4.5, 192.168.0.10".to_vec()),
        &proxy_list,
    );
    assert_eq!(remote.unwrap(), "2.3.4.5".to_owned());

    // No peer address at all
    let remote = get_remote(None, None, &proxy_list);
    assert!(remote.is_err());

    // Loopback entries in the chain are skipped
    let remote = get_remote(
        Some(proxy_server),
        Some(&b"2.3.4.5, 127.0.0.1".to_vec()),
        &proxy_list,
    );
    assert_eq!(remote.unwrap(), "2.3.4.5".to_owned());
}

#[test]
fn xff_reads_ipv6_entries() {
    let proxy_list = trusted_proxy_list(&b"192.168.0.0/24".to_vec());
    let proxy_server = v4(192, 168, 0, 4);
    // A v6 client address in the chain is taken.
    let remote = get_remote(
        Some(proxy_server),
        Some(&b"2001:db8::1".to_vec()),
        &proxy_list,
    );
    assert_eq!(remote.unwrap(), "2001:db8::1".to_owned());
    // The v6 loopback is skipped like the v4 one.
    let remote = get_remote(
        Some(proxy_server),
        Some(&b"2.3.4.5, ::1".to_vec()),
        &proxy_list,
    );
    assert_eq!(remote.unwrap(), "2.3.4.5".to_owned());
}

#[test]
fn private_networks_are_trusted_by_default() {
    let proxy_list = trusted_proxy_list(&b"".to_vec());
    // 10.1.2.3 is a private peer, so the header is honored.
    let remote = get_remote(Some(v4(10, 1, 2, 3)), Some(&b"9.9.9.9".to_vec()), &proxy_list);
    assert_eq!(remote.unwrap(), "9.9.9.9".to_owned());
}

#[test]
fn test_ua() {
    let good_header = "Mozilla/5.0 Foo";
    assert_eq!(
        Some(good_header.to_owned()),
        normalize_ua(Some(good_header.to_owned()))
    );
    assert_eq!(None, normalize_ua(Some("".to_owned())));
    assert_eq!(None, normalize_ua(None));
}

#[test]
fn geo_names_follow_language_preference() {
    let mut sender = SenderData::default();
    let langs: Vec<Vec<u8>> = vec![b"en".to_vec()];
    let city: Vec<(Vec<u8>, String)> = vec![
        (b"de".to_vec(), "Mailand".to_owned()),
        (b"en".to_vec(), "Milan".to_owned()),
    ];
    let country: Vec<(Vec<u8>, String)> = vec![(b"en".to_vec(), "Italy".to_owned())];
    apply_geo_names(&mut sender, &langs, Some(&city), Some(&country), None);
    assert_eq!(sender.city, Some("Milan".to_owned()));
    assert_eq!(sender.country, Some("Italy".to_owned()));
    assert_eq!(sender.region, None);
}

#[test]
fn gcp_header_fills_missing_city() {
    let (region, city) = gcp_location(&b"California,San Jos\xc3\xa9".to_vec());
    assert_eq!(region, Some("California".to_owned()));
    assert_eq!(city, Some("San José".to_owned()));

    let mut sender = SenderData::default();
    apply_gcp_header(&mut sender, Some(&b"Washington,Milton".to_vec()));
    assert_eq!(sender.region, Some("Washington".to_owned()));
    assert_eq!(sender.city, Some("Milton".to_owned()));

    // A city from GeoIP wins; the header is not consulted.
    let mut sender = SenderData::default();
    sender.city = Some("Rome".to_owned());
    apply_gcp_header(&mut sender, Some(&b"Washington,Milton".to_vec()));
    assert_eq!(sender.city, Some("Rome".to_owned()));
    assert_eq!(sender.region, None);
}

#[test]
fn sender_json_omits_unset_keys() {
    let mut sender = SenderData::default();
    assert_eq!(String::from_utf8(sender.to_json()).unwrap(), "{}");
    sender.remote = Some("1.2.3.4".to_owned());
    sender.city = Some("Milton".to_owned());
    assert_eq!(
        String::from_utf8(sender.to_json()).unwrap(),
        "{\"remote\":\"1.2.3.4\",\"city\":\"Milton\"}"
    );
}

#[test]
fn sender_json_escapes_values() {
    let mut sender = SenderData::default();
    sender.ua = Some("quo\"te\\and\ncontrol\u{1}".to_owned());
    assert_eq!(
        String::from_utf8(sender.to_json()).unwrap(),
        "{\"ua\":\"quo\\\"te\\\\and\\ncontrol\\u0001\"}"
    );
}

#[test]
fn log_attributes_skip_ua() {
    let mut sender = SenderData::default();
    sender.ua = Some("agent".to_owned());
    sender.remote = Some("1.2.3.4".to_owned());
    sender.country = Some("Italy".to_owned());
    let attrs = sender.log_attributes();
    assert_eq!(
        attrs,
        vec![
            ("remote_ip".to_owned(), "1.2.3.4".to_owned()),
            ("remote_country".to_owned(), "Italy".to_owned()),
        ]
    );
}

#[test]
fn geoip_error_severities() {
    assert_eq!(GeoIpErrorKind::InvalidDatabase.severity(), ErrorLevel::Critical);
    assert!(GeoIpErrorKind::InvalidDatabase.is_fatal());
    assert_eq!(GeoIpErrorKind::Io.severity(), ErrorLevel::Error);
    assert_eq!(GeoIpErrorKind::Mapping.severity(), ErrorLevel::Warn);
    assert_eq!(GeoIpErrorKind::Decoding.severity(), ErrorLevel::Warn);
    assert_eq!(GeoIpErrorKind::AddressNotFound.severity(), ErrorLevel::Debug);
    assert!(!GeoIpErrorKind::AddressNotFound.is_fatal());
}

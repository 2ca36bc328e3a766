use channelserver::channelid::{ChannelID, DecodeError};

#[test]
fn channelid_test_parse() {
    let raw_id = "j6jLPVPeQR6diyrkQinRAQ";
    // From URL-safe base64
    let chan = ChannelID::from_str(raw_id).unwrap();
    assert!(chan.as_string() == raw_id.to_owned());
    ChannelID::from_str("invalid").expect_err("rejected");
    let output = chan.as_string();
    assert_eq!("j6jLPVPeQR6diyrkQinRAQ".to_owned(), output);
}

#[test]
fn codec_round_trip_fixed_bytes() {
    let bytes: [u8; 16] = [0, 1, 2, 3, 4, 5, 6, 7, 8, 9, 10, 11, 12, 13, 254, 255];
    let id = ChannelID::from_bytes(bytes);
    let s = id.as_string();
    assert_eq!(s.len(), 22);
    let back = ChannelID::from_str(&s).unwrap();
    assert_eq!(back.value, bytes);
}

#[test]
fn codec_round_trip_random_bytes() {
    for _ in 0..16 {
        let id = ChannelID::generate();
        let s = id.as_string();
        let back = ChannelID::from_str(&s).unwrap();
        assert_eq!(back.value, id.value);
        assert!(back == id);
    }
}

#[test]
fn codec_known_vector() {
    // All zero bytes encode to twenty-two 'A's.
    let id = ChannelID::from_bytes([0u8; 16]);
    assert_eq!(id.as_string(), "AAAAAAAAAAAAAAAAAAAAAA");
    let back = ChannelID::from_str("AAAAAAAAAAAAAAAAAAAAAA").unwrap();
    assert_eq!(back.value, [0u8; 16]);
}

#[test]
fn decode_rejects_wrong_length() {
    // 24 characters stand for 18 bytes, not 16.
    assert_eq!(
        ChannelID::from_str("AAAAAAAAAAAAAAAAAAAAAAAA").unwrap_err(),
        DecodeError::InvalidLength
    );
    assert_eq!(ChannelID::from_str("").unwrap_err(), DecodeError::InvalidLength);
    assert_eq!(ChannelID::from_str("AAAA").unwrap_err(), DecodeError::InvalidLength);
}

#[test]
fn decode_rejects_foreign_characters() {
    assert_eq!(
        ChannelID::from_str("AAAAAAAAAAAAAAAAAAAAA!").unwrap_err(),
        DecodeError::InvalidChar
    );
    assert_eq!(
        ChannelID::from_str("AAAAAAAAAA+AAAAAAAAAAA").unwrap_err(),
        DecodeError::InvalidChar
    );
}

#[test]
fn decode_rejects_trailing_bits() {
    // 'B' stands for 1: its low four bits spill past the 16th byte.
    assert_eq!(
        ChannelID::from_str("AAAAAAAAAAAAAAAAAAAAAB").unwrap_err(),
        DecodeError::InvalidLastChar
    );
}

#[test]
fn decode_tolerates_padding() {
    let with_pad = "j6jLPVPeQR6diyrkQinRAQ==";
    let chan = ChannelID::from_str(with_pad).unwrap();
    assert_eq!(chan.as_string(), "j6jLPVPeQR6diyrkQinRAQ");
}

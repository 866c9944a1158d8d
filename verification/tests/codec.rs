use yewchat::codec::decode;
use yewchat::codec::decode_message_payload;
use yewchat::codec::encode;
use yewchat::codec::DecodeError;
use yewchat::codec::Frame;
use yewchat::codec::Intent;
use yewchat::codec::MsgTypes;

#[test]
fn encode_register_exact() {
    let text = encode(&Intent::Register { username: String::from("alice") });
    assert_eq!(text, "{\"messageType\":\"register\",\"dataArray\":null,\"data\":\"alice\"}");
}

#[test]
fn encode_message_exact() {
    let text = encode(&Intent::Message { body: String::from("hi there") });
    assert_eq!(text, "{\"messageType\":\"message\",\"dataArray\":null,\"data\":\"hi there\"}");
}

#[test]
fn encode_escapes_quotes_backslashes_and_controls() {
    let text = encode(&Intent::Message { body: String::from("say \"hi\"\\\n\t\u{1}") });
    assert_eq!(
        text,
        "{\"messageType\":\"message\",\"dataArray\":null,\"data\":\"say \\\"hi\\\"\\\\\\n\\t\\u0001\"}"
    );
}

#[test]
fn decode_users_frame() {
    let r = decode("{\"messageType\":\"users\",\"dataArray\":[\"alice\",\"bob\"],\"data\":null}");
    match r {
        Ok(Frame::Users { usernames }) => {
            assert_eq!(usernames, vec!["alice".to_string(), "bob".to_string()]);
        }
        _ => panic!("expected a users frame"),
    }
}

#[test]
fn decode_accepts_whitespace_and_any_key_order() {
    let r = decode(" { \"data\" : null , \"dataArray\" : [ \"a\" ] , \"messageType\" : \"users\" } ");
    match r {
        Ok(Frame::Users { usernames }) => assert_eq!(usernames, vec!["a".to_string()]),
        _ => panic!("expected a users frame"),
    }
}

#[test]
fn decode_empty_users_array() {
    let r = decode("{\"messageType\":\"users\",\"dataArray\":[],\"data\":null}");
    match r {
        Ok(Frame::Users { usernames }) => assert_eq!(usernames.len(), 0),
        _ => panic!("expected a users frame"),
    }
}

#[test]
fn decode_register_frame_and_tag() {
    let r = decode("{\"messageType\":\"register\",\"dataArray\":null,\"data\":\"alice\"}");
    match r {
        Ok(f) => {
            assert!(matches!(f.message_type(), MsgTypes::Register));
            match f {
                Frame::Register { data } => assert_eq!(data, "alice"),
                _ => panic!("expected a register frame"),
            }
        }
        _ => panic!("expected a frame"),
    }
}

#[test]
fn decode_message_frame_with_nested_payload() {
    let r = decode(
        "{\"messageType\":\"message\",\"dataArray\":null,\"data\":\"{\\\"from\\\":\\\"bob\\\",\\\"message\\\":\\\"hi\\\"}\"}",
    );
    match r {
        Ok(Frame::Message { data }) => {
            assert_eq!(data, "{\"from\":\"bob\",\"message\":\"hi\"}");
            let p = decode_message_payload(&data).expect("payload decodes");
            assert_eq!(p.from, "bob");
            assert_eq!(p.message, "hi");
        }
        _ => panic!("expected a message frame"),
    }
}

#[test]
fn decode_unicode_escapes() {
    let r = decode("{\"messageType\":\"register\",\"dataArray\":null,\"data\":\"\\u0041\\u00e9\"}");
    match r {
        Ok(Frame::Register { data }) => assert_eq!(data, "A\u{e9}"),
        _ => panic!("expected a register frame"),
    }
}

#[test]
fn decode_rejects_surrogate_escape() {
    let r = decode("{\"messageType\":\"register\",\"dataArray\":null,\"data\":\"\\ud800\"}");
    assert!(matches!(r, Err(DecodeError::Malformed)));
}

#[test]
fn decode_rejects_missing_message_type() {
    let r = decode("{\"dataArray\":null,\"data\":\"x\"}");
    assert!(matches!(r, Err(DecodeError::Malformed)));
}

#[test]
fn decode_rejects_unknown_message_type() {
    let r = decode("{\"messageType\":\"ping\",\"dataArray\":null,\"data\":\"x\"}");
    assert!(matches!(r, Err(DecodeError::Malformed)));
}

#[test]
fn decode_rejects_register_without_data() {
    let r = decode("{\"messageType\":\"register\",\"dataArray\":null,\"data\":null}");
    assert!(matches!(r, Err(DecodeError::Malformed)));
}

#[test]
fn decode_rejects_message_without_data() {
    let r = decode("{\"messageType\":\"message\",\"dataArray\":null}");
    assert!(matches!(r, Err(DecodeError::Malformed)));
}

#[test]
fn decode_rejects_users_without_data_array() {
    let r = decode("{\"messageType\":\"users\",\"dataArray\":null,\"data\":null}");
    assert!(matches!(r, Err(DecodeError::Malformed)));
}

#[test]
fn decode_rejects_non_frames() {
    assert!(matches!(decode(""), Err(DecodeError::Malformed)));
    assert!(matches!(decode("hello"), Err(DecodeError::Malformed)));
    assert!(matches!(decode("{}"), Err(DecodeError::Malformed)));
    assert!(matches!(decode("[\"a\"]"), Err(DecodeError::Malformed)));
    assert!(matches!(
        decode("{\"messageType\":\"users\",\"dataArray\":[\"a\"],\"data\":null} tail"),
        Err(DecodeError::Malformed)
    ));
    assert!(matches!(
        decode("{\"messageType\":\"users\",\"dataArray\":[\"a\"],\"extra\":1}"),
        Err(DecodeError::Malformed)
    ));
    assert!(matches!(
        decode("{\"messageType\":\"users\",\"messageType\":\"users\",\"dataArray\":[\"a\"]}"),
        Err(DecodeError::Malformed)
    ));
    assert!(matches!(
        decode("{\"messageType\":\"register\",\"data\":\"bad \\q escape\"}"),
        Err(DecodeError::Malformed)
    ));
}

#[test]
fn payload_decode_rejects_incomplete_records() {
    assert!(matches!(
        decode_message_payload("{\"from\":\"bob\"}"),
        Err(DecodeError::Malformed)
    ));
    assert!(matches!(
        decode_message_payload("{\"message\":\"hi\"}"),
        Err(DecodeError::Malformed)
    ));
    assert!(matches!(decode_message_payload("not json"), Err(DecodeError::Malformed)));
    assert!(matches!(
        decode_message_payload("{\"from\":\"bob\",\"message\":null}"),
        Err(DecodeError::Malformed)
    ));
}

#[test]
fn round_trip_register() {
    let encoded = encode(&Intent::Register { username: String::from("alice") });
    match decode(&encoded) {
        Ok(Frame::Register { data }) => assert_eq!(data, "alice"),
        _ => panic!("register round trip failed"),
    }
}

#[test]
fn round_trip_message() {
    let body = String::from("tricky \"body\" with \\ and \n control \u{2} chars");
    let encoded = encode(&Intent::Message { body: body.clone() });
    match decode(&encoded) {
        Ok(Frame::Message { data }) => assert_eq!(data, body),
        _ => panic!("message round trip failed"),
    }
}

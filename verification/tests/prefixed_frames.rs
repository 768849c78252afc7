use tagchat::codec::Codec;
use tagchat::color::{Channel, Color};
use tagchat::errors::{DecodeError, EncodeError};
use tagchat::message::{Message, Shape, Tag};
use tagchat::prefixed;

fn color(red: &str, green: &str, blue: &str, alpha: &str) -> Color {
    Color {
        red: Channel::parse(red).unwrap(),
        green: Channel::parse(green).unwrap(),
        blue: Channel::parse(blue).unwrap(),
        alpha: Channel::parse(alpha).unwrap(),
    }
}

fn tag(name: &str, red: &str, green: &str, blue: &str, alpha: &str) -> Tag {
    Tag { name: name.to_string(), color: color(red, green, blue, alpha) }
}

fn urgent() -> Tag {
    tag("urgent", "1.0", "0.0", "0.0", "1.0")
}

#[test]
fn prefixed_tag_and_content_survive() {
    let codec = Codec::Prefixed;
    let m = Message::Outbound { content: "go".to_string(), room: 0, tag: Some(urgent()) };
    let frame = codec.encode(&m).unwrap();
    let back = codec.decode(Shape::Outbound, &frame).unwrap();
    assert_eq!(back.content(), "go");
    assert_eq!(back.tag().as_ref().unwrap().name, "urgent");
}

#[test]
fn prefixed_outbound_frame_layout() {
    let m = Message::Outbound { content: "go".to_string(), room: 0, tag: Some(urgent()) };
    assert_eq!(
        prefixed::encode(&m),
        Ok(b"\x02go\x06urgent\x031.0\x030.0\x030.0\x031.0\r\n".to_vec())
    );
}

#[test]
fn prefixed_inbound_frame_layout() {
    let m = Message::Inbound {
        sender: "bob".to_string(),
        content: "go".to_string(),
        room: 0,
        tag: Some(tag("t", "1", "0.5", "0", "1")),
    };
    assert_eq!(prefixed::encode(&m), Ok(b"\x03bob\x02go\x01t\x011\x030.5\x010\x011\r\n".to_vec()));
}

#[test]
fn prefixed_missing_tag_goes_out_as_undefined() {
    let m = Message::Outbound { content: "x".to_string(), room: 0, tag: None };
    let frame = prefixed::encode(&m).unwrap();
    assert_eq!(frame, b"\x01x\x09undefined\x010\x010\x010\x011\r\n".to_vec());
    let back = prefixed::decode(Shape::Outbound, &frame).unwrap();
    assert_eq!(back.tag(), &Some(Tag::default()));
}

#[test]
fn prefixed_long_channel_is_cut_to_four() {
    let m = Message::Outbound {
        content: "c".to_string(),
        room: 0,
        tag: Some(tag("t", "0.123456", "12345.5", "-0.25", "1.00000")),
    };
    let frame = prefixed::encode(&m).unwrap();
    assert_eq!(frame, b"\x01c\x01t\x040.12\x041234\x04-0.2\x041.00\r\n".to_vec());
    let back = prefixed::decode(Shape::Outbound, &frame).unwrap();
    assert_eq!(
        back,
        Message::Outbound {
            content: "c".to_string(),
            room: 0,
            tag: Some(tag("t", "0.12", "1234", "-0.2", "1.00")),
        }
    );
}

#[test]
fn prefixed_channel_of_four_is_not_cut() {
    let mut out = Vec::new();
    prefixed::append_channel(&mut out, &Channel::parse("0.25").unwrap());
    assert_eq!(out, b"\x040.25".to_vec());
    let mut out = vec![7u8];
    prefixed::append_channel(&mut out, &Channel::parse("0.255").unwrap());
    assert_eq!(out, b"\x07\x040.25".to_vec());
    let mut out = Vec::new();
    prefixed::append_channel(&mut out, &Channel::parse("7").unwrap());
    assert_eq!(out, b"\x017".to_vec());
}

#[test]
fn prefixed_round_trip_outbound() {
    let codec = Codec::Prefixed;
    let m = Message::Outbound {
        content: "a:b\r\nc — ü".to_string(),
        room: 0,
        tag: Some(tag("späť", "0.5", "1", ".25", "-1.5")),
    };
    let frame = codec.encode(&m).unwrap();
    assert_eq!(codec.decode(Shape::Outbound, &frame), Ok(m));
}

#[test]
fn prefixed_round_trip_inbound() {
    let codec = Codec::Prefixed;
    let m = Message::Inbound {
        sender: "alice".to_string(),
        content: "".to_string(),
        room: 0,
        tag: Some(tag("", "0", "0", "0", "0")),
    };
    let frame = codec.encode(&m).unwrap();
    assert_eq!(codec.decode(Shape::Inbound, &frame), Ok(m));
}

#[test]
fn prefixed_room_does_not_travel() {
    let codec = Codec::Prefixed;
    let m = Message::Inbound {
        sender: "a".to_string(),
        content: "b".to_string(),
        room: 9,
        tag: Some(urgent()),
    };
    let frame = codec.encode(&m).unwrap();
    let back = codec.decode(Shape::Inbound, &frame).unwrap();
    assert_eq!(back.room(), 0);
    assert_eq!(back.content(), "b");
}

#[test]
fn prefixed_longest_field() {
    let content = "x".repeat(255);
    let m = Message::Outbound { content: content.clone(), room: 0, tag: Some(urgent()) };
    let frame = prefixed::encode(&m).unwrap();
    assert_eq!(frame[0], 255);
    assert_eq!(frame.len(), 1 + 255 + 7 + 4 * 4 + 2);
    assert_eq!(prefixed::decode(Shape::Outbound, &frame), Ok(m));
}

#[test]
fn prefixed_field_too_long() {
    let long = "x".repeat(256);
    let m = Message::Outbound { content: long.clone(), room: 0, tag: None };
    assert_eq!(prefixed::encode(&m), Err(EncodeError::FieldTooLong));
    let m = Message::Inbound {
        sender: long.clone(),
        content: "ok".to_string(),
        room: 0,
        tag: None,
    };
    assert_eq!(prefixed::encode(&m), Err(EncodeError::FieldTooLong));
    let m = Message::Outbound {
        content: "ok".to_string(),
        room: 0,
        tag: Some(tag(&long, "0", "0", "0", "0")),
    };
    assert_eq!(prefixed::encode(&m), Err(EncodeError::FieldTooLong));
    // 128 two-byte characters are 256 bytes
    let m = Message::Outbound { content: "é".repeat(128), room: 0, tag: None };
    assert_eq!(prefixed::encode(&m), Err(EncodeError::FieldTooLong));
}

#[test]
fn prefixed_append_field_refuses_and_leaves_alone() {
    let mut out = vec![1u8, 2];
    assert!(!prefixed::append_field(&mut out, &[0u8; 256]));
    assert_eq!(out, vec![1u8, 2]);
    assert!(prefixed::append_field(&mut out, b"abc"));
    assert_eq!(out, vec![1u8, 2, 3, b'a', b'b', b'c']);
}

#[test]
fn prefixed_read_field_stays_inside() {
    let buf = b"\x03abc\x02de";
    assert_eq!(prefixed::read_field(buf, 0), Some((b"abc".to_vec(), 4)));
    assert_eq!(prefixed::read_field(buf, 4), Some((b"de".to_vec(), 7)));
    assert_eq!(prefixed::read_field(buf, 7), None);
    assert_eq!(prefixed::read_field(buf, 100), None);
    assert_eq!(prefixed::read_field(b"\x03ab", 0), None);
    assert_eq!(prefixed::read_field(b"\x00", 0), Some((Vec::new(), 1)));
    assert_eq!(prefixed::read_field(b"\xff", 0), None);
    assert_eq!(prefixed::read_field(b"", 0), None);
}

#[test]
fn prefixed_skip_field_agrees_with_read_field() {
    let buf = b"\x03abc\x02de\x05x";
    for pos in 0..12 {
        assert_eq!(prefixed::skip_field(buf, pos), prefixed::read_field(buf, pos).map(|r| r.1));
    }
}

#[test]
fn prefixed_length_past_the_end() {
    assert_eq!(prefixed::decode(Shape::Outbound, b"\x05go\r\n"), Err(DecodeError::Truncated));
    assert_eq!(prefixed::decode(Shape::Outbound, b""), Err(DecodeError::Truncated));
    assert_eq!(
        prefixed::decode(Shape::Outbound, b"\x02go\x06urgent\x031.0\x030.0\x030.0\x091.0\r\n"),
        Err(DecodeError::Truncated)
    );
    // an outbound frame lacks the seventh field of an inbound one
    assert_eq!(
        prefixed::decode(Shape::Inbound, b"\x02go\x06urgent\x031.0\x030.0\x030.0\x031.0\r\n"),
        Err(DecodeError::Truncated)
    );
}

#[test]
fn prefixed_frame_without_its_end() {
    assert_eq!(
        prefixed::decode(Shape::Outbound, b"\x02go\x01t\x011\x011\x011\x011"),
        Err(DecodeError::Unterminated)
    );
    assert_eq!(
        prefixed::decode(Shape::Outbound, b"\x02go\x01t\x011\x011\x011\x011\r"),
        Err(DecodeError::Unterminated)
    );
    assert_eq!(
        prefixed::decode(Shape::Outbound, b"\x02go\x01t\x011\x011\x011\x011\n\r"),
        Err(DecodeError::Unterminated)
    );
    assert_eq!(
        prefixed::decode(Shape::Outbound, b"\x02go\x01t\x011\x011\x011\x011\r\nx"),
        Err(DecodeError::Unterminated)
    );
}

#[test]
fn prefixed_text_that_is_not_utf8() {
    assert_eq!(
        prefixed::decode(Shape::Outbound, b"\x02\xff\xfe\x01t\x011\x011\x011\x011\r\n"),
        Err(DecodeError::BadText)
    );
    assert_eq!(
        prefixed::decode(Shape::Outbound, b"\x02go\x01\x80\x011\x011\x011\x011\r\n"),
        Err(DecodeError::BadText)
    );
    assert_eq!(
        prefixed::decode(Shape::Inbound, b"\x01\xc0\x02go\x01t\x011\x011\x011\x011\r\n"),
        Err(DecodeError::BadText)
    );
}

#[test]
fn prefixed_channel_that_is_no_number() {
    let bad_channels: [&[u8]; 11] = [
        b"\x02ab", b"\x00", b"\x01-", b"\x01.", b"\x031..", b"\x03inf", b"\x03NaN", b"\x031e5",
        b"\x02+1", b"\x03 1 ", b"\x021-",
    ];
    for bad in bad_channels {
        let mut frame = b"\x02go\x01t".to_vec();
        frame.extend_from_slice(bad);
        frame.extend_from_slice(b"\x011\x011\x011\r\n");
        assert_eq!(prefixed::decode(Shape::Outbound, &frame), Err(DecodeError::BadChannel));
    }
    assert_eq!(
        prefixed::decode(Shape::Outbound, b"\x02go\x01t\x011\x011\x011\x01x\r\n"),
        Err(DecodeError::BadChannel)
    );
}

#[test]
fn prefixed_long_channel_is_read_whole() {
    let frame = b"\x02go\x01t\x080.123456\x011\x011\x011\r\n";
    let back = prefixed::decode(Shape::Outbound, frame).unwrap();
    assert_eq!(back.tag().as_ref().unwrap().color.red.bytes(), b"0.123456");
}

#[test]
fn prefixed_errors_come_in_a_fixed_order() {
    // bad text and bad channel, but a field is cut short: truncated
    assert_eq!(
        prefixed::decode(Shape::Outbound, b"\x01\xff\x01t\x01x\x011\x011\x051\r\n"),
        Err(DecodeError::Truncated)
    );
    // bad text and bad channel, no end: unterminated
    assert_eq!(
        prefixed::decode(Shape::Outbound, b"\x01\xff\x01t\x01x\x011\x011\x011"),
        Err(DecodeError::Unterminated)
    );
    // bad text and bad channel: bad text
    assert_eq!(
        prefixed::decode(Shape::Outbound, b"\x01\xff\x01t\x01x\x011\x011\x011\r\n"),
        Err(DecodeError::BadText)
    );
}

#[test]
fn prefixed_frame_end_finds_the_frame() {
    let frame = b"\x02go\x01t\x011\x011\x011\x011\r\n";
    assert_eq!(prefixed::frame_end(Shape::Outbound, frame), Some(frame.len()));
    let mut more = frame.to_vec();
    more.extend_from_slice(b"tail");
    assert_eq!(prefixed::frame_end(Shape::Outbound, &more), Some(frame.len()));
    assert_eq!(prefixed::frame_end(Shape::Inbound, frame), None);
    assert_eq!(prefixed::frame_end(Shape::Outbound, &frame[..frame.len() - 1]), None);
    assert_eq!(prefixed::frame_end(Shape::Outbound, b""), None);
}

use tagchat::codec::Codec;
use tagchat::color::{Channel, Color};
use tagchat::delimited;
use tagchat::errors::DecodeError;
use tagchat::message::{Message, Shape, Tag};

fn outbound(content: &str, room: usize) -> Message {
    Message::Outbound { content: content.to_string(), room, tag: None }
}

fn inbound(sender: &str, content: &str, room: usize) -> Message {
    Message::Inbound { sender: sender.to_string(), content: content.to_string(), room, tag: None }
}

#[test]
fn delimited_outbound_frame_is_content_colon_room() {
    let codec = Codec::Delimited { rooms: true };
    assert_eq!(codec.encode(&outbound("hi", 0)), Ok(b"hi:0\r\n".to_vec()));
}

#[test]
fn delimited_outbound_frame_is_the_same_without_rooms() {
    let codec = Codec::Delimited { rooms: false };
    assert_eq!(codec.encode(&outbound("hi", 0)), Ok(b"hi:0\r\n".to_vec()));
}

#[test]
fn delimited_sender_content_split() {
    let codec = Codec::Delimited { rooms: false };
    assert_eq!(
        codec.decode(Shape::Inbound, b"alice:hello\r\n"),
        Ok(inbound("alice", "hello", 0))
    );
}

#[test]
fn delimited_sender_content_split_keeps_later_colons() {
    let got = delimited::decode_inbound(b"alice:see: this\r\n", false);
    assert_eq!(got, Ok(inbound("alice", "see: this", 0)));
}

#[test]
fn delimited_sender_content_room_split() {
    let codec = Codec::Delimited { rooms: true };
    assert_eq!(
        codec.decode(Shape::Inbound, b"alice:hello:12\r\n"),
        Ok(inbound("alice", "hello", 12))
    );
}

#[test]
fn delimited_room_index_is_written_in_full() {
    assert_eq!(delimited::encode(&outbound("a", 9), true), b"a:9\r\n".to_vec());
    assert_eq!(delimited::encode(&outbound("a", 10), true), b"a:10\r\n".to_vec());
    assert_eq!(delimited::encode(&outbound("a", 99), true), b"a:99\r\n".to_vec());
    assert_eq!(delimited::encode(&outbound("a", 100), true), b"a:100\r\n".to_vec());
    assert_eq!(delimited::encode(&outbound("a", 205), true), b"a:205\r\n".to_vec());
    assert_eq!(delimited::encode(&outbound("a", 255), true), b"a:255\r\n".to_vec());
    assert_eq!(delimited::encode(&outbound("a", 256), true), b"a:256\r\n".to_vec());
    assert_eq!(delimited::encode(&outbound("a", 300), true), b"a:300\r\n".to_vec());
    assert_eq!(delimited::encode(&outbound("a", 1000000), true), b"a:1000000\r\n".to_vec());
    let most = format!("a:{}\r\n", usize::MAX).into_bytes();
    assert_eq!(delimited::encode(&outbound("a", usize::MAX), true), most);
}

#[test]
fn delimited_inbound_frames_of_both_kinds() {
    assert_eq!(delimited::encode(&inbound("bob", "yo", 3), true), b"bob:yo:3\r\n".to_vec());
    assert_eq!(delimited::encode(&inbound("bob", "yo", 3), false), b"bob:yo\r\n".to_vec());
}

#[test]
fn delimited_tag_does_not_travel() {
    let tag = Tag {
        name: "urgent".to_string(),
        color: Color {
            red: Channel::one(),
            green: Channel::zero(),
            blue: Channel::zero(),
            alpha: Channel::one(),
        },
    };
    let m = Message::Outbound { content: "go".to_string(), room: 1, tag: Some(tag) };
    let frame = delimited::encode(&m, true);
    assert_eq!(frame, b"go:1\r\n".to_vec());
    assert_eq!(delimited::decode_outbound(&frame), Ok(outbound("go", 1)));
}

#[test]
fn delimited_round_trip_outbound() {
    for rooms in [false, true] {
        let codec = Codec::Delimited { rooms };
        for room in [0usize, 7, 42, 128, 255, 256, 300, 65536, usize::MAX] {
            let m = outbound("grüße, wörld", room);
            let frame = codec.encode(&m).unwrap();
            assert_eq!(codec.decode(Shape::Outbound, &frame), Ok(m));
        }
    }
}

#[test]
fn delimited_round_trip_inbound_with_rooms() {
    let codec = Codec::Delimited { rooms: true };
    for room in [0usize, 1, 19, 200, 255, 256, 1000, usize::MAX] {
        let m = inbound("zoë", "¿qué tal?", room);
        let frame = codec.encode(&m).unwrap();
        assert_eq!(codec.decode(Shape::Inbound, &frame), Ok(m));
    }
}

#[test]
fn delimited_round_trip_inbound_without_rooms() {
    let codec = Codec::Delimited { rooms: false };
    let m = inbound("zoë", "a: b: c", 0);
    let frame = codec.encode(&m).unwrap();
    assert_eq!(codec.decode(Shape::Inbound, &frame), Ok(m));
}

#[test]
fn delimited_room_is_lost_without_rooms() {
    let codec = Codec::Delimited { rooms: false };
    let frame = codec.encode(&inbound("bob", "yo", 3)).unwrap();
    assert_eq!(codec.decode(Shape::Inbound, &frame), Ok(inbound("bob", "yo", 0)));
}

#[test]
fn delimited_empty_texts_are_fine() {
    assert_eq!(delimited::decode_inbound(b"::0\r\n", true), Ok(inbound("", "", 0)));
    assert_eq!(delimited::decode_inbound(b":\r\n", false), Ok(inbound("", "", 0)));
    assert_eq!(delimited::decode_outbound(b":5\r\n"), Ok(outbound("", 5)));
}

#[test]
fn delimited_unterminated_frames() {
    assert_eq!(delimited::decode_inbound(b"alice:hello:1", true), Err(DecodeError::Unterminated));
    assert_eq!(delimited::decode_inbound(b"alice:hello:1\n", true), Err(DecodeError::Unterminated));
    assert_eq!(delimited::decode_inbound(b"alice:hello:1\r", true), Err(DecodeError::Unterminated));
    assert_eq!(delimited::decode_inbound(b"", false), Err(DecodeError::Unterminated));
    assert_eq!(delimited::decode_inbound(b"\n", false), Err(DecodeError::Unterminated));
    assert_eq!(delimited::decode_outbound(b"hi:0"), Err(DecodeError::Unterminated));
}

#[test]
fn delimited_missing_delimiter() {
    assert_eq!(delimited::decode_inbound(b"hello\r\n", false), Err(DecodeError::MissingDelimiter));
    assert_eq!(delimited::decode_inbound(b"hello\r\n", true), Err(DecodeError::MissingDelimiter));
    assert_eq!(delimited::decode_inbound(b"a:hello\r\n", true), Err(DecodeError::MissingDelimiter));
    assert_eq!(delimited::decode_inbound(b"\r\n", true), Err(DecodeError::MissingDelimiter));
    assert_eq!(delimited::decode_outbound(b"hello\r\n"), Err(DecodeError::MissingDelimiter));
}

#[test]
fn delimited_malformed_room_index() {
    for frame in [
        &b"a:b:\r\n"[..],
        b"a:b:x\r\n",
        b"a:b:1x\r\n",
        b"a:b:99999999999999999999999999\r\n",
        b"a:b:000099999999999999999999999999\r\n",
        b"a:b:-1\r\n",
        b"a:b: 1\r\n",
        b"a:b:+\r\n",
        b"a:b:1:2\r\n",
        b"a:b:1.0\r\n",
    ] {
        assert_eq!(delimited::decode_inbound(frame, true), Err(DecodeError::BadRoomIndex));
    }
    assert_eq!(delimited::decode_outbound(b"a:b:\r\n"), Err(DecodeError::BadRoomIndex));
    assert_eq!(delimited::decode_outbound(b"a:b\r\n"), Err(DecodeError::BadRoomIndex));
    assert_eq!(
        delimited::decode_outbound(b"a:340282366920938463463374607431768211456\r\n"),
        Err(DecodeError::BadRoomIndex)
    );
}

#[test]
fn delimited_outbound_content_may_hold_colons() {
    assert_eq!(delimited::decode_outbound(b"a:b:1\r\n"), Ok(outbound("a:b", 1)));
    assert_eq!(delimited::decode_outbound(b"::::7\r\n"), Ok(outbound(":::", 7)));
    let m = outbound("see: this\r\nand: that", 12);
    let frame = delimited::encode(&m, true);
    assert_eq!(frame, b"see: this\r\nand: that:12\r\n".to_vec());
    assert_eq!(delimited::decode_outbound(&frame), Ok(m));
}

#[test]
fn delimited_tolerated_room_index() {
    assert_eq!(delimited::decode_inbound(b"a:b:007\r\n", true), Ok(inbound("a", "b", 7)));
    assert_eq!(delimited::decode_inbound(b"a:b:+7\r\n", true), Ok(inbound("a", "b", 7)));
    assert_eq!(delimited::decode_inbound(b"a:b:0000255\r\n", true), Ok(inbound("a", "b", 255)));
    assert_eq!(delimited::decode_inbound(b"a:b:255\r\n", true), Ok(inbound("a", "b", 255)));
    assert_eq!(delimited::decode_inbound(b"a:b:256\r\n", true), Ok(inbound("a", "b", 256)));
    assert_eq!(delimited::decode_inbound(b"a:b:1000\r\n", true), Ok(inbound("a", "b", 1000)));
    let most = format!("a:b:{}\r\n", usize::MAX).into_bytes();
    assert_eq!(delimited::decode_inbound(&most, true), Ok(inbound("a", "b", usize::MAX)));
}

#[test]
fn delimited_room_index_one_past_the_largest() {
    // the largest index with its last digit raised by one
    let mut digits = usize::MAX.to_string().into_bytes();
    let last = digits.len() - 1;
    assert!(digits[last] < b'9');
    digits[last] += 1;
    let mut frame = b"a:b:".to_vec();
    frame.extend_from_slice(&digits);
    frame.extend_from_slice(b"\r\n");
    assert_eq!(delimited::decode_inbound(&frame, true), Err(DecodeError::BadRoomIndex));
}

#[test]
fn delimited_text_that_is_not_utf8() {
    assert_eq!(delimited::decode_inbound(b"a\xff:b:1\r\n", true), Err(DecodeError::BadText));
    assert_eq!(delimited::decode_inbound(b"a:b\xc3:1\r\n", true), Err(DecodeError::BadText));
    assert_eq!(delimited::decode_inbound(b"a:\x80\r\n", false), Err(DecodeError::BadText));
    assert_eq!(delimited::decode_outbound(b"\xe2\x82:1\r\n"), Err(DecodeError::BadText));
}

#[test]
fn delimited_text_that_is_utf8_is_read_as_text() {
    let got = delimited::decode_inbound(b"\xc3\xa9:\xe2\x82\xac:1\r\n", true);
    assert_eq!(got, Ok(inbound("é", "€", 1)));
}

#[test]
fn delimited_errors_come_in_a_fixed_order() {
    assert_eq!(delimited::decode_inbound(b"\xff:b:x", true), Err(DecodeError::Unterminated));
    assert_eq!(delimited::decode_inbound(b"\xff:b:x\r\n", true), Err(DecodeError::BadRoomIndex));
    assert_eq!(delimited::decode_inbound(b"\xff:b\r\n", true), Err(DecodeError::MissingDelimiter));
}

#[test]
fn delimited_decode_goes_by_shape() {
    assert_eq!(
        delimited::decode(Shape::Outbound, b"hi:3\r\n", true),
        Ok(outbound("hi", 3))
    );
    assert_eq!(
        delimited::decode(Shape::Inbound, b"hi:3\r\n", false),
        Ok(inbound("hi", "3", 0))
    );
}

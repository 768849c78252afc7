use tagchat::color::{check_decimal, Channel, Color};
use tagchat::decimal::{append_decimal, read_index};
use tagchat::message::{Message, Shape, Tag};
use tagchat::text::{
    append_bytes, append_crlf, append_text, contains_bytes, contains_text, copy_bytes, copy_range,
    find_byte, find_crlf, matches_at, same_bytes, same_text, text_bytes, text_from_bytes,
};

#[test]
fn text_from_bytes_reads_utf8() {
    assert_eq!(text_from_bytes(b"hello".to_vec()), Some("hello".to_string()));
    assert_eq!(text_from_bytes(vec![0xe2, 0x82, 0xac]), Some("€".to_string()));
    assert_eq!(text_from_bytes(Vec::new()), Some(String::new()));
}

#[test]
fn text_from_bytes_refuses_what_is_not_utf8() {
    assert_eq!(text_from_bytes(vec![0xff]), None);
    assert_eq!(text_from_bytes(vec![0xe2, 0x82]), None);
    assert_eq!(text_from_bytes(vec![0xc0, 0x80]), None);
    assert_eq!(text_from_bytes(vec![0xed, 0xa0, 0x80]), None);
}

#[test]
fn bytes_are_appended_in_order() {
    let mut out = vec![1u8];
    append_bytes(&mut out, &[2, 3]);
    append_text(&mut out, "é");
    append_crlf(&mut out);
    assert_eq!(out, vec![1, 2, 3, 0xc3, 0xa9, 13, 10]);
    assert_eq!(text_bytes("aé"), vec![b'a', 0xc3, 0xa9]);
}

#[test]
fn ranges_are_copied() {
    let buf = b"abcdef";
    assert_eq!(copy_range(buf, 1, 4), b"bcd".to_vec());
    assert_eq!(copy_range(buf, 2, 2), Vec::<u8>::new());
    assert_eq!(copy_range(buf, 0, 6), buf.to_vec());
    assert_eq!(copy_bytes(buf), buf.to_vec());
}

#[test]
fn same_bytes_and_same_text() {
    assert!(same_bytes(b"abc", b"abc"));
    assert!(!same_bytes(b"abc", b"abd"));
    assert!(!same_bytes(b"abc", b"ab"));
    assert!(same_bytes(b"", b""));
    assert!(same_text("zoë", "zoë"));
    assert!(!same_text("zoë", "zoe"));
}

#[test]
fn find_byte_gives_the_first() {
    let buf = b"a:b:c";
    assert_eq!(find_byte(buf, b':', 0, 5), 1);
    assert_eq!(find_byte(buf, b':', 2, 5), 3);
    assert_eq!(find_byte(buf, b':', 4, 5), 5);
    assert_eq!(find_byte(buf, b':', 0, 1), 1);
    assert_eq!(find_byte(buf, b'x', 0, 5), 5);
    assert_eq!(find_byte(buf, b'a', 0, 0), 0);
}

#[test]
fn find_crlf_gives_the_first() {
    assert_eq!(find_crlf(b"ab\r\ncd\r\n"), 2);
    assert_eq!(find_crlf(b"\r\n"), 0);
    assert_eq!(find_crlf(b"ab\rcd\n"), 6);
    assert_eq!(find_crlf(b"ab\n\rcd"), 6);
    assert_eq!(find_crlf(b"\r\r\n"), 1);
    assert_eq!(find_crlf(b"\r"), 1);
    assert_eq!(find_crlf(b""), 0);
}

#[test]
fn search_in_bytes() {
    assert!(contains_bytes(b"", b""));
    assert!(contains_bytes(b"", b"abc"));
    assert!(contains_bytes(b"abc", b"abc"));
    assert!(contains_bytes(b"bc", b"abc"));
    assert!(contains_bytes(b"ab", b"abc"));
    assert!(contains_bytes(b"b", b"abc"));
    assert!(!contains_bytes(b"abcd", b"abc"));
    assert!(!contains_bytes(b"ac", b"abc"));
    assert!(contains_bytes(b"aab", b"aaab"));
    assert!(matches_at(b"bc", b"abc", 1));
    assert!(!matches_at(b"bc", b"abc", 0));
    assert!(matches_at(b"", b"abc", 3));
}

#[test]
fn search_in_texts() {
    assert!(contains_text("llo w", "hello world"));
    assert!(contains_text("é", "café"));
    assert!(!contains_text("e", "café"));
    assert!(contains_text("", ""));
    assert!(!contains_text("x", ""));
}

#[test]
fn decimal_notation() {
    let cases: [(usize, &[u8]); 13] = [
        (0, b"0"),
        (5, b"5"),
        (9, b"9"),
        (10, b"10"),
        (42, b"42"),
        (99, b"99"),
        (100, b"100"),
        (109, b"109"),
        (255, b"255"),
        (256, b"256"),
        (300, b"300"),
        (65535, b"65535"),
        (1234567890, b"1234567890"),
    ];
    for (n, text) in cases {
        let mut out = Vec::new();
        append_decimal(&mut out, n);
        assert_eq!(out, text.to_vec());
    }
    let mut out = vec![b'x'];
    append_decimal(&mut out, 70);
    assert_eq!(out, b"x70".to_vec());
}

#[test]
fn every_index_reads_back() {
    let some = (0..=2000usize).chain([9999, 10000, 65535, 65536, 4294967295, usize::MAX - 1, usize::MAX]);
    for n in some {
        let mut out = Vec::new();
        append_decimal(&mut out, n);
        assert_eq!(out, n.to_string().into_bytes());
        assert_eq!(read_index(&out), Some(n));
    }
}

#[test]
fn read_index_is_tolerant_and_exact() {
    assert_eq!(read_index(b"0"), Some(0));
    assert_eq!(read_index(b"255"), Some(255));
    assert_eq!(read_index(b"256"), Some(256));
    assert_eq!(read_index(b"+255"), Some(255));
    assert_eq!(read_index(b"000"), Some(0));
    assert_eq!(read_index(b"0000000000000000000000000000000000012"), Some(12));
    assert_eq!(read_index(usize::MAX.to_string().as_bytes()), Some(usize::MAX));
    assert_eq!(read_index(b"340282366920938463463374607431768211456"), None);
    assert_eq!(read_index(b"99999999999999999999999999999999999999999"), None);
    assert_eq!(read_index(b""), None);
    assert_eq!(read_index(b"+"), None);
    assert_eq!(read_index(b"++1"), None);
    assert_eq!(read_index(b"-1"), None);
    assert_eq!(read_index(b"1 "), None);
    assert_eq!(read_index(b"12a"), None);
    assert_eq!(read_index(b"1+"), None);
    assert_eq!(read_index(b"\r\n"), None);
}

#[test]
fn read_index_agrees_with_integer_parsing() {
    let most = usize::MAX.to_string();
    let past = format!("{}0", most);
    let texts: [&str; 16] = [
        "7", "07", "+7", "255", "256", "70000", "", "+", "-0", "1e1", "0x1", " 1", "25 ", &most,
        &past, "18446744073709551616",
    ];
    for text in texts {
        assert_eq!(read_index(text.as_bytes()), text.parse::<usize>().ok());
    }
}

#[test]
fn decimal_texts() {
    for good in ["0", "1", "0.5", "1.0", "-1", "-0.25", ".5", "5.", "-.5", "-5.", "0012", "123456.789"] {
        assert!(check_decimal(good.as_bytes()));
        assert_eq!(Channel::parse(good).unwrap().bytes(), good.as_bytes());
        assert!(good.parse::<f32>().is_ok());
    }
    for bad in ["", "-", ".", "-.", "1..", "1.2.3", "--1", "1-", "+1", "1e5", "inf", "NaN", " 1", "1 ", "٣"] {
        assert!(!check_decimal(bad.as_bytes()));
        assert_eq!(Channel::parse(bad), None);
        assert_eq!(Channel::new(bad.as_bytes().to_vec()), None);
    }
}

#[test]
fn channel_constants_and_copies() {
    assert_eq!(Channel::zero().bytes(), b"0");
    assert_eq!(Channel::one().bytes(), b"1");
    let c = Channel::parse("0.75").unwrap();
    assert_eq!(c.clone(), c);
    let black = Color::black();
    assert_eq!(black.red, Channel::zero());
    assert_eq!(black.green, Channel::zero());
    assert_eq!(black.blue, Channel::zero());
    assert_eq!(black.alpha, Channel::one());
    assert_eq!(black.clone(), black);
}

#[test]
fn default_tag_is_black_and_undefined() {
    let tag = Tag::default();
    assert_eq!(tag.name, "undefined");
    assert_eq!(tag.color, Color::black());
    assert_eq!(tag.clone(), tag);
}

#[test]
fn message_parts() {
    let out = Message::Outbound { content: "a".to_string(), room: 3, tag: None };
    assert_eq!(out.shape(), Shape::Outbound);
    assert_eq!(out.content(), "a");
    assert_eq!(out.room(), 3);
    assert_eq!(out.tag(), &None);
    assert_eq!(out.clone(), out);
    let inb = Message::Inbound {
        sender: "s".to_string(),
        content: "b".to_string(),
        room: 4,
        tag: Some(Tag::default()),
    };
    assert_eq!(inb.shape(), Shape::Inbound);
    assert_eq!(inb.content(), "b");
    assert_eq!(inb.room(), 4);
    assert_eq!(inb.tag(), &Some(Tag::default()));
    assert_eq!(inb.clone(), inb);
}

//! Texts and the bytes that carry them.
//!
//! A text is modelled as its sequence of characters; on the wire it is its
//! UTF-8 encoding. Everything else in this module is plain byte handling:
//! copying, searching and comparing ranges of a buffer.

use vstd::prelude::*;
use vstd::utf8::{
    decode_utf8, encode_scalar, encode_utf8, has_width_1_encoding, is_scalar, valid_utf8,
};

verus! {

/// The byte `\r`.
pub const CR: u8 = 13;

/// The byte `\n`.
pub const LF: u8 = 10;

/// The byte `:`.
pub const COLON: u8 = 58;

/// The two bytes that end every frame.
pub open spec fn crlf() -> Seq<u8> {
    seq![CR, LF]
}

/// The bytes that stand for a text on the wire.
pub open spec fn wire_bytes(text: Seq<char>) -> Seq<u8> {
    encode_utf8(text)
}

/// `String::from_utf8` of the standard library: the text whose UTF-8
/// encoding is `bytes`. It answers `None` exactly when the bytes are not
/// well-formed UTF-8, and otherwise the string that holds those same bytes.
#[verifier::external_body]
fn string_from_utf8(bytes: Vec<u8>) -> (r: Option<String>)
    ensures
        r is Some <==> valid_utf8(bytes@),
        r matches Some(s) ==> encode_utf8(s@) == bytes@,
{
    match String::from_utf8(bytes) {
        Ok(s) => Some(s),
        Err(_) => None,
    }
}

/// Reads a text back from its wire bytes.
pub fn text_from_bytes(bytes: Vec<u8>) -> (r: Option<String>)
    ensures
        r is Some <==> valid_utf8(bytes@),
        r matches Some(s) ==> s@ == decode_utf8(bytes@),
{
    match string_from_utf8(bytes) {
        Some(s) => {
            proof {
                vstd::utf8::encode_utf8_decode_utf8(s@);
            }
            Some(s)
        },
        None => None,
    }
}

/// Appends `bytes` to `out`.
pub fn append_bytes(out: &mut Vec<u8>, bytes: &[u8])
    ensures
        final(out)@ == old(out)@ + bytes@,
{
    let mut i: usize = 0;
    while i < bytes.len()
        invariant
            i <= bytes@.len(),
            out@ == old(out)@ + bytes@.subrange(0, i as int),
        decreases bytes@.len() - i,
    {
        out.push(bytes[i]);
        i += 1;
        assert(bytes@.subrange(0, i as int) == bytes@.subrange(0, i - 1).push(bytes@[i - 1]));
    }
    assert(bytes@.subrange(0, i as int) == bytes@);
}

/// Appends the wire bytes of `text` to `out`.
pub fn append_text(out: &mut Vec<u8>, text: &str)
    ensures
        final(out)@ == old(out)@ + wire_bytes(text@),
{
    append_bytes(out, text.as_bytes());
}

/// Copies the bytes of `buf` from `from` up to `to`.
pub fn copy_range(buf: &[u8], from: usize, to: usize) -> (r: Vec<u8>)
    requires
        from <= to <= buf@.len(),
    ensures
        r@ == buf@.subrange(from as int, to as int),
{
    let mut r: Vec<u8> = Vec::new();
    let mut i: usize = from;
    while i < to
        invariant
            from <= i <= to <= buf@.len(),
            r@ == buf@.subrange(from as int, i as int),
        decreases to - i,
    {
        r.push(buf[i]);
        i += 1;
        assert(buf@.subrange(from as int, i as int) == buf@.subrange(from as int, i - 1).push(
            buf@[i - 1],
        ));
    }
    r
}

/// Copies all of `buf`.
pub fn copy_bytes(buf: &[u8]) -> (r: Vec<u8>)
    ensures
        r@ == buf@,
{
    let r = copy_range(buf, 0, buf.len());
    assert(buf@.subrange(0, buf@.len() as int) == buf@);
    r
}

/// The wire bytes of `text`.
pub fn text_bytes(text: &str) -> (r: Vec<u8>)
    ensures
        r@ == wire_bytes(text@),
{
    copy_bytes(text.as_bytes())
}

/// Decides whether two runs of bytes are the same.
pub fn same_bytes(a: &[u8], b: &[u8]) -> (same: bool)
    ensures
        same == (a@ == b@),
{
    if a.len() != b.len() {
        return false;
    }
    let mut i: usize = 0;
    while i < a.len()
        invariant
            a@.len() == b@.len(),
            i <= a@.len(),
            forall|k: int| 0 <= k < i ==> a@[k] == b@[k],
        decreases a@.len() - i,
    {
        if a[i] != b[i] {
            return false;
        }
        i += 1;
    }
    assert(a@ =~= b@);
    true
}

/// Decides whether two texts are the same.
pub fn same_text(a: &str, b: &str) -> (same: bool)
    ensures
        same == (a@ == b@),
{
    proof {
        vstd::utf8::encode_utf8_decode_utf8(a@);
        vstd::utf8::encode_utf8_decode_utf8(b@);
    }
    same_bytes(a.as_bytes(), b.as_bytes())
}

/// Whether `needle` stands in `hay` at `at`.
pub open spec fn occurs_at(needle: Seq<u8>, hay: Seq<u8>, at: int) -> bool {
    0 <= at && at + needle.len() <= hay.len() && hay.subrange(at, at + needle.len()) == needle
}

/// Whether `needle` stands somewhere in `hay`. The empty run stands in
/// every run.
pub open spec fn occurs_in(needle: Seq<u8>, hay: Seq<u8>) -> bool {
    exists|at: int| occurs_at(needle, hay, at)
}

/// Decides whether `needle` stands in `hay` at `at`.
pub fn matches_at(needle: &[u8], hay: &[u8], at: usize) -> (r: bool)
    requires
        at + needle@.len() <= hay@.len(),
    ensures
        r == occurs_at(needle@, hay@, at as int),
{
    let ghost part = hay@.subrange(at as int, at + needle@.len());
    let n: usize = hay.len();
    let mut i: usize = 0;
    while i < needle.len()
        invariant
            n == hay@.len(),
            at + needle@.len() <= hay@.len(),
            part == hay@.subrange(at as int, at + needle@.len()),
            i <= needle@.len(),
            forall|k: int| 0 <= k < i ==> part[k] == needle@[k],
        decreases needle@.len() - i,
    {
        if hay[at + i] != needle[i] {
            assert(part[i as int] != needle@[i as int]);
            return false;
        }
        assert(part[i as int] == hay@[at + i]);
        i += 1;
    }
    assert(part =~= needle@);
    true
}

/// Decides whether `needle` stands somewhere in `hay`.
pub fn contains_bytes(needle: &[u8], hay: &[u8]) -> (r: bool)
    ensures
        r == occurs_in(needle@, hay@),
{
    if needle.len() == 0 {
        assert(occurs_at(needle@, hay@, 0)) by {
            assert(hay@.subrange(0, 0) =~= needle@);
        }
        return true;
    }
    let n: usize = hay.len();
    let mut at: usize = 0;
    while n - at >= needle.len()
        invariant
            n == hay@.len(),
            needle@.len() > 0,
            at <= n,
            forall|k: int| 0 <= k < at ==> !occurs_at(needle@, hay@, k),
        decreases n - at,
    {
        if matches_at(needle, hay, at) {
            return true;
        }
        at += 1;
    }
    false
}

/// Decides whether the text `pattern` stands somewhere in the text `text`.
pub fn contains_text(pattern: &str, text: &str) -> (r: bool)
    ensures
        r == occurs_in(wire_bytes(pattern@), wire_bytes(text@)),
{
    contains_bytes(pattern.as_bytes(), text.as_bytes())
}

/// The place of the first `b` in `buf`, or the length of `buf` where it
/// holds none.
pub open spec fn first_at(buf: Seq<u8>, b: u8) -> int
    decreases buf.len(),
{
    if buf.len() == 0 {
        0
    } else if buf[0] == b {
        0
    } else {
        1 + first_at(buf.drop_first(), b)
    }
}

/// Whether `buf` holds the byte `b`.
pub open spec fn holds(buf: Seq<u8>, b: u8) -> bool {
    exists|i: int| 0 <= i < buf.len() && buf[i] == b
}

/// `first_at` names a place in `buf` or its end, no `b` stands before that
/// place, and one stands there unless it is the end.
pub proof fn lemma_first_at(buf: Seq<u8>, b: u8)
    ensures
        0 <= first_at(buf, b) <= buf.len(),
        forall|k: int| 0 <= k < first_at(buf, b) ==> buf[k] != b,
        first_at(buf, b) < buf.len() ==> buf[first_at(buf, b)] == b,
        first_at(buf, b) < buf.len() <==> holds(buf, b),
    decreases buf.len(),
{
    if buf.len() > 0 && buf[0] != b {
        let rest = buf.drop_first();
        lemma_first_at(rest, b);
        assert forall|k: int| 0 <= k < first_at(buf, b) implies buf[k] != b by {
            if k > 0 {
                assert(buf[k] == rest[k - 1]);
            }
        }
        if first_at(buf, b) < buf.len() {
            assert(buf[first_at(buf, b)] == rest[first_at(rest, b)]);
        }
    }
    if holds(buf, b) {
        let i = choose|i: int| 0 <= i < buf.len() && buf[i] == b;
        assert(first_at(buf, b) <= i);
    }
}

/// Two runs of bytes, one behind the other, hold `b` exactly if one of them
/// does.
pub proof fn lemma_holds_concat(head: Seq<u8>, tail: Seq<u8>, b: u8)
    ensures
        holds(head + tail, b) <==> holds(head, b) || holds(tail, b),
{
    let both = head + tail;
    if holds(both, b) {
        let i = choose|i: int| 0 <= i < both.len() && both[i] == b;
        if i < head.len() {
            assert(head[i] == b);
        } else {
            assert(tail[i - head.len()] == b);
        }
    }
    if holds(head, b) {
        let i = choose|i: int| 0 <= i < head.len() && head[i] == b;
        assert(both[i] == b);
    }
    if holds(tail, b) {
        let i = choose|i: int| 0 <= i < tail.len() && tail[i] == b;
        assert(both[head.len() + i] == b);
    }
}

/// The place that no `b` stands before, and where one stands unless it is
/// the end of `buf`, is the one that `first_at` names.
pub proof fn lemma_first_at_is(buf: Seq<u8>, b: u8, p: int)
    requires
        0 <= p <= buf.len(),
        forall|k: int| 0 <= k < p ==> buf[k] != b,
        p < buf.len() ==> buf[p] == b,
    ensures
        first_at(buf, b) == p,
{
    lemma_first_at(buf, b);
    let q = first_at(buf, b);
    if q < p {
        assert(buf[q] != b);
    } else if p < q {
        assert(buf[p] == b);
    }
}

/// Finds the first `b` among the bytes of `buf` from `from` up to `to`; the
/// result is `to` where there is none.
pub fn find_byte(buf: &[u8], b: u8, from: usize, to: usize) -> (r: usize)
    requires
        from <= to <= buf@.len(),
    ensures
        r == from + first_at(buf@.subrange(from as int, to as int), b),
        from <= r <= to,
{
    let ghost part = buf@.subrange(from as int, to as int);
    let mut i: usize = from;
    while i < to && buf[i] != b
        invariant
            from <= i <= to <= buf@.len(),
            part == buf@.subrange(from as int, to as int),
            forall|k: int| 0 <= k < i - from ==> part[k] != b,
        decreases to - i,
    {
        assert(part[i - from] == buf@[i as int]);
        i += 1;
    }
    proof {
        if i < to {
            assert(part[i - from] == buf@[i as int]);
        }
        lemma_first_at_is(part, b, i - from);
    }
    i
}

/// The place of the last `b` in `buf`, or -1 where it holds none.
pub open spec fn last_at(buf: Seq<u8>, b: u8) -> int
    decreases buf.len(),
{
    if buf.len() == 0 {
        -1
    } else if buf.last() == b {
        buf.len() - 1
    } else {
        last_at(buf.drop_last(), b)
    }
}

/// `last_at` names a place in `buf` where `b` stands, or -1, and no `b`
/// stands behind that place.
pub proof fn lemma_last_at(buf: Seq<u8>, b: u8)
    ensures
        -1 <= last_at(buf, b) < buf.len(),
        forall|k: int| last_at(buf, b) < k < buf.len() ==> buf[k] != b,
        last_at(buf, b) >= 0 ==> buf[last_at(buf, b)] == b,
        last_at(buf, b) >= 0 <==> holds(buf, b),
    decreases buf.len(),
{
    if buf.len() > 0 && buf.last() != b {
        let front = buf.drop_last();
        lemma_last_at(front, b);
        assert forall|k: int| last_at(buf, b) < k < buf.len() implies buf[k] != b by {
            if k < front.len() {
                assert(buf[k] == front[k]);
            }
        }
        if last_at(buf, b) >= 0 {
            assert(buf[last_at(buf, b)] == front[last_at(front, b)]);
        }
    }
    if holds(buf, b) {
        let i = choose|i: int| 0 <= i < buf.len() && buf[i] == b;
        assert(last_at(buf, b) >= i);
    }
}

/// The place where `b` stands and behind which none stands is the one that
/// `last_at` names; where no `b` stands at all, that is -1.
pub proof fn lemma_last_at_is(buf: Seq<u8>, b: u8, p: int)
    requires
        -1 <= p < buf.len(),
        forall|k: int| p < k < buf.len() ==> buf[k] != b,
        p >= 0 ==> buf[p] == b,
    ensures
        last_at(buf, b) == p,
{
    lemma_last_at(buf, b);
    let q = last_at(buf, b);
    if q > p {
        assert(buf[q] != b);
    } else if p > q {
        assert(buf[p] == b);
    }
}

/// Finds the last `b` among the first `to` bytes of `buf`, if there is one.
pub fn find_last_byte(buf: &[u8], b: u8, to: usize) -> (r: Option<usize>)
    requires
        to <= buf@.len(),
    ensures
        r matches Some(at) ==> at == last_at(buf@.subrange(0, to as int), b) && at < to,
        r is None ==> last_at(buf@.subrange(0, to as int), b) == -1,
{
    let ghost part = buf@.subrange(0, to as int);
    let mut i: usize = to;
    while i > 0
        invariant
            i <= to <= buf@.len(),
            part == buf@.subrange(0, to as int),
            forall|k: int| i <= k < to ==> part[k] != b,
        decreases i,
    {
        i -= 1;
        assert(part[i as int] == buf@[i as int]);
        if buf[i] == b {
            proof {
                lemma_last_at_is(part, b, i as int);
            }
            return Some(i);
        }
    }
    proof {
        lemma_last_at_is(part, b, -1);
    }
    None
}

/// Every byte that `x` is or-ed into keeps the high bit of the mask.
proof fn lemma_high_bit(x: u8)
    ensures
        0xC0u8 | x >= 0x80,
        0xE0u8 | x >= 0x80,
        0xF0u8 | x >= 0x80,
        0x80u8 | x >= 0x80,
{
    assert(0xC0u8 | x >= 0x80) by (bit_vector);
    assert(0xE0u8 | x >= 0x80) by (bit_vector);
    assert(0xF0u8 | x >= 0x80) by (bit_vector);
    assert(0x80u8 | x >= 0x80) by (bit_vector);
}

/// The encoding of a character holds a byte below 128 exactly if the
/// character is that byte.
proof fn lemma_ascii_byte_in_scalar(v: u32, b: u8)
    requires
        is_scalar(v),
        b < 0x80,
    ensures
        holds(encode_scalar(v), b) <==> v == b,
{
    let bytes = encode_scalar(v);
    if has_width_1_encoding(v) {
        assert(v & 0x7F == v) by (bit_vector)
            requires
                v <= 0x7F,
        ;
        assert(bytes[0] == v);
        if holds(bytes, b) {
            let i = choose|i: int| 0 <= i < bytes.len() && bytes[i] == b;
            assert(i == 0);
        }
    } else {
        lemma_high_bit(((v >> 6) & 0x1F) as u8);
        lemma_high_bit(((v >> 12) & 0x0F) as u8);
        lemma_high_bit(((v >> 18) & 0x7) as u8);
        lemma_high_bit((v & 0x3F) as u8);
        lemma_high_bit(((v >> 6) & 0x3F) as u8);
        lemma_high_bit(((v >> 12) & 0x3F) as u8);
        assert forall|i: int| 0 <= i < bytes.len() implies bytes[i] >= 0x80 by {}
        if holds(bytes, b) {
            let i = choose|i: int| 0 <= i < bytes.len() && bytes[i] == b;
            assert(bytes[i] >= 0x80);
        }
    }
}

/// The wire bytes of a text hold a byte below 128 exactly if the text holds
/// the character that this byte stands for.
pub proof fn lemma_ascii_byte_in_text(text: Seq<char>, c: char)
    requires
        (c as u32) < 0x80,
    ensures
        holds(wire_bytes(text), c as u8) <==> text.contains(c),
    decreases text.len(),
{
    if text.len() == 0 {
        assert(!holds(wire_bytes(text), c as u8));
        assert(!text.contains(c));
    } else {
        let rest = text.drop_first();
        let first = text[0] as u32;
        let b = c as u8;
        vstd::utf8::char_is_scalar(text[0]);
        lemma_ascii_byte_in_scalar(first, b);
        lemma_ascii_byte_in_text(rest, c);
        lemma_holds_concat(encode_scalar(first), encode_utf8(rest), b);
        assert(wire_bytes(text) == encode_scalar(first) + encode_utf8(rest));
        assert(b == c as u32);
        assert(first == b <==> text[0] == c) by {
            vstd::utf8::char_u32_cast(text[0], first);
            vstd::utf8::char_u32_cast(c, c as u32);
        }
        if text.contains(c) {
            let i = choose|i: int| 0 <= i < text.len() && text[i] == c;
            if i > 0 {
                assert(rest[i - 1] == c);
            }
        }
        if rest.contains(c) {
            let i = choose|i: int| 0 <= i < rest.len() && rest[i] == c;
            assert(text[i + 1] == c);
        }
        if text[0] == c {
            assert(text.contains(c));
        }
    }
}

/// Whether `frame` ends with the two bytes that end a frame.
pub open spec fn is_terminated(frame: Seq<u8>) -> bool {
    frame.len() >= 2 && frame[frame.len() - 2] == CR && frame[frame.len() - 1] == LF
}

/// A terminated frame without its last two bytes.
pub open spec fn payload(frame: Seq<u8>) -> Seq<u8>
    recommends
        is_terminated(frame),
{
    frame.subrange(0, frame.len() - 2)
}

/// The place of the first `\r\n` in `buf`, or the length of `buf` where it
/// holds none.
pub open spec fn first_crlf(buf: Seq<u8>) -> int
    decreases buf.len(),
{
    if buf.len() < 2 {
        buf.len() as int
    } else if buf[0] == CR && buf[1] == LF {
        0
    } else {
        1 + first_crlf(buf.drop_first())
    }
}

/// Whether `\r\n` stands in `buf` at `k`.
pub open spec fn crlf_at(buf: Seq<u8>, k: int) -> bool {
    0 <= k && k + 2 <= buf.len() && buf[k] == CR && buf[k + 1] == LF
}

/// `first_crlf` names the place of a `\r\n` or the end of `buf`, and no
/// `\r\n` stands before that place.
pub proof fn lemma_first_crlf(buf: Seq<u8>)
    ensures
        crlf_at(buf, first_crlf(buf)) || first_crlf(buf) == buf.len(),
        forall|k: int| 0 <= k < first_crlf(buf) ==> !crlf_at(buf, k),
    decreases buf.len(),
{
    if buf.len() >= 2 && !(buf[0] == CR && buf[1] == LF) {
        let rest = buf.drop_first();
        lemma_first_crlf(rest);
        assert forall|k: int| 0 <= k < first_crlf(buf) implies !crlf_at(buf, k) by {
            if k > 0 && crlf_at(buf, k) {
                assert(crlf_at(rest, k - 1));
            }
        }
        if crlf_at(rest, first_crlf(rest)) {
            assert(crlf_at(buf, first_crlf(buf)));
        }
    }
}

/// The place that no `\r\n` stands before, and where one stands unless it
/// is the end of `buf`, is the one that `first_crlf` names.
pub proof fn lemma_first_crlf_is(buf: Seq<u8>, p: int)
    requires
        crlf_at(buf, p) || p == buf.len(),
        forall|k: int| 0 <= k < p ==> !crlf_at(buf, k),
    ensures
        first_crlf(buf) == p,
{
    lemma_first_crlf(buf);
    let q = first_crlf(buf);
    if q < p {
        assert(!crlf_at(buf, q));
    } else if p < q {
        assert(crlf_at(buf, p));
    }
}

/// A line without `\n`, then `\r\n`, then anything: the first `\r\n` is the
/// one behind the line.
pub proof fn lemma_first_crlf_behind(line: Seq<u8>, rest: Seq<u8>)
    requires
        !holds(line, LF),
    ensures
        first_crlf(line + crlf() + rest) == line.len(),
{
    let buf = line + crlf() + rest;
    let p = line.len() as int;
    assert(buf[p] == CR && buf[p + 1] == LF);
    assert forall|k: int| 0 <= k < p implies !crlf_at(buf, k) by {
        if k + 1 < p {
            assert(buf[k + 1] == line[k + 1]);
        }
    }
    lemma_first_crlf_is(buf, p);
}

/// Finds the first `\r\n` in `buf`; the result is the length of `buf` where
/// there is none.
pub fn find_crlf(buf: &[u8]) -> (r: usize)
    ensures
        r == first_crlf(buf@),
        r == buf@.len() || r + 2 <= buf@.len(),
{
    let n: usize = buf.len();
    let mut i: usize = 0;
    while n - i >= 2
        invariant
            i <= n,
            n == buf@.len(),
            forall|k: int| 0 <= k < i ==> !crlf_at(buf@, k),
        decreases n - i,
    {
        if buf[i] == CR && buf[i + 1] == LF {
            proof {
                lemma_first_crlf_is(buf@, i as int);
            }
            return i;
        }
        i += 1;
    }
    proof {
        lemma_first_crlf_is(buf@, n as int);
    }
    n
}

/// Appends the two bytes that end a frame.
pub fn append_crlf(out: &mut Vec<u8>)
    ensures
        final(out)@ == old(out)@ + crlf(),
{
    out.push(CR);
    out.push(LF);
    assert(out@ == old(out)@ + crlf());
}

} // verus!

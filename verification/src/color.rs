//! Colour channels in wire notation.
//!
//! A colour travels as four channels, red, green, blue and alpha, each written
//! as a decimal text: an optional minus sign, then digits with at most one
//! point among them, and at least one digit. The library never computes with
//! a channel's value; it keeps the text, checks its form and cuts it to the
//! width that a frame allows.

use crate::text::{copy_bytes, text_bytes, wire_bytes};
use vstd::prelude::*;

verus! {

/// The byte `-`.
pub const MINUS: u8 = 45;

/// The byte `.`.
pub const POINT: u8 = 46;

/// The most bytes of a channel's text that a frame carries.
pub const CHANNEL_WIDTH: usize = 4;

/// Whether `b` is one of the bytes `0` to `9`.
pub open spec fn is_digit(b: u8) -> bool {
    48 <= b <= 57
}

/// Where the digits and the point of a decimal text begin: behind the sign,
/// where there is one.
pub open spec fn body_start(text: Seq<u8>) -> int {
    if text.len() > 0 && text[0] == MINUS {
        1
    } else {
        0
    }
}

/// Whether `text` is a decimal text.
pub open spec fn is_decimal(text: Seq<u8>) -> bool {
    let from = body_start(text);
    &&& forall|i: int| from <= i < text.len() ==> is_digit(#[trigger] text[i]) || text[i] == POINT
    &&& forall|i: int, j: int|
        from <= i < text.len() && from <= j < text.len() && #[trigger] text[i] == POINT
            && #[trigger] text[j] == POINT ==> i == j
    &&& exists|i: int| from <= i < text.len() && is_digit(#[trigger] text[i])
}

/// What a frame carries of a channel's text: all of it, or its first
/// [`CHANNEL_WIDTH`] bytes where it is longer.
pub open spec fn truncated(text: Seq<u8>) -> Seq<u8> {
    if text.len() > CHANNEL_WIDTH {
        text.subrange(0, CHANNEL_WIDTH as int)
    } else {
        text
    }
}

/// Cutting a decimal text to the width of a frame leaves a decimal text.
pub proof fn lemma_truncated_is_decimal(text: Seq<u8>)
    requires
        is_decimal(text),
    ensures
        is_decimal(truncated(text)),
        truncated(text).len() <= CHANNEL_WIDTH,
        truncated(truncated(text)) == truncated(text),
{
    if text.len() > CHANNEL_WIDTH {
        let cut = truncated(text);
        let from = body_start(text);
        assert(body_start(cut) == from);
        assert forall|i: int| from <= i < cut.len() implies is_digit(#[trigger] cut[i]) || cut[i]
            == POINT by {
            assert(cut[i] == text[i]);
        }
        assert forall|i: int, j: int|
            from <= i < cut.len() && from <= j < cut.len() && #[trigger] cut[i] == POINT
                && #[trigger] cut[j] == POINT implies i == j by {
            assert(cut[i] == text[i]);
            assert(cut[j] == text[j]);
        }
        assert(cut[from] == text[from]);
        assert(cut[from + 1] == text[from + 1]);
        if is_digit(text[from]) {
            assert(from <= from < cut.len() && is_digit(cut[from]));
        } else {
            assert(text[from] == POINT);
            assert(is_digit(text[from + 1]) || text[from + 1] == POINT);
            assert(from <= from + 1 < cut.len() && is_digit(cut[from + 1]));
        }
    }
}

/// Decides whether `text` is a decimal text.
pub fn check_decimal(text: &[u8]) -> (ok: bool)
    ensures
        ok == is_decimal(text@),
{
    let n: usize = text.len();
    let from: usize = if n > 0 && text[0] == MINUS {
        1
    } else {
        0
    };
    let mut i: usize = from;
    let mut seen_point: bool = false;
    let mut seen_digit: bool = false;
    let ghost mut point_at: int = 0;
    let ghost mut digit_at: int = 0;
    while i < n
        invariant
            n == text@.len(),
            from == body_start(text@),
            from <= i <= n,
            forall|k: int| from <= k < i ==> is_digit(#[trigger] text@[k]) || text@[k] == POINT,
            seen_point ==> from <= point_at < i && text@[point_at] == POINT,
            forall|k: int|
                from <= k < i && #[trigger] text@[k] == POINT ==> seen_point && k == point_at,
            seen_digit ==> from <= digit_at < i && is_digit(text@[digit_at]),
            !seen_digit ==> forall|k: int| from <= k < i ==> !is_digit(#[trigger] text@[k]),
        decreases n - i,
    {
        let b: u8 = text[i];
        if b == POINT {
            if seen_point {
                assert(text@[i as int] == POINT && text@[point_at] == POINT);
                return false;
            }
            seen_point = true;
            proof {
                point_at = i as int;
            }
        } else if 48 <= b && b <= 57 {
            seen_digit = true;
            proof {
                digit_at = i as int;
            }
        } else {
            assert(!(is_digit(text@[i as int]) || text@[i as int] == POINT));
            return false;
        }
        i += 1;
    }
    proof {
        if seen_digit {
            assert(from <= digit_at < text@.len() && is_digit(text@[digit_at]));
        }
    }
    seen_digit
}

/// One colour channel: a decimal text.
#[derive(Debug, PartialEq, Eq)]
pub struct Channel {
    text: Vec<u8>,
}

impl View for Channel {
    type V = Seq<u8>;

    closed spec fn view(&self) -> Seq<u8> {
        self.text@
    }
}

impl Clone for Channel {
    fn clone(&self) -> (r: Self)
        ensures
            r@ == self@,
    {
        proof {
            use_type_invariant(self);
        }
        Channel { text: copy_bytes(self.text.as_slice()) }
    }
}

impl Channel {
    #[verifier::type_invariant]
    spec fn well_formed(self) -> bool {
        is_decimal(self.text@)
    }

    /// The channel written as `text`, if that is a decimal text.
    pub fn new(text: Vec<u8>) -> (r: Option<Channel>)
        ensures
            r is Some <==> is_decimal(text@),
            r matches Some(c) ==> c@ == text@,
    {
        if check_decimal(text.as_slice()) {
            Some(Channel { text })
        } else {
            None
        }
    }

    /// The channel written as `text`, if that is a decimal text.
    pub fn parse(text: &str) -> (r: Option<Channel>)
        ensures
            r is Some <==> is_decimal(wire_bytes(text@)),
            r matches Some(c) ==> c@ == wire_bytes(text@),
    {
        Channel::new(text_bytes(text))
    }

    /// The channel `0`.
    pub fn zero() -> (r: Channel)
        ensures
            r@ == seq![48u8],
    {
        let mut text: Vec<u8> = Vec::new();
        text.push(48);
        assert(is_digit(text@[0]));
        Channel { text }
    }

    /// The channel `1`.
    pub fn one() -> (r: Channel)
        ensures
            r@ == seq![49u8],
    {
        let mut text: Vec<u8> = Vec::new();
        text.push(49);
        assert(is_digit(text@[0]));
        Channel { text }
    }

    /// The text of the channel, which is always a decimal text.
    pub fn bytes(&self) -> (r: &[u8])
        ensures
            r@ == self@,
            is_decimal(self@),
    {
        proof {
            use_type_invariant(self);
        }
        self.text.as_slice()
    }
}

/// A colour: its four channels.
#[derive(Debug, PartialEq, Eq)]
pub struct Color {
    pub red: Channel,
    pub green: Channel,
    pub blue: Channel,
    pub alpha: Channel,
}

/// The mathematical model of a [`Color`]: the texts of its channels.
pub struct ColorView {
    pub red: Seq<u8>,
    pub green: Seq<u8>,
    pub blue: Seq<u8>,
    pub alpha: Seq<u8>,
}

impl View for Color {
    type V = ColorView;

    open spec fn view(&self) -> ColorView {
        ColorView {
            red: self.red@,
            green: self.green@,
            blue: self.blue@,
            alpha: self.alpha@,
        }
    }
}

impl Clone for Color {
    fn clone(&self) -> (r: Self)
        ensures
            r@ == self@,
    {
        Color {
            red: self.red.clone(),
            green: self.green.clone(),
            blue: self.blue.clone(),
            alpha: self.alpha.clone(),
        }
    }
}

impl ColorView {
    /// Every channel is a decimal text.
    pub open spec fn is_decimal(self) -> bool {
        &&& is_decimal(self.red)
        &&& is_decimal(self.green)
        &&& is_decimal(self.blue)
        &&& is_decimal(self.alpha)
    }

    /// Every channel fits a frame as it is.
    pub open spec fn fits(self) -> bool {
        &&& self.red.len() <= CHANNEL_WIDTH
        &&& self.green.len() <= CHANNEL_WIDTH
        &&& self.blue.len() <= CHANNEL_WIDTH
        &&& self.alpha.len() <= CHANNEL_WIDTH
    }

    /// The colour as a frame carries it: each channel cut to the frame's width.
    pub open spec fn truncated(self) -> ColorView {
        ColorView {
            red: truncated(self.red),
            green: truncated(self.green),
            blue: truncated(self.blue),
            alpha: truncated(self.alpha),
        }
    }

    /// Opaque black: no red, no green, no blue, full alpha.
    pub open spec fn black() -> ColorView {
        ColorView { red: seq![48u8], green: seq![48u8], blue: seq![48u8], alpha: seq![49u8] }
    }
}

impl Color {
    /// Opaque black.
    pub fn black() -> (r: Color)
        ensures
            r@ == ColorView::black(),
    {
        Color {
            red: Channel::zero(),
            green: Channel::zero(),
            blue: Channel::zero(),
            alpha: Channel::one(),
        }
    }
}

} // verus!

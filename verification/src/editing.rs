use vstd::prelude::*;

use crate::color::{hex_input_color, hex_text, lemma_channel_round_trip, lemma_hex_round_trip, Rgb};
use crate::text::{chars_of, decimal, is_white_space, parse_u8, trim, trim_start, white_space};

verus! {

/// One of the three channels of a color.
#[derive(Clone, Copy, Debug, PartialEq, Eq, Structural)]
pub enum ColorChannel {
    Red,
    Green,
    Blue,
}

/// `color` with one channel replaced by `value`.
pub open spec fn with_channel_spec(color: Rgb, channel: ColorChannel, value: u8) -> Rgb {
    match channel {
        ColorChannel::Red => Rgb { r: value, ..color },
        ColorChannel::Green => Rgb { g: value, ..color },
        ColorChannel::Blue => Rgb { b: value, ..color },
    }
}

/// What a change of a channel's text field leads to.
#[derive(Clone, Copy, Debug, PartialEq, Eq, Structural)]
pub enum ChannelEdit {
    /// The fields are being filled in by the program itself: nothing to do.
    Ignored,
    /// The text is not a channel value: the field is marked as wrong.
    Invalid,
    /// The color to show.
    Apply(Rgb),
}

/// What a change of the hexadecimal text field leads to.
#[derive(Clone, Copy, Debug, PartialEq, Eq, Structural)]
pub enum HexEdit {
    /// The fields are being filled in by the program itself: nothing to do.
    Ignored,
    /// The text is not a color code: the field is marked as wrong.
    Invalid,
    /// The color to show, and how far the cursor moves right once the
    /// field is rewritten as `#RRGGBB`.
    Apply { color: Rgb, cursor_offset: i32 },
}

/// The cursor moves one place right when the typed code had no leading `#`,
/// since the rewritten text has one.
pub open spec fn hex_cursor_offset(text: Seq<char>) -> i32 {
    if trim_start(text).len() > 0 && trim_start(text)[0] == '#' {
        0
    } else {
        1
    }
}

/// `color` with one channel replaced by `value`.
pub fn with_channel(color: Rgb, channel: ColorChannel, value: u8) -> (c: Rgb)
    ensures
        c == with_channel_spec(color, channel, value),
{
    let mut c = color;
    match channel {
        ColorChannel::Red => c.r = value,
        ColorChannel::Green => c.g = value,
        ColorChannel::Blue => c.b = value,
    }
    c
}

/// Decides what a change of a channel's text field does.
pub fn channel_edit(syncing: bool, current: Rgb, channel: ColorChannel, text: &str) -> (edit:
    ChannelEdit)
    ensures
        syncing ==> edit == ChannelEdit::Ignored,
        !syncing ==> edit == match parse_u8(trim(text@)) {
            Some(v) => ChannelEdit::Apply(with_channel_spec(current, channel, v)),
            None => ChannelEdit::Invalid,
        },
{
    if syncing {
        return ChannelEdit::Ignored;
    }
    match crate::color::parse_rgb_channel(text) {
        Some(value) => ChannelEdit::Apply(with_channel(current, channel, value)),
        None => ChannelEdit::Invalid,
    }
}

/// How far the cursor moves right once a typed code is rewritten as
/// `#RRGGBB`: not at all if it began with `#`, else one place.
pub fn cursor_offset(text: &str) -> (offset: i32)
    ensures
        offset == hex_cursor_offset(text@),
{
    let chars = chars_of(text);
    let n = chars.len();
    let mut i: usize = 0;
    assert(chars@.subrange(0, n as int) =~= chars@);
    while i < n && white_space(chars[i])
        invariant
            i <= n,
            n == chars@.len(),
            trim_start(chars@) == trim_start(chars@.subrange(i as int, n as int)),
        decreases n - i,
    {
        assert(chars@.subrange(i as int, n as int).drop_first() =~= chars@.subrange(
            i + 1,
            n as int,
        ));
        i = i + 1;
    }
    assert(trim_start(chars@.subrange(i as int, n as int)) == chars@.subrange(i as int, n as int));
    if i < n && chars[i] == '#' {
        0
    } else {
        1
    }
}

/// Decides what a change of the hexadecimal text field does.
pub fn hex_edit(syncing: bool, text: &str) -> (edit: HexEdit)
    ensures
        syncing ==> edit == HexEdit::Ignored,
        !syncing ==> edit == match hex_input_color(text@) {
            Some(color) => HexEdit::Apply { color, cursor_offset: hex_cursor_offset(text@) },
            None => HexEdit::Invalid,
        },
{
    if syncing {
        return HexEdit::Ignored;
    }
    match Rgb::from_hex_input(text) {
        Some(color) => HexEdit::Apply { color, cursor_offset: cursor_offset(text) },
        None => HexEdit::Invalid,
    }
}

/// Decides what a move of a channel's slider does; `value` is the slider's
/// position rounded to a whole number.
pub fn slider_edit(syncing: bool, current: Rgb, channel: ColorChannel, value: u8) -> (res: Option<
    Rgb,
>)
    ensures
        syncing ==> res is None,
        !syncing ==> res == Some(with_channel_spec(current, channel, value)),
{
    if syncing {
        None
    } else {
        Some(with_channel(current, channel, value))
    }
}

/// Puts a cursor position back inside a text of `char_count` characters.
pub fn clamp_cursor(position: i32, char_count: usize) -> (p: i32)
    requires
        char_count <= i32::MAX,
    ensures
        p == if position < 0 {
            0
        } else if position > char_count {
            char_count as i32
        } else {
            position
        },
{
    let max = char_count as i32;
    if position < 0 {
        0
    } else if position > max {
        max
    } else {
        position
    }
}

/// A color code that the window writes into the hexadecimal field is read
/// back as the same color, with the cursor left where it is.
pub proof fn lemma_written_hex_code_is_read_back(c: Rgb)
    ensures
        hex_input_color(hex_text(c)) == Some(c),
        hex_cursor_offset(hex_text(c)) == 0,
{
    lemma_hex_round_trip(c);
    let s = hex_text(c);
    assert(s[0] == '#');
    assert(!is_white_space('#'));
    assert(trim_start(s) == s);
}

/// The value of one channel of a color.
pub open spec fn channel_value(c: Rgb, channel: ColorChannel) -> u8 {
    match channel {
        ColorChannel::Red => c.r,
        ColorChannel::Green => c.g,
        ColorChannel::Blue => c.b,
    }
}

/// The text that the window writes into a channel's field for the shown
/// color is read back as that same color.
pub proof fn lemma_written_channel_is_read_back(c: Rgb, channel: ColorChannel)
    ensures
        parse_u8(trim(decimal(channel_value(c, channel) as nat))) == Some(channel_value(c, channel)),
        with_channel_spec(c, channel, channel_value(c, channel)) == c,
{
    lemma_channel_round_trip(channel_value(c, channel));
}

/// Setting a channel gives it the new value and leaves the other two as
/// they were.
pub proof fn lemma_with_channel_sets_one_channel(c: Rgb, channel: ColorChannel, v: u8)
    ensures
        channel_value(with_channel_spec(c, channel, v), channel) == v,
        forall|other: ColorChannel|
            other != channel ==> #[trigger] channel_value(with_channel_spec(c, channel, v), other)
                == channel_value(c, other),
{
}

/// A typed code that begins with `#` after its leading white space keeps
/// the cursor in place; one without moves it one place right.
pub proof fn lemma_cursor_offset_follows_hash(text: Seq<char>, k: int)
    requires
        0 <= k < text.len(),
        forall|i: int| 0 <= i < k ==> is_white_space(#[trigger] text[i]),
        !is_white_space(text[k]),
    ensures
        hex_cursor_offset(text) == if text[k] == '#' { 0i32 } else { 1i32 },
    decreases k,
{
    if k > 0 {
        assert forall|i: int| 0 <= i < k - 1 implies is_white_space(#[trigger] text.drop_first()[i]) by {
            assert(text.drop_first()[i] == text[i + 1]);
        }
        lemma_cursor_offset_follows_hash(text.drop_first(), k - 1);
        assert(is_white_space(text[0]));
    }
}

} // verus!

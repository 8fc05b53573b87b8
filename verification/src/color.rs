use vstd::prelude::*;

use crate::text::{
    ascii_hex_digit, byte_hex, decimal, decimal_text, digit_char, hex_digit_value, hex_value,
    is_ascii_hex_digit, is_white_space, lemma_decimal, lemma_digit_char, parse_u8, parse_u8_chars,
    push_byte_hex, push_decimal, push_signed_decimal, signed_decimal, strip_hashes, trim, trim_end,
    trim_start, trimmed_chars, is_decimal_of, is_signed_decimal_of, lemma_decimal_is_decimal_of,
    lemma_signed_decimal_is_signed_decimal_of,
};

verus! {

/// A color with 8-bit red, green and blue channels.
#[derive(Clone, Copy, Debug, PartialEq, Eq, Structural)]
pub struct Rgb {
    pub r: u8,
    pub g: u8,
    pub b: u8,
}

/// The notations in which a color can be copied as text.
#[derive(Clone, Copy, Debug, PartialEq, Eq, Structural)]
pub enum CopyFormat {
    Hex,
    Rgb,
    Rgba,
    Hsl,
    CssVariable,
}

/// Hue in degrees, saturation and lightness in percent, each a whole number.
#[derive(Clone, Copy, Debug, PartialEq, Eq, Structural)]
pub struct HslComponents {
    pub hue: i32,
    pub saturation: i32,
    pub lightness: i32,
}

/// `#RRGGBB` with upper-case hexadecimal digits.
pub open spec fn hex_text(c: Rgb) -> Seq<char> {
    seq!['#'] + byte_hex(c.r) + byte_hex(c.g) + byte_hex(c.b)
}

/// `rgb(R, G, B)` with decimal channels.
pub open spec fn rgb_text(c: Rgb) -> Seq<char> {
    "rgb("@ + decimal(c.r as nat) + ", "@ + decimal(c.g as nat) + ", "@ + decimal(c.b as nat)
        + ")"@
}

/// `rgba(R, G, B, 1)` with decimal channels.
pub open spec fn rgba_text(c: Rgb) -> Seq<char> {
    "rgba("@ + decimal(c.r as nat) + ", "@ + decimal(c.g as nat) + ", "@ + decimal(c.b as nat)
        + ", 1)"@
}

/// `hsl(H, S%, L%)`.
pub open spec fn hsl_text(h: HslComponents) -> Seq<char> {
    "hsl("@ + signed_decimal(h.hue as int) + ", "@ + signed_decimal(h.saturation as int) + "%, "@
        + signed_decimal(h.lightness as int) + "%)"@
}

/// `--color: #RRGGBB;`.
pub open spec fn css_variable_text(c: Rgb) -> Seq<char> {
    "--color: "@ + hex_text(c) + ";"@
}

/// The text of a color in a copy format; the HSL notation is written from
/// the given components.
pub open spec fn format_text(c: Rgb, format: CopyFormat, hsl: HslComponents) -> Seq<char> {
    match format {
        CopyFormat::Hex => hex_text(c),
        CopyFormat::Rgb => rgb_text(c),
        CopyFormat::Rgba => rgba_text(c),
        CopyFormat::Hsl => hsl_text(hsl),
        CopyFormat::CssVariable => css_variable_text(c),
    }
}

/// The name under which a copy format is offered.
pub open spec fn format_label(format: CopyFormat) -> Seq<char> {
    match format {
        CopyFormat::Hex => "HEX"@,
        CopyFormat::Rgb => "RGB"@,
        CopyFormat::Rgba => "RGBA"@,
        CopyFormat::Hsl => "HSL"@,
        CopyFormat::CssVariable => "CSS variable"@,
    }
}

/// The six hexadecimal digits of a color code: white space around the
/// input and any number of leading `#` are ignored.
pub open spec fn hex_code_digits(input: Seq<char>) -> Seq<char> {
    strip_hashes(trim(input))
}

/// Exactly six characters, each an ASCII hexadecimal digit of either case.
pub open spec fn is_hex_code(t: Seq<char>) -> bool {
    t.len() == 6 && forall|i: int| 0 <= i < 6 ==> is_ascii_hex_digit(#[trigger] t[i])
}

/// The byte that two hexadecimal digits write.
pub open spec fn hex_pair(hi: char, lo: char) -> u8 {
    (hex_value(hi) * 16 + hex_value(lo)) as u8
}

/// The color that a typed hexadecimal color code names, if it is one.
pub open spec fn hex_input_color(input: Seq<char>) -> Option<Rgb> {
    let t = hex_code_digits(input);
    if is_hex_code(t) {
        Some(Rgb { r: hex_pair(t[0], t[1]), g: hex_pair(t[2], t[3]), b: hex_pair(t[4], t[5]) })
    } else {
        None
    }
}

impl Rgb {
    pub fn new(r: u8, g: u8, b: u8) -> (c: Self)
        ensures
            c.r == r,
            c.g == g,
            c.b == b,
    {
        Self { r, g, b }
    }

    /// Reads a color from a typed hexadecimal code such as `#32D87A`,
    /// `32d87a` or ` ##32D87A `.
    pub fn from_hex_input(value: &str) -> (res: Option<Self>)
        ensures
            res == hex_input_color(value@),
    {
        let t = trimmed_chars(value);
        let n = t.len();
        let mut lo: usize = 0;
        assert(t@.subrange(0, n as int) =~= t@);
        while lo < n && t[lo] == '#'
            invariant
                lo <= n,
                n == t@.len(),
                strip_hashes(t@) == strip_hashes(t@.subrange(lo as int, n as int)),
            decreases n - lo,
        {
            assert(t@.subrange(lo as int, n as int).drop_first() =~= t@.subrange(
                lo + 1,
                n as int,
            ));
            lo = lo + 1;
        }
        let ghost digits = t@.subrange(lo as int, n as int);
        assert(strip_hashes(digits) == digits);
        assert(hex_code_digits(value@) == digits);
        if n - lo != 6 {
            return None;
        }
        let mut i: usize = 0;
        while i < 6
            invariant
                i <= 6,
                lo + 6 == n,
                n == t@.len(),
                digits == t@.subrange(lo as int, n as int),
                hex_code_digits(value@) == digits,
                forall|j: int| 0 <= j < i ==> is_ascii_hex_digit(#[trigger] digits[j]),
            decreases 6 - i,
        {
            if !ascii_hex_digit(t[lo + i]) {
                assert(!is_ascii_hex_digit(digits[i as int]));
                return None;
            }
            i = i + 1;
        }
        assert(is_hex_code(digits));
        let r = hex_digit_value(t[lo]) * 16 + hex_digit_value(t[lo + 1]);
        let g = hex_digit_value(t[lo + 2]) * 16 + hex_digit_value(t[lo + 3]);
        let b = hex_digit_value(t[lo + 4]) * 16 + hex_digit_value(t[lo + 5]);
        Some(Self { r, g, b })
    }

    /// `#RRGGBB` with upper-case hexadecimal digits.
    pub fn hex(self) -> (s: String)
        ensures
            s@ == hex_text(self),
    {
        let mut s = String::from_str("#");
        proof {
            reveal_strlit("#");
        }
        push_byte_hex(&mut s, self.r);
        push_byte_hex(&mut s, self.g);
        push_byte_hex(&mut s, self.b);
        s
    }

    /// `rgb(R, G, B)`.
    pub fn rgb(self) -> (s: String)
        ensures
            s@ == rgb_text(self),
    {
        let mut s = String::from_str("rgb(");
        push_decimal(&mut s, self.r as u64);
        s.append(", ");
        push_decimal(&mut s, self.g as u64);
        s.append(", ");
        push_decimal(&mut s, self.b as u64);
        s.append(")");
        s
    }

    /// `rgba(R, G, B, 1)`.
    pub fn rgba(self) -> (s: String)
        ensures
            s@ == rgba_text(self),
    {
        let mut s = String::from_str("rgba(");
        push_decimal(&mut s, self.r as u64);
        s.append(", ");
        push_decimal(&mut s, self.g as u64);
        s.append(", ");
        push_decimal(&mut s, self.b as u64);
        s.append(", 1)");
        s
    }

    /// `hsl(H, S%, L%)` for this color, given its hue, saturation and
    /// lightness rounded to whole numbers.
    pub fn hsl(self, components: HslComponents) -> (s: String)
        ensures
            s@ == hsl_text(components),
    {
        let mut s = String::from_str("hsl(");
        push_signed_decimal(&mut s, components.hue);
        s.append(", ");
        push_signed_decimal(&mut s, components.saturation);
        s.append("%, ");
        push_signed_decimal(&mut s, components.lightness);
        s.append("%)");
        s
    }

    /// `--color: #RRGGBB;`.
    pub fn css_variable(self) -> (s: String)
        ensures
            s@ == css_variable_text(self),
    {
        let mut s = String::from_str("--color: ");
        let hex = self.hex();
        s.append(hex.as_str());
        s.append(";");
        s
    }

    /// This color in the given copy format; `hsl` holds the color's rounded
    /// hue, saturation and lightness, which the HSL notation writes.
    pub fn format(self, format: CopyFormat, hsl: HslComponents) -> (s: String)
        ensures
            s@ == format_text(self, format, hsl),
    {
        match format {
            CopyFormat::Hex => self.hex(),
            CopyFormat::Rgb => self.rgb(),
            CopyFormat::Rgba => self.rgba(),
            CopyFormat::Hsl => self.hsl(hsl),
            CopyFormat::CssVariable => self.css_variable(),
        }
    }
}

impl CopyFormat {
    pub const ALL: [Self; 5] = [Self::Hex, Self::Rgb, Self::Rgba, Self::Hsl, Self::CssVariable];

    pub fn label(self) -> (s: &'static str)
        ensures
            s@ == format_label(self),
    {
        match self {
            Self::Hex => "HEX",
            Self::Rgb => "RGB",
            Self::Rgba => "RGBA",
            Self::Hsl => "HSL",
            Self::CssVariable => "CSS variable",
        }
    }
}

/// A channel value in decimal, as the channel fields show it.
pub fn channel_text(value: u8) -> (s: String)
    ensures
        s@ == decimal(value as nat),
{
    decimal_text(value as u64)
}

/// Reads one color channel from a typed decimal number; white space around
/// it is ignored.
pub fn parse_rgb_channel(value: &str) -> (res: Option<u8>)
    ensures
        res == parse_u8(trim(value@)),
{
    let t = trimmed_chars(value);
    parse_u8_chars(&t)
}

/// Whatever `Rgb::hex` writes, `Rgb::from_hex_input` reads back as the same color.
pub proof fn lemma_hex_round_trip(c: Rgb)
    ensures
        hex_input_color(hex_text(c)) == Some(c),
{
    let s = hex_text(c);
    lemma_digit_char(c.r as int / 16);
    lemma_digit_char(c.r as int % 16);
    lemma_digit_char(c.g as int / 16);
    lemma_digit_char(c.g as int % 16);
    lemma_digit_char(c.b as int / 16);
    lemma_digit_char(c.b as int % 16);
    assert(s.len() == 7);
    assert(s[0] == '#');
    assert(!is_white_space('#'));
    assert(trim_start(s) == s);
    assert(s.last() == digit_char(c.b as int % 16));
    assert(trim_end(s) == s);
    let t = s.drop_first();
    assert(t =~= byte_hex(c.r) + byte_hex(c.g) + byte_hex(c.b));
    assert(strip_hashes(t) == t);
    assert(hex_code_digits(s) == t);
    assert(is_hex_code(t));
}

/// Whatever decimal number is written for a channel, `parse_rgb_channel`
/// reads back as the same value.
pub proof fn lemma_channel_round_trip(v: u8)
    ensures
        parse_u8(trim(decimal(v as nat))) == Some(v),
{
    let d = decimal(v as nat);
    lemma_decimal(v as nat);
    assert(trim_start(d) == d);
    assert(trim_end(d) == d);
}

/// Every copy format is offered, once, in `CopyFormat::ALL`.
pub proof fn lemma_every_format_offered(format: CopyFormat)
    ensures
        CopyFormat::ALL@.contains(format),
        CopyFormat::ALL@.no_duplicates(),
{
    let all = CopyFormat::ALL@;
    assert(all =~= seq![
        CopyFormat::Hex,
        CopyFormat::Rgb,
        CopyFormat::Rgba,
        CopyFormat::Hsl,
        CopyFormat::CssVariable,
    ]);
    let i: int = match format {
        CopyFormat::Hex => 0,
        CopyFormat::Rgb => 1,
        CopyFormat::Rgba => 2,
        CopyFormat::Hsl => 3,
        CopyFormat::CssVariable => 4,
    };
    assert(all[i] == format);
}

/// An ASCII hexadecimal digit of either case, by its character code.
pub open spec fn is_hex_digit_code(c: char) -> bool {
    let u = c as u32;
    (48 <= u <= 57) || (65 <= u <= 70) || (97 <= u <= 102)
}

/// The value of a hexadecimal digit, found by folding `a`-`f` onto `A`-`F`.
pub open spec fn folded_digit_value(c: char) -> int {
    let u = c as u32 as int;
    let upper = if 97 <= u <= 102 { u - 32 } else { u };
    if upper <= 57 { upper - 48 } else { upper - 55 }
}

/// `c` with `a`-`f` written as `A`-`F`.
pub open spec fn upper_hex(c: char) -> char {
    if 97 <= (c as u32) <= 102 { ((c as u32) - 32) as char } else { c }
}

/// The color that six hexadecimal digits name: each channel is the value
/// of its two digits, whatever their case.
pub open spec fn color_of_digits(t: Seq<char>) -> Rgb {
    Rgb {
        r: (16 * folded_digit_value(t[0]) + folded_digit_value(t[1])) as u8,
        g: (16 * folded_digit_value(t[2]) + folded_digit_value(t[3])) as u8,
        b: (16 * folded_digit_value(t[4]) + folded_digit_value(t[5])) as u8,
    }
}

/// Six characters, each an ASCII hexadecimal digit of either case.
pub open spec fn six_hex_digits(t: Seq<char>) -> bool {
    t.len() == 6 && forall|i: int| 0 <= i < 6 ==> is_hex_digit_code(#[trigger] t[i])
}

/// Any input whose text, without white space around it and leading `#`, is
/// six hexadecimal digits is read, and each channel is the value of its two
/// digits, in either case.
pub proof fn lemma_hex_code_is_read(input: Seq<char>)
    requires
        six_hex_digits(hex_code_digits(input)),
    ensures
        hex_input_color(input) == Some(color_of_digits(hex_code_digits(input))),
{
    let t = hex_code_digits(input);
    assert forall|i: int| 0 <= i < 6 implies is_ascii_hex_digit(#[trigger] t[i]) by {
        assert(is_hex_digit_code(t[i]));
    }
    assert forall|i: int| 0 <= i < 6 implies hex_value(#[trigger] t[i]) == folded_digit_value(t[i]) by {
        assert(is_hex_digit_code(t[i]));
    }
    assert(hex_value(t[0]) == folded_digit_value(t[0]));
    assert(hex_value(t[1]) == folded_digit_value(t[1]));
    assert(hex_value(t[2]) == folded_digit_value(t[2]));
    assert(hex_value(t[3]) == folded_digit_value(t[3]));
    assert(hex_value(t[4]) == folded_digit_value(t[4]));
    assert(hex_value(t[5]) == folded_digit_value(t[5]));
}

/// Six hexadecimal digits, with or without a leading `#`, name the color of
/// their digits, and upper-casing the letters names the same color.
pub proof fn lemma_plain_hex_code_is_read(t: Seq<char>)
    requires
        six_hex_digits(t),
    ensures
        hex_input_color(t) == Some(color_of_digits(t)),
        hex_input_color(seq!['#'] + t) == Some(color_of_digits(t)),
        hex_input_color(t.map_values(|c: char| upper_hex(c))) == hex_input_color(t),
{
    assert(is_hex_digit_code(t[0]));
    assert(is_hex_digit_code(t[5]));
    assert(!is_white_space(t[0]));
    assert(!is_white_space(t[5]));
    assert(trim_start(t) == t);
    assert(trim_end(t) == t);
    assert(strip_hashes(t) == t);
    lemma_hex_code_is_read(t);
    let h = seq!['#'] + t;
    assert(h[0] == '#');
    assert(!is_white_space('#'));
    assert(trim_start(h) == h);
    assert(h.last() == t[5]);
    assert(trim_end(h) == h);
    assert(h.drop_first() =~= t);
    assert(strip_hashes(h) == t);
    lemma_hex_code_is_read(h);
    let u = t.map_values(|c: char| upper_hex(c));
    assert forall|i: int| 0 <= i < 6 implies is_hex_digit_code(#[trigger] u[i])
        && folded_digit_value(u[i]) == folded_digit_value(t[i]) by {
        assert(u[i] == upper_hex(t[i]));
        assert(is_hex_digit_code(t[i]));
    }
    assert(is_hex_digit_code(u[0]));
    assert(is_hex_digit_code(u[5]));
    assert(!is_white_space(u[0]));
    assert(!is_white_space(u[5]));
    assert(trim_start(u) == u);
    assert(trim_end(u) == u);
    assert(strip_hashes(u) == u);
    lemma_hex_code_is_read(u);
    assert(folded_digit_value(u[0]) == folded_digit_value(t[0]));
    assert(folded_digit_value(u[1]) == folded_digit_value(t[1]));
    assert(folded_digit_value(u[2]) == folded_digit_value(t[2]));
    assert(folded_digit_value(u[3]) == folded_digit_value(t[3]));
    assert(folded_digit_value(u[4]) == folded_digit_value(t[4]));
    assert(folded_digit_value(u[5]) == folded_digit_value(t[5]));
}

/// Each number in the `rgb(...)` text is written in decimal and reads back
/// as its channel.
pub proof fn lemma_rgb_text_fields(c: Rgb)
    ensures
        exists|dr: Seq<char>, dg: Seq<char>, db: Seq<char>|
            #![trigger is_decimal_of(dr, c.r as nat), is_decimal_of(dg, c.g as nat), is_decimal_of(db, c.b as nat)]
            is_decimal_of(dr, c.r as nat) && is_decimal_of(dg, c.g as nat) && is_decimal_of(
                db,
                c.b as nat,
            ) && rgb_text(c) == "rgb("@ + dr + ", "@ + dg + ", "@ + db + ")"@,
        exists|dr: Seq<char>, dg: Seq<char>, db: Seq<char>|
            #![trigger is_decimal_of(dr, c.r as nat), is_decimal_of(dg, c.g as nat), is_decimal_of(db, c.b as nat)]
            is_decimal_of(dr, c.r as nat) && is_decimal_of(dg, c.g as nat) && is_decimal_of(
                db,
                c.b as nat,
            ) && rgba_text(c) == "rgba("@ + dr + ", "@ + dg + ", "@ + db + ", 1)"@,
{
    lemma_decimal_is_decimal_of(c.r as nat);
    lemma_decimal_is_decimal_of(c.g as nat);
    lemma_decimal_is_decimal_of(c.b as nat);
}

/// Each number in the `hsl(...)` text is written in decimal and reads back
/// as its component.
pub proof fn lemma_hsl_text_fields(h: HslComponents)
    ensures
        exists|dh: Seq<char>, ds: Seq<char>, dl: Seq<char>|
            #![trigger is_signed_decimal_of(dh, h.hue as int), is_signed_decimal_of(ds, h.saturation as int), is_signed_decimal_of(dl, h.lightness as int)]
            is_signed_decimal_of(dh, h.hue as int) && is_signed_decimal_of(ds, h.saturation as int)
                && is_signed_decimal_of(dl, h.lightness as int) && hsl_text(h) == "hsl("@ + dh
                + ", "@ + ds + "%, "@ + dl + "%)"@,
{
    lemma_signed_decimal_is_signed_decimal_of(h.hue as int);
    lemma_signed_decimal_is_signed_decimal_of(h.saturation as int);
    lemma_signed_decimal_is_signed_decimal_of(h.lightness as int);
}

/// `hex` writes `#` and then, for each channel in turn, two upper-case
/// hexadecimal digits whose value is the channel.
pub proof fn lemma_hex_text_form(c: Rgb)
    ensures
        hex_text(c).len() == 7,
        hex_text(c)[0] == '#',
        forall|i: int|
            1 <= i < 7 ==> {
                let u = #[trigger] hex_text(c)[i] as u32;
                (48 <= u <= 57) || (65 <= u <= 70)
            },
        16 * folded_digit_value(hex_text(c)[1]) + folded_digit_value(hex_text(c)[2]) == c.r,
        16 * folded_digit_value(hex_text(c)[3]) + folded_digit_value(hex_text(c)[4]) == c.g,
        16 * folded_digit_value(hex_text(c)[5]) + folded_digit_value(hex_text(c)[6]) == c.b,
{
    let s = hex_text(c);
    lemma_digit_char(c.r as int / 16);
    lemma_digit_char(c.r as int % 16);
    lemma_digit_char(c.g as int / 16);
    lemma_digit_char(c.g as int % 16);
    lemma_digit_char(c.b as int / 16);
    lemma_digit_char(c.b as int % 16);
    assert forall|i: int| 1 <= i < 7 implies {
        let u = #[trigger] s[i] as u32;
        (48 <= u <= 57) || (65 <= u <= 70)
    } by {
        let d: int = if i == 1 {
            c.r as int / 16
        } else if i == 2 {
            c.r as int % 16
        } else if i == 3 {
            c.g as int / 16
        } else if i == 4 {
            c.g as int % 16
        } else if i == 5 {
            c.b as int / 16
        } else {
            c.b as int % 16
        };
        assert(s[i] == digit_char(d));
        lemma_digit_char(d);
    }
    assert(folded_digit_value(s[1]) == c.r as int / 16);
    assert(folded_digit_value(s[2]) == c.r as int % 16);
    assert(folded_digit_value(s[3]) == c.g as int / 16);
    assert(folded_digit_value(s[4]) == c.g as int % 16);
    assert(folded_digit_value(s[5]) == c.b as int / 16);
    assert(folded_digit_value(s[6]) == c.b as int % 16);
}

/// Each copy format writes its own notation of the color: the hex code
/// reads back as the color, the `rgb(...)` and `rgba(...)` numbers as its
/// channels, the `hsl(...)` numbers as the given components, and the CSS
/// variable holds the hex code.
pub proof fn lemma_format_notations(c: Rgb, h: HslComponents)
    ensures
        hex_input_color(format_text(c, CopyFormat::Hex, h)) == Some(c),
        exists|dr: Seq<char>, dg: Seq<char>, db: Seq<char>|
            #![trigger is_decimal_of(dr, c.r as nat), is_decimal_of(dg, c.g as nat), is_decimal_of(db, c.b as nat)]
            is_decimal_of(dr, c.r as nat) && is_decimal_of(dg, c.g as nat) && is_decimal_of(
                db,
                c.b as nat,
            ) && format_text(c, CopyFormat::Rgb, h) == "rgb("@ + dr + ", "@ + dg + ", "@ + db
                + ")"@,
        exists|dr: Seq<char>, dg: Seq<char>, db: Seq<char>|
            #![trigger is_decimal_of(dr, c.r as nat), is_decimal_of(dg, c.g as nat), is_decimal_of(db, c.b as nat)]
            is_decimal_of(dr, c.r as nat) && is_decimal_of(dg, c.g as nat) && is_decimal_of(
                db,
                c.b as nat,
            ) && format_text(c, CopyFormat::Rgba, h) == "rgba("@ + dr + ", "@ + dg + ", "@ + db
                + ", 1)"@,
        exists|dh: Seq<char>, ds: Seq<char>, dl: Seq<char>|
            #![trigger is_signed_decimal_of(dh, h.hue as int), is_signed_decimal_of(ds, h.saturation as int), is_signed_decimal_of(dl, h.lightness as int)]
            is_signed_decimal_of(dh, h.hue as int) && is_signed_decimal_of(ds, h.saturation as int)
                && is_signed_decimal_of(dl, h.lightness as int) && format_text(
                c,
                CopyFormat::Hsl,
                h,
            ) == "hsl("@ + dh + ", "@ + ds + "%, "@ + dl + "%)"@,
        exists|code: Seq<char>|
            #![trigger hex_input_color(code)]
            hex_input_color(code) == Some(c) && format_text(c, CopyFormat::CssVariable, h)
                == "--color: "@ + code + ";"@,
{
    lemma_hex_round_trip(c);
    lemma_rgb_text_fields(c);
    lemma_hsl_text_fields(h);
}

} // verus!

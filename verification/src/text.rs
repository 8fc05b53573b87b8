use vstd::prelude::*;

verus! {

/// The upper-case hexadecimal (or decimal) digit for `d`, for `0 <= d < 16`.
pub open spec fn digit_char(d: int) -> char {
    if d == 0 {
        '0'
    } else if d == 1 {
        '1'
    } else if d == 2 {
        '2'
    } else if d == 3 {
        '3'
    } else if d == 4 {
        '4'
    } else if d == 5 {
        '5'
    } else if d == 6 {
        '6'
    } else if d == 7 {
        '7'
    } else if d == 8 {
        '8'
    } else if d == 9 {
        '9'
    } else if d == 10 {
        'A'
    } else if d == 11 {
        'B'
    } else if d == 12 {
        'C'
    } else if d == 13 {
        'D'
    } else if d == 14 {
        'E'
    } else {
        'F'
    }
}

/// A one-character string holding the digit `d`.
pub fn digit_str(d: u8) -> (s: &'static str)
    requires
        d < 16,
    ensures
        s@ == seq![digit_char(d as int)],
{
    match d {
        0 => {
            proof { reveal_strlit("0"); }
            "0"
        },
        1 => {
            proof { reveal_strlit("1"); }
            "1"
        },
        2 => {
            proof { reveal_strlit("2"); }
            "2"
        },
        3 => {
            proof { reveal_strlit("3"); }
            "3"
        },
        4 => {
            proof { reveal_strlit("4"); }
            "4"
        },
        5 => {
            proof { reveal_strlit("5"); }
            "5"
        },
        6 => {
            proof { reveal_strlit("6"); }
            "6"
        },
        7 => {
            proof { reveal_strlit("7"); }
            "7"
        },
        8 => {
            proof { reveal_strlit("8"); }
            "8"
        },
        9 => {
            proof { reveal_strlit("9"); }
            "9"
        },
        10 => {
            proof { reveal_strlit("A"); }
            "A"
        },
        11 => {
            proof { reveal_strlit("B"); }
            "B"
        },
        12 => {
            proof { reveal_strlit("C"); }
            "C"
        },
        13 => {
            proof { reveal_strlit("D"); }
            "D"
        },
        14 => {
            proof { reveal_strlit("E"); }
            "E"
        },
        _ => {
            proof { reveal_strlit("F"); }
            "F"
        },
    }
}

/// The characters that carry the Unicode `White_Space` property, which is
/// what `char::is_whitespace` tests.
pub open spec fn is_white_space(c: char) -> bool {
    let u = c as u32;
    ||| 0x09 <= u <= 0x0D
    ||| u == 0x20
    ||| u == 0x85
    ||| u == 0xA0
    ||| u == 0x1680
    ||| 0x2000 <= u <= 0x200A
    ||| u == 0x2028
    ||| u == 0x2029
    ||| u == 0x202F
    ||| u == 0x205F
    ||| u == 0x3000
}

pub fn white_space(c: char) -> (b: bool)
    ensures
        b == is_white_space(c),
{
    let u = c as u32;
    (0x09 <= u && u <= 0x0D) || u == 0x20 || u == 0x85 || u == 0xA0 || u == 0x1680 || (0x2000
        <= u && u <= 0x200A) || u == 0x2028 || u == 0x2029 || u == 0x202F || u == 0x205F || u
        == 0x3000
}


/// The decimal digits of `n`, most significant first, without leading zeros,
/// as `{}` writes an unsigned integer.
pub open spec fn decimal(n: nat) -> Seq<char>
    decreases n,
{
    if n < 10 {
        seq![digit_char(n as int)]
    } else {
        decimal(n / 10) + seq![digit_char((n % 10) as int)]
    }
}

/// `n` in decimal, with a leading `-` when it is negative, as `{}` writes a
/// signed integer.
pub open spec fn signed_decimal(n: int) -> Seq<char> {
    if n < 0 {
        seq!['-'] + decimal((-n) as nat)
    } else {
        decimal(n as nat)
    }
}

/// A byte as two upper-case hexadecimal digits, as `{:02X}` writes it.
pub open spec fn byte_hex(n: u8) -> Seq<char> {
    seq![digit_char(n as int / 16), digit_char(n as int % 16)]
}

/// Appends the decimal digits of `n`.
pub fn push_decimal(s: &mut String, n: u64)
    ensures
        final(s)@ == old(s)@ + decimal(n as nat),
    decreases n,
{
    if n >= 10 {
        push_decimal(s, n / 10);
    }
    let ghost before = s@;
    s.append(digit_str((n % 10) as u8));
    proof {
        if n >= 10 {
            assert(s@ =~= old(s)@ + (decimal((n / 10) as nat) + seq![digit_char((n % 10) as int)]));
        } else {
            assert(s@ =~= old(s)@ + decimal(n as nat));
        }
    }
}

/// `n` in decimal, as `n.to_string()` writes it.
pub fn decimal_text(n: u64) -> (s: String)
    ensures
        s@ == decimal(n as nat),
{
    let mut s = String::new();
    push_decimal(&mut s, n);
    assert(s@ =~= decimal(n as nat));
    s
}

/// Appends `n` in decimal, with a leading `-` when it is negative.
pub fn push_signed_decimal(s: &mut String, n: i32)
    ensures
        final(s)@ == old(s)@ + signed_decimal(n as int),
{
    if n < 0 {
        s.append("-");
        proof {
            reveal_strlit("-");
        }
        let magnitude = (0i64 - n as i64) as u64;
        push_decimal(s, magnitude);
        assert(s@ =~= old(s)@ + signed_decimal(n as int));
    } else {
        push_decimal(s, n as u64);
    }
}

/// Appends a byte as two upper-case hexadecimal digits.
pub fn push_byte_hex(s: &mut String, n: u8)
    ensures
        final(s)@ == old(s)@ + byte_hex(n),
{
    s.append(digit_str(n / 16));
    s.append(digit_str(n % 16));
    assert(s@ =~= old(s)@ + byte_hex(n));
}

/// The characters of a string, in order.
pub fn chars_of(s: &str) -> (v: Vec<char>)
    ensures
        v@ == s@,
{
    let mut v: Vec<char> = Vec::new();
    for c in it: s.chars()
        invariant
            v@ == it.seq().take(it.index()),
    {
        v.push(c);
    }
    v
}

/// `s` without its leading white space.
pub open spec fn trim_start(s: Seq<char>) -> Seq<char>
    decreases s.len(),
{
    if s.len() > 0 && is_white_space(s[0]) {
        trim_start(s.drop_first())
    } else {
        s
    }
}

/// `s` without its trailing white space.
pub open spec fn trim_end(s: Seq<char>) -> Seq<char>
    decreases s.len(),
{
    if s.len() > 0 && is_white_space(s.last()) {
        trim_end(s.drop_last())
    } else {
        s
    }
}

/// `s` without leading and trailing white space, as `str::trim` gives it.
pub open spec fn trim(s: Seq<char>) -> Seq<char> {
    trim_end(trim_start(s))
}

/// The characters of `s` without leading and trailing white space.
pub fn trimmed_chars(s: &str) -> (v: Vec<char>)
    ensures
        v@ == trim(s@),
{
    let chars = chars_of(s);
    let n = chars.len();
    let mut lo: usize = 0;
    assert(chars@.subrange(0, n as int) =~= chars@);
    while lo < n && white_space(chars[lo])
        invariant
            lo <= n,
            n == chars@.len(),
            trim_start(chars@) == trim_start(chars@.subrange(lo as int, n as int)),
        decreases n - lo,
    {
        assert(chars@.subrange(lo as int, n as int).drop_first() =~= chars@.subrange(
            lo + 1,
            n as int,
        ));
        lo = lo + 1;
    }
    assert(trim_start(chars@.subrange(lo as int, n as int)) == chars@.subrange(lo as int, n as int));
    let mut hi: usize = n;
    while hi > lo && white_space(chars[hi - 1])
        invariant
            lo <= hi <= n,
            n == chars@.len(),
            trim(chars@) == trim_end(chars@.subrange(lo as int, hi as int)),
        decreases hi,
    {
        assert(chars@.subrange(lo as int, hi as int).drop_last() =~= chars@.subrange(
            lo as int,
            hi - 1,
        ));
        hi = hi - 1;
    }
    let mut v: Vec<char> = Vec::new();
    let mut i: usize = lo;
    while i < hi
        invariant
            lo <= i <= hi <= n,
            n == chars@.len(),
            v@ == chars@.subrange(lo as int, i as int),
        decreases hi - i,
    {
        v.push(chars[i]);
        assert(v@ =~= chars@.subrange(lo as int, i + 1));
        i = i + 1;
    }
    v
}

/// An ASCII decimal digit, `'0'` to `'9'`.
pub open spec fn is_ascii_digit(c: char) -> bool {
    48 <= (c as u32) <= 57
}

/// An ASCII hexadecimal digit, `'0'` to `'9'`, `'A'` to `'F'` or `'a'` to `'f'`.
pub open spec fn is_ascii_hex_digit(c: char) -> bool {
    ||| is_ascii_digit(c)
    ||| 65 <= (c as u32) <= 70
    ||| 97 <= (c as u32) <= 102
}

/// The value of a hexadecimal digit, of either case.
pub open spec fn hex_value(c: char) -> int {
    if is_ascii_digit(c) {
        c as u32 - 48
    } else if 65 <= (c as u32) <= 70 {
        c as u32 - 55
    } else {
        c as u32 - 87
    }
}

/// The number that a string of decimal digits writes.
pub open spec fn decimal_value(d: Seq<char>) -> nat
    decreases d.len(),
{
    if d.len() == 0 {
        0
    } else {
        decimal_value(d.drop_last()) * 10 + (d.last() as u32 - 48) as nat
    }
}

/// The digits of an unsigned number: a single leading `+` is allowed.
pub open spec fn unsigned_digits(t: Seq<char>) -> Seq<char> {
    if t.len() > 0 && t[0] == '+' {
        t.drop_first()
    } else {
        t
    }
}

/// What `str::parse::<u8>` gives for `t`: an optional `+`, then at least one
/// decimal digit and nothing else, whose value is at most 255.
pub open spec fn parse_u8(t: Seq<char>) -> Option<u8> {
    let d = unsigned_digits(t);
    if d.len() > 0 && (forall|i: int| 0 <= i < d.len() ==> is_ascii_digit(#[trigger] d[i]))
        && decimal_value(d) <= 255 {
        Some(decimal_value(d) as u8)
    } else {
        None
    }
}

/// A longer string of digits does not write a smaller number.
pub proof fn lemma_decimal_value_prefix(d: Seq<char>, k: int)
    requires
        0 <= k <= d.len(),
        forall|i: int| 0 <= i < d.len() ==> is_ascii_digit(#[trigger] d[i]),
    ensures
        decimal_value(d.take(k)) <= decimal_value(d),
    decreases d.len(),
{
    if k < d.len() {
        let e = d.drop_last();
        assert forall|i: int| 0 <= i < e.len() implies is_ascii_digit(#[trigger] e[i]) by {
            assert(e[i] == d[i]);
        }
        lemma_decimal_value_prefix(e, k);
        assert(e.take(k) =~= d.take(k));
    } else {
        assert(d.take(k) =~= d);
    }
}

pub fn ascii_digit(c: char) -> (b: bool)
    ensures
        b == is_ascii_digit(c),
{
    let u = c as u32;
    48 <= u && u <= 57
}

pub fn ascii_hex_digit(c: char) -> (b: bool)
    ensures
        b == is_ascii_hex_digit(c),
{
    let u = c as u32;
    (48 <= u && u <= 57) || (65 <= u && u <= 70) || (97 <= u && u <= 102)
}

/// The value of a hexadecimal digit.
pub fn hex_digit_value(c: char) -> (v: u8)
    requires
        is_ascii_hex_digit(c),
    ensures
        v == hex_value(c),
        v < 16,
{
    let u = c as u32;
    if u <= 57 {
        (u - 48) as u8
    } else if u <= 70 {
        (u - 55) as u8
    } else {
        (u - 87) as u8
    }
}

/// Parses an unsigned byte from characters, as `str::parse::<u8>` does.
pub fn parse_u8_chars(t: &Vec<char>) -> (res: Option<u8>)
    ensures
        res == parse_u8(t@),
{
    let n = t.len();
    let start: usize = if n > 0 && t[0] == '+' {
        1
    } else {
        0
    };
    let ghost d = unsigned_digits(t@);
    assert(d =~= t@.subrange(start as int, n as int));
    if start == n {
        return None;
    }
    let mut value: u32 = 0;
    let mut i: usize = start;
    while i < n
        invariant
            start <= i <= n,
            n == t@.len(),
            d == t@.subrange(start as int, n as int),
            d == unsigned_digits(t@),
            forall|j: int| 0 <= j < i - start ==> is_ascii_digit(#[trigger] d[j]),
            value == decimal_value(d.take(i - start)),
            value <= 255,
        decreases n - i,
    {
        let c = t[i];
        if !ascii_digit(c) {
            assert(!is_ascii_digit(d[i - start]));
            return None;
        }
        let next = value * 10 + (c as u32 - 48);
        proof {
            assert(d.take(i - start + 1).drop_last() =~= d.take(i - start));
            assert(d.take(i - start + 1).last() == c);
        }
        if next > 255 {
            proof {
                if forall|j: int| 0 <= j < d.len() ==> is_ascii_digit(#[trigger] d[j]) {
                    lemma_decimal_value_prefix(d, i - start + 1);
                }
            }
            return None;
        }
        value = next;
        i = i + 1;
    }
    assert(d.take(n - start) =~= d);
    Some(value as u8)
}

/// `t` without its leading `#` characters, as `trim_start_matches('#')` gives it.
pub open spec fn strip_hashes(t: Seq<char>) -> Seq<char>
    decreases t.len(),
{
    if t.len() > 0 && t[0] == '#' {
        strip_hashes(t.drop_first())
    } else {
        t
    }
}

/// The facts about a digit character that the parsers rely on.
pub proof fn lemma_digit_char(d: int)
    requires
        0 <= d < 16,
    ensures
        !is_white_space(digit_char(d)),
        digit_char(d) != '#',
        digit_char(d) != '+',
        is_ascii_hex_digit(digit_char(d)),
        hex_value(digit_char(d)) == d,
        d < 10 ==> is_ascii_digit(digit_char(d)),
        d < 10 ==> digit_char(d) as u32 - 48 == d,
        d != 0 ==> digit_char(d) != '0',
{
}

/// The decimal digits of `n` are digits, and they write `n`.
pub proof fn lemma_decimal(n: nat)
    ensures
        decimal(n).len() > 0,
        forall|i: int| 0 <= i < decimal(n).len() ==> is_ascii_digit(#[trigger] decimal(n)[i]),
        decimal_value(decimal(n)) == n,
        decimal(n)[0] != '+',
        !is_white_space(decimal(n)[0]),
        !is_white_space(decimal(n).last()),
        n >= 1 ==> decimal(n)[0] != '0',
        n < 10 ==> decimal(n).len() == 1,
    decreases n,
{
    lemma_digit_char((n % 10) as int);
    lemma_digit_char(n as int % 10);
    if n >= 10 {
        lemma_decimal(n / 10);
        let d = decimal(n);
        assert(d.drop_last() =~= decimal(n / 10));
        assert(d.last() == digit_char((n % 10) as int));
        assert((n / 10) * 10 + n % 10 == n);
        assert(decimal_value(d) == decimal_value(d.drop_last()) * 10 + (d.last() as u32 - 48) as nat);
        assert(decimal_value(d) == n);
        assert forall|i: int| 0 <= i < d.len() implies is_ascii_digit(#[trigger] d[i]) by {
            if i < d.len() - 1 {
                assert(d[i] == decimal(n / 10)[i]);
            }
        }
    } else {
        assert(decimal(n).drop_last() =~= Seq::<char>::empty());
        assert(decimal_value(decimal(n)) == decimal_value(Seq::<char>::empty()) * 10 + (decimal(n).last() as u32 - 48) as nat);
        assert(decimal_value(decimal(n)) == n);
    }
}

/// `d` is how `{}` writes the natural number `n`: one or more ASCII
/// digits, without a leading zero unless `n` is zero, whose value is `n`.
pub open spec fn is_decimal_of(d: Seq<char>, n: nat) -> bool {
    &&& d.len() > 0
    &&& forall|i: int| 0 <= i < d.len() ==> 48 <= (#[trigger] d[i] as u32) <= 57
    &&& decimal_value(d) == n
    &&& (d.len() == 1 || d[0] != '0')
}

/// `d` is how `{}` writes the integer `n`: a `-` before the digits of a
/// negative number.
pub open spec fn is_signed_decimal_of(d: Seq<char>, n: int) -> bool {
    if n < 0 {
        d.len() > 0 && d[0] == '-' && is_decimal_of(d.drop_first(), (-n) as nat)
    } else {
        is_decimal_of(d, n as nat)
    }
}

/// The decimal digits of `n` are how `{}` writes it.
pub proof fn lemma_decimal_is_decimal_of(n: nat)
    ensures
        is_decimal_of(decimal(n), n),
{
    lemma_decimal(n);
    let d = decimal(n);
    assert forall|i: int| 0 <= i < d.len() implies 48 <= (#[trigger] d[i] as u32) <= 57 by {
        assert(is_ascii_digit(d[i]));
    }
}

/// The signed decimal text of `n` is how `{}` writes it.
pub proof fn lemma_signed_decimal_is_signed_decimal_of(n: int)
    ensures
        is_signed_decimal_of(signed_decimal(n), n),
{
    if n < 0 {
        lemma_decimal_is_decimal_of((-n) as nat);
        assert((seq!['-'] + decimal((-n) as nat)).drop_first() =~= decimal((-n) as nat));
    } else {
        lemma_decimal_is_decimal_of(n as nat);
    }
}

/// Trimming removes white space from both ends and nothing else: the result
/// is a stretch of `s` with only white space before and after it, and it
/// neither begins nor ends with white space.
pub proof fn lemma_trim_removes_only_outer_white_space(s: Seq<char>)
    ensures
        exists|lo: int, hi: int|
            #![trigger s.subrange(lo, hi)]
            0 <= lo <= hi <= s.len() && trim(s) == s.subrange(lo, hi) && (forall|i: int|
                0 <= i < lo ==> is_white_space(#[trigger] s[i])) && (forall|i: int|
                hi <= i < s.len() ==> is_white_space(#[trigger] s[i])),
        trim(s).len() > 0 ==> !is_white_space(trim(s)[0]) && !is_white_space(trim(s).last()),
{
    let lo = lemma_trim_start_form(s);
    let t = s.subrange(lo, s.len() as int);
    let hi = lemma_trim_end_form(t);
    assert(trim(s) == s.subrange(lo, lo + hi)) by {
        assert(t.subrange(0, hi) =~= s.subrange(lo, lo + hi));
    }
    assert forall|i: int| lo + hi <= i < s.len() implies is_white_space(#[trigger] s[i]) by {
        assert(s[i] == t[i - lo]);
    }
    assert(s.subrange(lo, lo + hi) == trim(s));
    if trim(s).len() > 0 {
        assert(trim(s)[0] == trim_start(s)[0]);
    }
}

proof fn lemma_trim_start_form(s: Seq<char>) -> (lo: int)
    ensures
        0 <= lo <= s.len(),
        trim_start(s) == s.subrange(lo, s.len() as int),
        forall|i: int| 0 <= i < lo ==> is_white_space(#[trigger] s[i]),
        trim_start(s).len() > 0 ==> !is_white_space(trim_start(s)[0]),
    decreases s.len(),
{
    if s.len() > 0 && is_white_space(s[0]) {
        let r = lemma_trim_start_form(s.drop_first());
        assert(s.drop_first().subrange(r, s.len() - 1) =~= s.subrange(r + 1, s.len() as int));
        assert forall|i: int| 0 <= i < r + 1 implies is_white_space(#[trigger] s[i]) by {
            if i > 0 {
                assert(s[i] == s.drop_first()[i - 1]);
            }
        }
        r + 1
    } else {
        assert(s.subrange(0, s.len() as int) =~= s);
        0
    }
}

proof fn lemma_trim_end_form(s: Seq<char>) -> (hi: int)
    ensures
        0 <= hi <= s.len(),
        trim_end(s) == s.subrange(0, hi),
        forall|i: int| hi <= i < s.len() ==> is_white_space(#[trigger] s[i]),
        trim_end(s).len() > 0 ==> !is_white_space(trim_end(s).last()),
        trim_start(s).len() > 0 ==> trim_end(s).len() > 0 && trim_end(s)[0] == s[0],
    decreases s.len(),
{
    if s.len() > 0 && is_white_space(s.last()) {
        let r = lemma_trim_end_form(s.drop_last());
        assert(s.drop_last().subrange(0, r) =~= s.subrange(0, r));
        assert forall|i: int| r <= i < s.len() implies is_white_space(#[trigger] s[i]) by {
            if i < s.len() - 1 {
                assert(s[i] == s.drop_last()[i]);
            }
        }
        if trim_start(s).len() > 0 {
            lemma_trim_start_nonempty(s);
        }
        r
    } else {
        assert(s.subrange(0, s.len() as int) =~= s);
        s.len() as int
    }
}

/// When `s` holds a character that is not white space, so does the part
/// of `s` before its trailing white space, and it starts where `s` does.
proof fn lemma_trim_start_nonempty(s: Seq<char>)
    requires
        trim_start(s).len() > 0,
        s.len() > 0,
        is_white_space(s.last()),
    ensures
        trim_start(s.drop_last()).len() > 0,
    decreases s.len(),
{
    if is_white_space(s[0]) {
        if s.len() == 1 {
            assert(trim_start(s.drop_first()).len() == 0);
        } else {
            assert(s.drop_first().last() == s.last());
            lemma_trim_start_nonempty(s.drop_first());
            assert(s.drop_first().drop_last() =~= s.drop_last().drop_first());
        }
    }
}

/// Leading `#` characters are removed and nothing else: the result is what
/// follows them, and it does not begin with `#`.
pub proof fn lemma_strip_hashes_form(t: Seq<char>) -> (k: int)
    ensures
        0 <= k <= t.len(),
        strip_hashes(t) == t.subrange(k, t.len() as int),
        forall|i: int| 0 <= i < k ==> #[trigger] t[i] == '#',
        strip_hashes(t).len() > 0 ==> strip_hashes(t)[0] != '#',
    decreases t.len(),
{
    if t.len() > 0 && t[0] == '#' {
        let r = lemma_strip_hashes_form(t.drop_first());
        assert(t.drop_first().subrange(r, t.len() - 1) =~= t.subrange(r + 1, t.len() as int));
        assert forall|i: int| 0 <= i < r + 1 implies #[trigger] t[i] == '#' by {
            if i > 0 {
                assert(t[i] == t.drop_first()[i - 1]);
            }
        }
        r + 1
    } else {
        assert(t.subrange(0, t.len() as int) =~= t);
        0
    }
}

/// The value of digits does not change with a leading zero.
proof fn lemma_decimal_value_leading_zero(d: Seq<char>)
    ensures
        decimal_value(seq!['0'] + d) == decimal_value(d),
    decreases d.len(),
{
    let z = seq!['0'] + d;
    if d.len() == 0 {
        assert(z.drop_last() =~= Seq::<char>::empty());
        assert(z.last() == '0');
        assert('0' as u32 == 48);
        assert(decimal_value(z) == decimal_value(z.drop_last()) * 10 + (z.last() as u32 - 48) as nat);
    } else {
        lemma_decimal_value_leading_zero(d.drop_last());
        assert(z.drop_last() =~= seq!['0'] + d.drop_last());
        assert(z.last() == d.last());
        assert(decimal_value(z) == decimal_value(z.drop_last()) * 10 + (z.last() as u32 - 48) as nat);
    }
}

/// A byte reads the same with a leading `+`, and with a leading zero.
pub proof fn lemma_parse_u8_plus_and_zero(d: Seq<char>)
    requires
        d.len() > 0,
        d[0] != '+',
    ensures
        parse_u8(seq!['+'] + d) == parse_u8(d),
        parse_u8(seq!['0'] + d) == parse_u8(d),
{
    assert((seq!['+'] + d).drop_first() =~= d);
    let z = seq!['0'] + d;
    lemma_decimal_value_leading_zero(d);
    assert(unsigned_digits(z) == z);
    assert(is_ascii_digit('0'));
    if forall|i: int| 0 <= i < d.len() ==> is_ascii_digit(#[trigger] d[i]) {
        assert forall|i: int| 0 <= i < z.len() implies is_ascii_digit(#[trigger] z[i]) by {
            if i > 0 {
                assert(z[i] == d[i - 1]);
            }
        }
    } else {
        let j = choose|j: int| 0 <= j < d.len() && !is_ascii_digit(#[trigger] d[j]);
        assert(z[j + 1] == d[j]);
    }
}

/// How decimal text reads: digits without sign or leading zeros parse to
/// their value, up to 255.
pub proof fn lemma_parse_u8_decimal(v: u8)
    ensures
        parse_u8(decimal(v as nat)) == Some(v),
        is_decimal_of(decimal(v as nat), v as nat),
{
    lemma_decimal(v as nat);
    lemma_decimal_is_decimal_of(v as nat);
}

} // verus!

//! Spelling numbers and text the way the messages of this library show them.

use vstd::prelude::*;
use crate::text::push_char;

verus! {

/// The digit character for `d`, in lower-case hexadecimal (`d < 16`).
pub open spec fn digit_char(d: nat) -> char {
    if d < 10 {
        ((d + 48) as u8) as char
    } else {
        ((d + 87) as u8) as char
    }
}

/// The upper-case hexadecimal digit for `d < 16`.
pub open spec fn upper_digit_char(d: nat) -> char {
    if d < 10 {
        ((d + 48) as u8) as char
    } else {
        ((d + 55) as u8) as char
    }
}

/// `n` written in base ten, with no sign and no leading zeros.
pub open spec fn decimal(n: nat) -> Seq<char>
    decreases n,
{
    if n < 10 {
        seq![digit_char(n)]
    } else {
        decimal(n / 10).push(digit_char(n % 10))
    }
}

/// `n` written in lower-case hexadecimal, with no leading zeros.
pub open spec fn hex_lower(n: nat) -> Seq<char>
    decreases n,
{
    if n < 16 {
        seq![digit_char(n)]
    } else {
        hex_lower(n / 16).push(digit_char(n % 16))
    }
}

/// `n` written in upper-case hexadecimal, with no leading zeros.
pub open spec fn hex_upper(n: nat) -> Seq<char>
    decreases n,
{
    if n < 16 {
        seq![upper_digit_char(n)]
    } else {
        hex_upper(n / 16).push(upper_digit_char(n % 16))
    }
}

/// `digits` padded with leading zeros to at least `width` characters.
pub open spec fn zero_padded(digits: Seq<char>, width: nat) -> Seq<char> {
    if digits.len() >= width {
        digits
    } else {
        Seq::new((width - digits.len()) as nat, |i: int| '0') + digits
    }
}

/// A signed number in base ten: a minus sign before the magnitude when negative.
pub open spec fn signed_decimal(n: int) -> Seq<char> {
    if n < 0 {
        seq!['-'].add(decimal((-n) as nat))
    } else {
        decimal(n as nat)
    }
}

/// Whether `c` is a control character (Unicode general category Cc).
pub open spec fn is_control(c: char) -> bool {
    (c as u32) < 0x20 || (0x7f <= (c as u32) && (c as u32) <= 0x9f)
}

/// Whether `c` is a control character.
pub fn char_is_control(c: char) -> (r: bool)
    ensures
        r == is_control(c),
{
    let v = c as u32;
    v < 0x20 || (0x7f <= v && v <= 0x9f)
}

/// Appends `n` in base ten.
pub fn push_decimal(out: &mut String, n: u64)
    ensures
        final(out)@ == old(out)@ + decimal(n as nat),
    decreases n,
{
    if n >= 10 {
        push_decimal(out, n / 10);
    }
    let d = (n % 10) as u8;
    push_char(out, (d + 48) as char);
    proof {
        if n < 10 {
            assert(decimal(n as nat) =~= seq![digit_char(n as nat)]);
        }
    }
}

/// `n` in base ten, as a string.
pub fn decimal_string(n: u64) -> (out: String)
    ensures
        out@ == decimal(n as nat),
{
    let mut out = String::new();
    push_decimal(&mut out, n);
    assert(out@ =~= decimal(n as nat));
    out
}

/// Appends a signed number in base ten.
pub fn push_signed_decimal(out: &mut String, n: i64)
    ensures
        final(out)@ == old(out)@ + signed_decimal(n as int),
{
    if n < 0 {
        push_char(out, '-');
        let magnitude: u64 = if n == i64::MIN { 9223372036854775808u64 } else { (-n) as u64 };
        push_decimal(out, magnitude);
        assert(final(out)@ =~= old(out)@ + signed_decimal(n as int));
    } else {
        push_decimal(out, n as u64);
    }
}

/// Appends `n` in lower-case hexadecimal.
pub fn push_hex_lower(out: &mut String, n: u32)
    ensures
        final(out)@ == old(out)@ + hex_lower(n as nat),
    decreases n,
{
    if n >= 16 {
        push_hex_lower(out, n / 16);
    }
    let d = (n % 16) as u8;
    if d < 10 {
        push_char(out, (d + 48) as char);
    } else {
        push_char(out, (d + 87) as char);
    }
    proof {
        if n < 16 {
            assert(hex_lower(n as nat) =~= seq![digit_char(n as nat)]);
        }
    }
}

/// The upper-case hexadecimal digits of `n`, as a vector.
fn hex_upper_chars(n: u32) -> (out: Vec<char>)
    ensures
        out@ == hex_upper(n as nat),
    decreases n,
{
    let mut out = if n >= 16 { hex_upper_chars(n / 16) } else { Vec::new() };
    let d = (n % 16) as u8;
    if d < 10 {
        out.push((d + 48) as char);
    } else {
        out.push((d + 55) as char);
    }
    proof {
        if n < 16 {
            assert(out@ =~= hex_upper(n as nat));
        }
    }
    out
}

/// Appends `U+` and the code point of `c` in upper-case hexadecimal, padded to
/// four digits: the way a code point is named in a message.
pub fn push_code_point(out: &mut String, c: char)
    ensures
        final(out)@ == old(out)@ + seq!['U', '+'] + zero_padded(hex_upper(c as u32 as nat), 4),
{
    let digits = hex_upper_chars(c as u32);
    let ghost start = out@;
    push_char(out, 'U');
    push_char(out, '+');
    let mut pad: usize = digits.len();
    while pad < 4
        invariant
            digits.len() <= pad,
            pad <= 4 || pad == digits.len(),
            out@ == start + seq!['U', '+'] + Seq::new((pad - digits.len()) as nat, |i: int| '0'),
        decreases 4 - pad,
    {
        push_char(out, '0');
        assert(out@ =~= start + seq!['U', '+'] + Seq::new((pad + 1 - digits.len()) as nat, |i: int| '0'));
        pad = pad + 1;
    }
    let mut i: usize = 0;
    while i < digits.len()
        invariant
            i <= digits.len(),
            out@ == start + seq!['U', '+'] + Seq::new((pad - digits.len()) as nat, |j: int| '0') + digits@.subrange(0, i as int),
        decreases digits.len() - i,
    {
        push_char(out, digits[i]);
        i = i + 1;
        assert(out@ =~= start + seq!['U', '+'] + Seq::new((pad - digits.len()) as nat, |j: int| '0') + digits@.subrange(0, i as int));
    }
    proof {
        assert(digits@.subrange(0, digits.len() as int) =~= digits@);
        if digits.len() >= 4 {
            assert(Seq::new((pad - digits.len()) as nat, |j: int| '0') =~= Seq::<char>::empty());
        }
        assert(out@ =~= start + seq!['U', '+'] + zero_padded(hex_upper(c as u32 as nat), 4));
    }
}


/// What `char::escape_debug` yields for `c`.
pub uninterp spec fn escape_debug_of(c: char) -> Seq<char>;

/// The characters `char::escape_debug` yields for `c`, collected: the escape
/// Rust's debug rendering uses for a character that needs one, and the
/// character itself otherwise. Which characters need one rests on the Unicode
/// tables of the standard library, so the contract names the result rather
/// than spelling it out.
#[verifier::external_body]
fn escape_debug_chars(c: char) -> (r: Vec<char>)
    ensures
        r@ == escape_debug_of(c),
{
    c.escape_debug().collect()
}

/// How one character is written inside a quoted debug rendering, where
/// `quote` is the delimiter being used (`"` for text, `'` for a character):
/// the other kind of quotation mark is written as it is, and every other
/// character as `char::escape_debug` writes it.
pub open spec fn debug_escape(c: char, quote: char) -> Seq<char> {
    if (c == '\'' || c == '"') && c != quote {
        seq![c]
    } else {
        escape_debug_of(c)
    }
}

/// Every character of `s` escaped for a debug rendering delimited by `quote`.
pub open spec fn debug_escaped(s: Seq<char>, quote: char) -> Seq<char>
    decreases s.len(),
{
    if s.len() == 0 {
        Seq::empty()
    } else {
        debug_escaped(s.drop_last(), quote) + debug_escape(s.last(), quote)
    }
}

/// Text in double quotes, escaped the way a debug rendering shows it.
pub open spec fn debug_quoted(s: Seq<char>) -> Seq<char> {
    seq!['"'] + debug_escaped(s, '"') + seq!['"']
}

/// A character in single quotes, escaped the way a debug rendering shows it.
pub open spec fn debug_char(c: char) -> Seq<char> {
    seq!['\''] + debug_escape(c, '\'') + seq!['\'']
}

/// Appends one escaped character.
pub fn push_debug_escape(out: &mut String, c: char, quote: char)
    ensures
        final(out)@ == old(out)@ + debug_escape(c, quote),
{
    let ghost start = out@;
    if (c == '\'' || c == '"') && c != quote {
        push_char(out, c);
        assert(out@ =~= start + debug_escape(c, quote));
        return;
    }
    let escaped = escape_debug_chars(c);
    let mut i: usize = 0;
    while i < escaped.len()
        invariant
            i <= escaped.len(),
            out@ == start + escaped@.subrange(0, i as int),
        decreases escaped.len() - i,
    {
        push_char(out, escaped[i]);
        i = i + 1;
        assert(out@ =~= start + escaped@.subrange(0, i as int));
    }
    assert(escaped@.subrange(0, escaped.len() as int) =~= escaped@);
    assert(out@ =~= start + debug_escape(c, quote));
}

/// Appends `s` in double quotes, escaped for a debug rendering.
pub fn push_debug_quoted(out: &mut String, s: &str)
    ensures
        final(out)@ == old(out)@ + debug_quoted(s@),
{
    let ghost start = out@;
    let chars = crate::text::chars_of(s);
    push_char(out, '"');
    let mut i: usize = 0;
    while i < chars.len()
        invariant
            i <= chars.len(),
            chars@ == s@,
            out@ == start + seq!['"'] + debug_escaped(chars@.subrange(0, i as int), '"'),
        decreases chars.len() - i,
    {
        push_debug_escape(out, chars[i], '"');
        proof {
            assert(chars@.subrange(0, i + 1).drop_last() =~= chars@.subrange(0, i as int));
        }
        i = i + 1;
        assert(out@ =~= start + seq!['"'] + debug_escaped(chars@.subrange(0, i as int), '"'));
    }
    push_char(out, '"');
    assert(chars@.subrange(0, chars.len() as int) =~= s@);
    assert(out@ =~= start + debug_quoted(s@));
}

/// Appends a character in single quotes, escaped for a debug rendering.
pub fn push_debug_char(out: &mut String, c: char)
    ensures
        final(out)@ == old(out)@ + debug_char(c),
{
    let ghost start = out@;
    push_char(out, '\'');
    push_debug_escape(out, c, '\'');
    push_char(out, '\'');
    assert(out@ =~= start + debug_char(c));
}

} // verus!

//! The characters that carry inline structure from the parser's rendered
//! output to the decoder, and the encoding side of that channel.
//!
//! Structure travels as Unicode noncharacters (U+FDD0 to U+FDEF), which no
//! legitimate document contains and which the parse boundary refuses, so a
//! marker in the stream can only have been written here.

use vstd::prelude::*;
use crate::document::InlineStyle;
use crate::text::{chars_of, push_char, str_eq};

verus! {

/// Opens a strong span.
pub const STRONG_OPEN: char = '\u{fdd0}';
/// Opens an emphasis span.
pub const EMPHASIS_OPEN: char = '\u{fdd1}';
/// Opens a monospace span.
pub const MONOSPACE_OPEN: char = '\u{fdd2}';
/// Opens a superscript span.
pub const SUPERSCRIPT_OPEN: char = '\u{fdd3}';
/// Opens a subscript span.
pub const SUBSCRIPT_OPEN: char = '\u{fdd4}';
/// Opens a highlight span.
pub const HIGHLIGHT_OPEN: char = '\u{fdd5}';
/// Opens an underline span.
pub const UNDERLINE_OPEN: char = '\u{fdd6}';
/// Opens a strikethrough span.
pub const STRIKETHROUGH_OPEN: char = '\u{fdd7}';
/// Closes the innermost open span.
pub const SPAN_CLOSE: char = '\u{fdd8}';
/// A break the author asked for.
pub const HARD_LINE_BREAK: char = '\u{fdd9}';
/// Opens a construct this renderer does not honour: its name follows, then
/// the separator, then the text it carried, then a close.
pub const UNSUPPORTED_OPEN: char = '\u{fdda}';
/// Separates an unsupported construct's name from the text it carried.
pub const UNSUPPORTED_SEPARATOR: char = '\u{fddb}';
/// Opens a larger span.
pub const LARGER_OPEN: char = '\u{fddc}';
/// Opens a smaller span.
pub const SMALLER_OPEN: char = '\u{fddd}';

/// The first character of the range reserved for structural markers.
pub const MARKER_RANGE_START: char = '\u{fdd0}';
/// The last character of the range reserved for structural markers.
pub const MARKER_RANGE_END: char = '\u{fdef}';
/// The first character the upstream parser reserves for its placeholders.
pub const SENTINEL_RANGE_START: char = '\u{e000}';
/// The last character the upstream parser reserves for its placeholders.
pub const SENTINEL_RANGE_END: char = '\u{e003}';

/// The marker that opens a span in `style`.
pub open spec fn open_marker_spec(style: InlineStyle) -> char {
    match style {
        InlineStyle::Strong => '\u{fdd0}',
        InlineStyle::Emphasis => '\u{fdd1}',
        InlineStyle::Monospace => '\u{fdd2}',
        InlineStyle::Superscript => '\u{fdd3}',
        InlineStyle::Subscript => '\u{fdd4}',
        InlineStyle::Highlight => '\u{fdd5}',
        InlineStyle::Underline => '\u{fdd6}',
        InlineStyle::Strikethrough => '\u{fdd7}',
        InlineStyle::Larger => '\u{fddc}',
        InlineStyle::Smaller => '\u{fddd}',
    }
}

/// The style a marker opens, if it opens one.
pub open spec fn style_of_spec(marker: char) -> Option<InlineStyle> {
    if marker == '\u{fdd0}' {
        Some(InlineStyle::Strong)
    } else if marker == '\u{fdd1}' {
        Some(InlineStyle::Emphasis)
    } else if marker == '\u{fdd2}' {
        Some(InlineStyle::Monospace)
    } else if marker == '\u{fdd3}' {
        Some(InlineStyle::Superscript)
    } else if marker == '\u{fdd4}' {
        Some(InlineStyle::Subscript)
    } else if marker == '\u{fdd5}' {
        Some(InlineStyle::Highlight)
    } else if marker == '\u{fdd6}' {
        Some(InlineStyle::Underline)
    } else if marker == '\u{fdd7}' {
        Some(InlineStyle::Strikethrough)
    } else if marker == '\u{fddc}' {
        Some(InlineStyle::Larger)
    } else if marker == '\u{fddd}' {
        Some(InlineStyle::Smaller)
    } else {
        None
    }
}

/// Whether `c` is one of the markers the renderer itself emits.
pub open spec fn emitted_marker(c: char) -> bool {
    style_of_spec(c) is Some || c == SPAN_CLOSE || c == HARD_LINE_BREAK || c == UNSUPPORTED_OPEN
        || c == UNSUPPORTED_SEPARATOR
}

/// Whether `c` lies in the range reserved for markers.
pub open spec fn reserved_marker(c: char) -> bool {
    0xfdd0 <= (c as u32) && (c as u32) <= 0xfdef
}

/// Whether `c` is one the upstream parser reserves for its placeholders.
pub open spec fn parser_sentinel(c: char) -> bool {
    0xe000 <= (c as u32) && (c as u32) <= 0xe003
}

/// Every marker and its style agree both ways.
pub proof fn lemma_markers_round_trip(style: InlineStyle)
    ensures
        style_of_spec(open_marker_spec(style)) == Some(style),
        reserved_marker(open_marker_spec(style)),
        emitted_marker(open_marker_spec(style)),
{
}

/// The marker that opens a span in `style`.
pub fn open_marker(style: InlineStyle) -> (r: char)
    ensures
        r == open_marker_spec(style),
{
    match style {
        InlineStyle::Strong => STRONG_OPEN,
        InlineStyle::Emphasis => EMPHASIS_OPEN,
        InlineStyle::Monospace => MONOSPACE_OPEN,
        InlineStyle::Superscript => SUPERSCRIPT_OPEN,
        InlineStyle::Subscript => SUBSCRIPT_OPEN,
        InlineStyle::Highlight => HIGHLIGHT_OPEN,
        InlineStyle::Underline => UNDERLINE_OPEN,
        InlineStyle::Strikethrough => STRIKETHROUGH_OPEN,
        InlineStyle::Larger => LARGER_OPEN,
        InlineStyle::Smaller => SMALLER_OPEN,
    }
}

/// The style a marker opens, if it opens one.
pub fn style_of(marker: char) -> (r: Option<InlineStyle>)
    ensures
        r == style_of_spec(marker),
{
    if marker == STRONG_OPEN {
        Some(InlineStyle::Strong)
    } else if marker == EMPHASIS_OPEN {
        Some(InlineStyle::Emphasis)
    } else if marker == MONOSPACE_OPEN {
        Some(InlineStyle::Monospace)
    } else if marker == SUPERSCRIPT_OPEN {
        Some(InlineStyle::Superscript)
    } else if marker == SUBSCRIPT_OPEN {
        Some(InlineStyle::Subscript)
    } else if marker == HIGHLIGHT_OPEN {
        Some(InlineStyle::Highlight)
    } else if marker == UNDERLINE_OPEN {
        Some(InlineStyle::Underline)
    } else if marker == STRIKETHROUGH_OPEN {
        Some(InlineStyle::Strikethrough)
    } else if marker == LARGER_OPEN {
        Some(InlineStyle::Larger)
    } else if marker == SMALLER_OPEN {
        Some(InlineStyle::Smaller)
    } else {
        None
    }
}

/// Whether `character` falls in the range reserved for markers.
pub fn is_reserved_marker(character: char) -> (r: bool)
    ensures
        r == reserved_marker(character),
{
    0xfdd0 <= (character as u32) && (character as u32) <= 0xfdef
}

/// Whether `character` is one the parser reserves for its own placeholders.
pub fn is_parser_sentinel(character: char) -> (r: bool)
    ensures
        r == parser_sentinel(character),
{
    0xe000 <= (character as u32) && (character as u32) <= 0xe003
}

/// Whether this is one of the markers the renderer itself emits.
pub fn is_emitted_marker(character: char) -> (r: bool)
    ensures
        r == emitted_marker(character),
{
    style_of(character).is_some() || character == SPAN_CLOSE || character == HARD_LINE_BREAK
        || character == UNSUPPORTED_OPEN || character == UNSUPPORTED_SEPARATOR
}

/// Every marker the renderer emits lies in the reserved range, so refusing the
/// range at the parse boundary refuses every marker.
pub proof fn lemma_emitted_markers_are_reserved(c: char)
    requires
        emitted_marker(c),
    ensures
        reserved_marker(c),
{
}

/// `body` wrapped in the markers for `style`.
pub open spec fn wrapped(style: InlineStyle, body: Seq<char>) -> Seq<char> {
    seq![open_marker_spec(style)] + body + seq![SPAN_CLOSE]
}

/// An unsupported construct: its name, and the text it carried.
pub open spec fn unsupported_encoding(construct: Seq<char>, text: Seq<char>) -> Seq<char> {
    seq![UNSUPPORTED_OPEN] + construct + seq![UNSUPPORTED_SEPARATOR] + text + seq![SPAN_CLOSE]
}

/// Appends `body` wrapped in the markers for `style`.
pub fn wrap(style: InlineStyle, body: &str, dest: &mut String)
    ensures
        final(dest)@ == old(dest)@ + wrapped(style, body@),
{
    let ghost start = dest@;
    push_char(dest, open_marker(style));
    dest.append(body);
    push_char(dest, SPAN_CLOSE);
    assert(dest@ =~= start + wrapped(style, body@));
}

/// Appends an unsupported construct: its name, and the text it carried.
pub fn unsupported(construct: &str, text: &str, dest: &mut String)
    ensures
        final(dest)@ == old(dest)@ + unsupported_encoding(construct@, text@),
{
    let ghost start = dest@;
    push_char(dest, UNSUPPORTED_OPEN);
    dest.append(construct);
    push_char(dest, UNSUPPORTED_SEPARATOR);
    dest.append(text);
    push_char(dest, SPAN_CLOSE);
    assert(dest@ =~= start + unsupported_encoding(construct@, text@));
}

/// The kinds of quoted text the upstream parser recognises.
#[derive(Debug, Clone, Copy, PartialEq, Eq)]
pub enum QuoteKind {
    /// `*strong*`.
    Strong,
    /// `"`double quotes`"`.
    DoubleQuote,
    /// `'`single quotes`'`.
    SingleQuote,
    /// `` `monospaced` ``.
    Monospaced,
    /// `_emphasis_`.
    Emphasis,
    /// `#mark#`.
    Mark,
    /// `^superscript^`.
    Superscript,
    /// `~subscript~`.
    Subscript,
    /// A span with no presentation of its own.
    Unquoted,
    /// AsciiMath notation.
    AsciiMath,
    /// LaTeX math notation.
    LatexMath,
}

/// What quoting `body` as `kind` writes.
pub open spec fn quote_spec(kind: QuoteKind, body: Seq<char>) -> Seq<char> {
    match kind {
        QuoteKind::Strong => wrapped(InlineStyle::Strong, body),
        QuoteKind::Emphasis => wrapped(InlineStyle::Emphasis, body),
        QuoteKind::Monospaced => wrapped(InlineStyle::Monospace, body),
        QuoteKind::Superscript => wrapped(InlineStyle::Superscript, body),
        QuoteKind::Subscript => wrapped(InlineStyle::Subscript, body),
        QuoteKind::Mark => wrapped(InlineStyle::Highlight, body),
        QuoteKind::DoubleQuote => seq!['\u{201c}'] + body + seq!['\u{201d}'],
        QuoteKind::SingleQuote => seq!['\u{2018}'] + body + seq!['\u{2019}'],
        QuoteKind::Unquoted | QuoteKind::AsciiMath | QuoteKind::LatexMath => body,
    }
}

/// Appends `body` under the presentation the quote syntax asked for. Curved
/// quotation marks are characters, not a span; mathematical notation and an
/// unquoted span keep their text and add no structure.
pub fn quote(kind: QuoteKind, body: &str, dest: &mut String)
    ensures
        final(dest)@ == old(dest)@ + quote_spec(kind, body@),
{
    let ghost start = dest@;
    match kind {
        QuoteKind::Strong => wrap(InlineStyle::Strong, body, dest),
        QuoteKind::Emphasis => wrap(InlineStyle::Emphasis, body, dest),
        QuoteKind::Monospaced => wrap(InlineStyle::Monospace, body, dest),
        QuoteKind::Superscript => wrap(InlineStyle::Superscript, body, dest),
        QuoteKind::Subscript => wrap(InlineStyle::Subscript, body, dest),
        QuoteKind::Mark => wrap(InlineStyle::Highlight, body, dest),
        QuoteKind::DoubleQuote => {
            push_char(dest, '\u{201c}');
            dest.append(body);
            push_char(dest, '\u{201d}');
        },
        QuoteKind::SingleQuote => {
            push_char(dest, '\u{2018}');
            dest.append(body);
            push_char(dest, '\u{2019}');
        },
        QuoteKind::Unquoted | QuoteKind::AsciiMath | QuoteKind::LatexMath => {
            dest.append(body);
        },
    }
    assert(dest@ =~= start + quote_spec(kind, body@));
}

/// What one role does to already-quoted text: a role with a typographic
/// meaning wraps it in that style; any other is reported by name and its text
/// kept.
pub open spec fn apply_role(role: Seq<char>, quoted: Seq<char>) -> Seq<char> {
    match crate::document::style_for_role(role) {
        Some(style) => wrapped(style, quoted),
        None => unsupported_encoding("role "@ + crate::fmt::debug_quoted(role), quoted),
    }
}

/// The roles applied in order, each wrapping everything decided before it.
pub open spec fn apply_roles(roles: Seq<Seq<char>>, quoted: Seq<char>) -> Seq<char>
    decreases roles.len(),
{
    if roles.len() == 0 {
        quoted
    } else {
        apply_role(roles.last(), apply_roles(roles.drop_last(), quoted))
    }
}

/// The encoding of a quoted substitution: the quote's own presentation first,
/// then each role around it, in order.
pub fn quoted_substitution(kind: QuoteKind, roles: &Vec<String>, body: &str) -> (r: String)
    ensures
        r@ == apply_roles(Seq::new(roles.len() as nat, |i: int| roles@[i]@), quote_spec(kind, body@)),
{
    let ghost names = Seq::new(roles.len() as nat, |i: int| roles@[i]@);
    let mut quoted = String::new();
    quote(kind, body, &mut quoted);
    assert(quoted@ =~= quote_spec(kind, body@));
    let mut i: usize = 0;
    while i < roles.len()
        invariant
            i <= roles.len(),
            names == Seq::new(roles.len() as nat, |j: int| roles@[j]@),
            quoted@ == apply_roles(names.subrange(0, i as int), quote_spec(kind, body@)),
        decreases roles.len() - i,
    {
        let role = roles[i].as_str();
        let mut next = String::new();
        match InlineStyle::from_role(role) {
            Some(style) => wrap(style, quoted.as_str(), &mut next),
            None => {
                let mut name = String::from_str("role ");
                crate::fmt::push_debug_quoted(&mut name, role);
                unsupported(name.as_str(), quoted.as_str(), &mut next);
            },
        }
        proof {
            assert(names.subrange(0, i + 1).drop_last() =~= names.subrange(0, i as int));
            assert(names.subrange(0, i + 1).last() == roles@[i as int]@);
            assert(next@ =~= apply_role(roles@[i as int]@, quoted@));
        }
        quoted = next;
        i = i + 1;
    }
    assert(names.subrange(0, roles.len() as int) =~= names);
    quoted
}

/// The typographic replacements the upstream parser recognises.
#[derive(Debug, Clone, PartialEq, Eq)]
pub enum CharacterReplacement {
    /// `(C)`.
    Copyright,
    /// `(R)`.
    Registered,
    /// `(TM)`.
    Trademark,
    /// ` -- `.
    EmDashSurroundedBySpaces,
    /// `--` between words.
    EmDashWithoutSpace,
    /// `...`.
    Ellipsis,
    /// `->`.
    SingleRightArrow,
    /// `=>`.
    DoubleRightArrow,
    /// `<-`.
    SingleLeftArrow,
    /// `<=`.
    DoubleLeftArrow,
    /// An apostrophe between letters.
    TypographicApostrophe,
    /// `&name;`, `&#123;` or `&#x7b;`.
    CharacterReference(String),
}

/// What a reference written as `&name;` resolves to: the five XML names, and
/// numeric references.
pub open spec fn character_reference_spec(name: Seq<char>) -> Option<char> {
    if name == "amp"@ {
        Some('&')
    } else if name == "lt"@ {
        Some('<')
    } else if name == "gt"@ {
        Some('>')
    } else if name == "quot"@ {
        Some('"')
    } else if name == "apos"@ {
        Some('\'')
    } else {
        numeric_reference_spec(name)
    }
}

/// The hexadecimal value of a digit, if it is one.
pub open spec fn hex_digit_value(c: char) -> Option<nat> {
    if '0' <= c && c <= '9' {
        Some((c as u32 - 48) as nat)
    } else if 'a' <= c && c <= 'f' {
        Some((c as u32 - 87) as nat)
    } else if 'A' <= c && c <= 'F' {
        Some((c as u32 - 55) as nat)
    } else {
        None
    }
}

/// Whether every character of `s` is a hexadecimal digit.
pub open spec fn all_hex(s: Seq<char>) -> bool {
    forall|i: int| 0 <= i < s.len() ==> (#[trigger] hex_digit_value(s[i])) is Some
}

/// The value of a run of hexadecimal digits.
pub open spec fn hex_value(s: Seq<char>) -> nat
    decreases s.len(),
{
    if s.len() == 0 {
        0
    } else {
        hex_value(s.drop_last()) * 16 + hex_digit_value(s.last())->0
    }
}

/// The value a hexadecimal number spells, the way the standard library reads
/// one (an optional `+`, then at least one digit), if it fits 32 bits.
pub open spec fn parse_hex_u32(s: Seq<char>) -> Option<nat> {
    let d = crate::text::sign_stripped(s);
    if d.len() > 0 && all_hex(d) && hex_value(d) <= u32::MAX {
        Some(hex_value(d))
    } else {
        None
    }
}

/// Whether a number names a Unicode scalar value.
pub open spec fn is_scalar(v: nat) -> bool {
    v < 0x110000 && !(0xd800 <= v && v <= 0xdfff)
}

/// What a numeric reference resolves to: `#` then decimal, or `#x` / `#X` then
/// hexadecimal, naming a scalar value outside both reserved ranges.
pub open spec fn numeric_reference_spec(name: Seq<char>) -> Option<char> {
    if name.len() == 0 || name[0] != '#' {
        None
    } else {
        let digits = name.drop_first();
        let value = if digits.len() > 0 && (digits[0] == 'x' || digits[0] == 'X') {
            parse_hex_u32(digits.drop_first())
        } else {
            crate::text::parse_unsigned(digits, u32::MAX as nat)
        };
        match value {
            Some(v) => if is_scalar(v) && !reserved_marker(v as char) && !parser_sentinel(v as char) {
                Some(v as char)
            } else {
                None
            },
            None => None,
        }
    }
}

/// Reads hexadecimal digits into a number that fits 32 bits.
fn parse_hex_chars(s: &Vec<char>, from: usize) -> (r: Option<u32>)
    requires
        from <= s.len(),
    ensures
        r matches Some(v) ==> parse_hex_u32(s@.subrange(from as int, s.len() as int)) == Some(v as nat),
        r is None ==> parse_hex_u32(s@.subrange(from as int, s.len() as int)) is None,
{
    let ghost all = s@.subrange(from as int, s.len() as int);
    let start: usize = if from < s.len() && s[from] == '+' { from + 1 } else { from };
    let ghost d = crate::text::sign_stripped(all);
    assert(d =~= s@.subrange(start as int, s.len() as int));
    if start >= s.len() {
        assert(d.len() == 0);
        return None;
    }
    let mut value: u64 = 0;
    let mut i = start;
    while i < s.len()
        invariant
            start <= i <= s.len(),
            d == s@.subrange(start as int, s.len() as int),
            d == crate::text::sign_stripped(all),
            all == s@.subrange(from as int, s.len() as int),
            forall|j: int| start <= j < i ==> (#[trigger] hex_digit_value(s@[j])) is Some,
            value as nat == hex_value(s@.subrange(start as int, i as int)),
            value <= u32::MAX,
        decreases s.len() - i,
    {
        let c = s[i];
        let digit: u64 = if '0' <= c && c <= '9' {
            (c as u32 - 48) as u64
        } else if 'a' <= c && c <= 'f' {
            (c as u32 - 87) as u64
        } else if 'A' <= c && c <= 'F' {
            (c as u32 - 55) as u64
        } else {
            proof {
                assert(hex_digit_value(d[i - start]) is None);
                assert(!all_hex(d));
            }
            return None;
        };
        let ghost pre = s@.subrange(start as int, i + 1);
        assert(pre.drop_last() =~= s@.subrange(start as int, i as int));
        assert(pre.last() == c);
        let next = value * 16 + digit;
        if next > 0xffff_ffff {
            proof {
                assert(hex_value(pre) == next);
                if all_hex(d) {
                    lemma_hex_value_prefix_bound(d, (i + 1 - start) as int);
                    assert(d.subrange(0, (i + 1 - start) as int) =~= pre);
                }
            }
            return None;
        }
        value = next;
        i = i + 1;
    }
    assert(s@.subrange(start as int, i as int) =~= d);
    assert(all_hex(d));
    Some(value as u32)
}

/// A hexadecimal number only grows as more digits follow.
pub proof fn lemma_hex_value_prefix_bound(d: Seq<char>, k: int)
    requires
        0 <= k <= d.len(),
        all_hex(d),
    ensures
        hex_value(d.subrange(0, k)) <= hex_value(d),
    decreases d.len() - k,
{
    if k < d.len() {
        lemma_hex_value_prefix_bound(d, k + 1);
        assert(d.subrange(0, k + 1).drop_last() =~= d.subrange(0, k));
    } else {
        assert(d.subrange(0, k) =~= d);
    }
}

/// Turns a number into the character it names with `char::from_u32`: the
/// contract claims it gives that character exactly when the number is a Unicode
/// scalar value (below 0x110000 and outside the surrogates) and nothing
/// otherwise, as the standard library documents.
#[verifier::external_body]
fn char_from_u32(v: u32) -> (r: Option<char>)
    ensures
        is_scalar(v as nat) ==> r == Some(v as char),
        !is_scalar(v as nat) ==> r is None,
{
    char::from_u32(v)
}

/// Resolves `#8212` or `#x2014` to the character it names. A reference naming
/// a reserved marker or a parser sentinel is left unresolved.
pub fn numeric_character_reference(name: &str) -> (r: Option<char>)
    ensures
        r == numeric_reference_spec(name@),
{
    let s = chars_of(name);
    if s.len() == 0 || s[0] != '#' {
        return None;
    }
    let ghost digits = s@.drop_first();
    let value = if s.len() > 1 && (s[1] == 'x' || s[1] == 'X') {
        assert(digits.drop_first() =~= s@.subrange(2, s.len() as int));
        parse_hex_chars(&s, 2)
    } else {
        let mut rest: Vec<char> = Vec::new();
        let mut i: usize = 1;
        while i < s.len()
            invariant
                1 <= i <= s.len(),
                rest@ == s@.subrange(1, i as int),
            decreases s.len() - i,
        {
            rest.push(s[i]);
            i = i + 1;
            assert(rest@ =~= s@.subrange(1, i as int));
        }
        assert(rest@ =~= digits);
        match crate::text::parse_unsigned_chars(&rest, 0xffff_ffff) {
            Some(v) => Some(v as u32),
            None => None,
        }
    };
    match value {
        Some(v) => match char_from_u32(v) {
            Some(c) => {
                if is_reserved_marker(c) || is_parser_sentinel(c) {
                    None
                } else {
                    Some(c)
                }
            },
            None => None,
        },
        None => None,
    }
}

/// What resolving a character reference writes: the character it names (an
/// ampersand as `&amp;`, so the decoder cannot join it to what follows), or
/// the reference exactly as written.
pub open spec fn resolved_reference(name: Seq<char>) -> Seq<char> {
    match character_reference_spec(name) {
        Some(c) => if c == '&' { "&amp;"@ } else { seq![c] },
        None => seq!['&'] + name + seq![';'],
    }
}

/// Appends the character a reference names, or the reference as written.
pub fn resolve_character_reference(name: &str, dest: &mut String)
    ensures
        final(dest)@ == old(dest)@ + resolved_reference(name@),
{
    proof {
        reveal_strlit("amp");
        reveal_strlit("lt");
        reveal_strlit("gt");
        reveal_strlit("quot");
        reveal_strlit("apos");
        reveal_strlit("&amp;");
    }
    let ghost start = dest@;
    let resolved = if str_eq(name, "amp") {
        Some('&')
    } else if str_eq(name, "lt") {
        Some('<')
    } else if str_eq(name, "gt") {
        Some('>')
    } else if str_eq(name, "quot") {
        Some('"')
    } else if str_eq(name, "apos") {
        Some('\'')
    } else {
        numeric_character_reference(name)
    };
    match resolved {
        Some(character) => {
            if character == '&' {
                dest.append("&amp;");
            } else {
                push_char(dest, character);
            }
        },
        None => {
            push_char(dest, '&');
            dest.append(name);
            push_char(dest, ';');
        },
    }
    assert(dest@ =~= start + resolved_reference(name@));
}

/// What a typographic replacement writes: real characters, never entities.
pub open spec fn replacement_spec(r: CharacterReplacement) -> Seq<char> {
    match r {
        CharacterReplacement::Copyright => seq!['\u{a9}'],
        CharacterReplacement::Registered => seq!['\u{ae}'],
        CharacterReplacement::Trademark => seq!['\u{2122}'],
        CharacterReplacement::EmDashSurroundedBySpaces => seq!['\u{2009}', '\u{2014}', '\u{2009}'],
        CharacterReplacement::EmDashWithoutSpace => seq!['\u{2014}'],
        CharacterReplacement::Ellipsis => seq!['\u{2026}'],
        CharacterReplacement::SingleLeftArrow => seq!['\u{2190}'],
        CharacterReplacement::DoubleLeftArrow => seq!['\u{21d0}'],
        CharacterReplacement::SingleRightArrow => seq!['\u{2192}'],
        CharacterReplacement::DoubleRightArrow => seq!['\u{21d2}'],
        CharacterReplacement::TypographicApostrophe => seq!['\u{2019}'],
        CharacterReplacement::CharacterReference(name) => resolved_reference(name@),
    }
}

/// Appends what a typographic replacement stands for.
pub fn character_replacement(r: &CharacterReplacement, dest: &mut String)
    ensures
        final(dest)@ == old(dest)@ + replacement_spec(*r),
{
    let ghost start = dest@;
    match r {
        CharacterReplacement::Copyright => push_char(dest, '\u{a9}'),
        CharacterReplacement::Registered => push_char(dest, '\u{ae}'),
        CharacterReplacement::Trademark => push_char(dest, '\u{2122}'),
        CharacterReplacement::EmDashSurroundedBySpaces => {
            push_char(dest, '\u{2009}');
            push_char(dest, '\u{2014}');
            push_char(dest, '\u{2009}');
        },
        CharacterReplacement::EmDashWithoutSpace => push_char(dest, '\u{2014}'),
        CharacterReplacement::Ellipsis => push_char(dest, '\u{2026}'),
        CharacterReplacement::SingleLeftArrow => push_char(dest, '\u{2190}'),
        CharacterReplacement::DoubleLeftArrow => push_char(dest, '\u{21d0}'),
        CharacterReplacement::SingleRightArrow => push_char(dest, '\u{2192}'),
        CharacterReplacement::DoubleRightArrow => push_char(dest, '\u{21d2}'),
        CharacterReplacement::TypographicApostrophe => push_char(dest, '\u{2019}'),
        CharacterReplacement::CharacterReference(name) => resolve_character_reference(name.as_str(), dest),
    }
    assert(dest@ =~= start + replacement_spec(*r));
}

// ---------------------------------------------------------------------------
// What the renderer writes for each inline construct
// ---------------------------------------------------------------------------

/// The three characters the upstream parser escapes before any other
/// substitution runs.
#[derive(Debug, Clone, Copy, PartialEq, Eq)]
pub enum SpecialCharacter {
    /// `<`.
    Lt,
    /// `>`.
    Gt,
    /// `&`.
    Ampersand,
}

/// The entity a special character is written as. Later substitution steps
/// match these exact spellings, so they must survive as entities until the
/// decoder turns them back into characters.
pub open spec fn entity_spec(c: SpecialCharacter) -> Seq<char> {
    match c {
        SpecialCharacter::Lt => "&lt;"@,
        SpecialCharacter::Gt => "&gt;"@,
        SpecialCharacter::Ampersand => "&amp;"@,
    }
}

/// Appends the entity for a special character.
pub fn special_character(c: SpecialCharacter, dest: &mut String)
    ensures
        final(dest)@ == old(dest)@ + entity_spec(c),
{
    match c {
        SpecialCharacter::Lt => {
            dest.append("&lt;");
            proof { reveal_strlit("&lt;"); }
        },
        SpecialCharacter::Gt => {
            dest.append("&gt;");
            proof { reveal_strlit("&gt;"); }
        },
        SpecialCharacter::Ampersand => {
            dest.append("&amp;");
            proof { reveal_strlit("&amp;"); }
        },
    }
}

/// The first text if it is not empty, else the second.
pub open spec fn or_else_text(text: Seq<char>, fallback: Seq<char>) -> Seq<char> {
    if text.len() == 0 { fallback } else { text }
}

/// The text an option holds, or `fallback`.
pub open spec fn given_or(text: Option<&str>, fallback: Seq<char>) -> Seq<char> {
    match text {
        Some(t) => t@,
        None => fallback,
    }
}

/// Appends a link: what a reader sees is its text, or the target where the
/// link has none.
pub fn link(link_text: &str, target: &str, dest: &mut String)
    ensures
        final(dest)@ == old(dest)@ + unsupported_encoding("link"@, or_else_text(link_text@, target@)),
{
    proof { reveal_strlit("link"); }
    if crate::text::str_is_empty(link_text) {
        unsupported("link", target, dest);
    } else {
        unsupported("link", link_text, dest);
    }
}

/// Appends an anchor: its reference text, or its id where it has none.
pub fn anchor(id: &str, reftext: Option<&str>, dest: &mut String)
    ensures
        final(dest)@ == old(dest)@ + unsupported_encoding("anchor"@, given_or(reftext, id@)),
{
    proof { reveal_strlit("anchor"); }
    match reftext {
        Some(t) => unsupported("anchor", t, dest),
        None => unsupported("anchor", id, dest),
    }
}

/// Appends a cross-reference: the text the author gave it, or its target.
pub fn cross_reference(target: &str, provided_text: Option<&str>, dest: &mut String)
    ensures
        final(dest)@ == old(dest)@ + unsupported_encoding("cross-reference"@, given_or(provided_text, target@)),
{
    proof { reveal_strlit("cross-reference"); }
    match provided_text {
        Some(t) => unsupported("cross-reference", t, dest),
        None => unsupported("cross-reference", target, dest),
    }
}

/// Appends an index term: the visible term, or nothing for an invisible one,
/// which is still reported.
pub fn index_term(visible_term: Option<&str>, dest: &mut String)
    ensures
        final(dest)@ == old(dest)@ + unsupported_encoding("index term"@, given_or(visible_term, Seq::empty())),
{
    proof { reveal_strlit("index term"); reveal_strlit(""); }
    match visible_term {
        Some(t) => unsupported("index term", t, dest),
        None => unsupported("index term", "", dest),
    }
}

/// The texts of a run of strings.
pub open spec fn texts(s: Seq<String>) -> Seq<Seq<char>> {
    s.map_values(|x: String| x@)
}

/// Parts joined by a separator.
pub open spec fn joined(parts: Seq<Seq<char>>, separator: Seq<char>) -> Seq<char>
    decreases parts.len(),
{
    if parts.len() == 0 {
        Seq::empty()
    } else if parts.len() == 1 {
        parts[0]
    } else {
        joined(parts.drop_last(), separator) + separator + parts.last()
    }
}

/// Appends `parts` joined by `separator`.
fn push_joined(dest: &mut String, parts: &Vec<String>, separator: &str)
    ensures
        final(dest)@ == old(dest)@ + joined(texts(parts@), separator@),
{
    let ghost start = dest@;
    let mut i: usize = 0;
    while i < parts.len()
        invariant
            i <= parts.len(),
            dest@ == start + joined(texts(parts@.take(i as int)), separator@),
        decreases parts.len() - i,
    {
        let ghost before = dest@;
        if i > 0 {
            dest.append(separator);
        }
        dest.append(parts[i].as_str());
        proof {
            let t = texts(parts@.take(i + 1));
            assert(t.drop_last() =~= texts(parts@.take(i as int)));
            assert(t.last() == parts@[i as int]@);
            if i == 0 {
                assert(joined(texts(parts@.take(0)), separator@) =~= Seq::<char>::empty());
                assert(dest@ =~= start + joined(t, separator@));
            } else {
                assert(dest@ =~= start + joined(t, separator@));
            }
        }
        i = i + 1;
    }
    proof { assert(parts@.take(parts@.len() as int) =~= parts@); }
}

/// Appends a keyboard shortcut: its keys joined by `+`.
pub fn keyboard(keys: &Vec<String>, dest: &mut String)
    ensures
        final(dest)@ == old(dest)@ + unsupported_encoding("keyboard shortcut"@, joined(texts(keys@), "+"@)),
{
    let mut text = String::new();
    push_joined(&mut text, keys, "+");
    proof { reveal_strlit("keyboard shortcut"); reveal_strlit("+"); }
    assert(text@ =~= joined(texts(keys@), "+"@));
    unsupported("keyboard shortcut", text.as_str(), dest);
}

/// The separator between the steps of a menu path, a real character rather
/// than `>` so that it reads as an arrow on the page.
pub open spec fn menu_separator() -> Seq<char> {
    seq![' ', '\u{25b8}', ' ']
}

/// The steps of a menu selection: the menu, each submenu, then the item if
/// there is one.
pub open spec fn menu_steps(menu: Seq<char>, submenus: Seq<String>, item: Option<&str>) -> Seq<Seq<char>> {
    seq![menu] + texts(submenus) + match item {
        Some(i) => seq![i@],
        None => Seq::empty(),
    }
}

/// Appends a menu selection: its steps joined by an arrow.
pub fn menu(menu: &str, submenus: &Vec<String>, item: Option<&str>, dest: &mut String)
    ensures
        final(dest)@ == old(dest)@ + unsupported_encoding(
            "menu selection"@,
            joined(menu_steps(menu@, submenus@, item), menu_separator()),
        ),
{
    let mut steps: Vec<String> = Vec::new();
    steps.push(menu.to_owned());
    let mut i: usize = 0;
    while i < submenus.len()
        invariant
            i <= submenus.len(),
            texts(steps@) == seq![menu@] + texts(submenus@.take(i as int)),
        decreases submenus.len() - i,
    {
        let ghost before = steps@;
        let mut step = String::new();
        step.append(submenus[i].as_str());
        assert(step@ == submenus@[i as int]@);
        steps.push(step);
        proof {
            assert(steps@ =~= before.push(step));
            assert(texts(steps@) =~= texts(before).push(submenus@[i as int]@));
            assert(submenus@.take(i + 1) =~= submenus@.take(i as int).push(submenus@[i as int]));
            assert(texts(submenus@.take(i + 1)) =~= texts(submenus@.take(i as int)).push(submenus@[i as int]@));
            assert(texts(steps@) =~= seq![menu@] + texts(submenus@.take(i + 1)));
        }
        i = i + 1;
    }
    proof { assert(submenus@.take(submenus@.len() as int) =~= submenus@); }
    match item {
        Some(it) => steps.push(it.to_owned()),
        None => {},
    }
    assert(texts(steps@) =~= menu_steps(menu@, submenus@, item));
    let mut text = String::new();
    let mut separator = String::new();
    push_char(&mut separator, ' ');
    push_char(&mut separator, '\u{25b8}');
    push_char(&mut separator, ' ');
    assert(separator@ =~= menu_separator());
    push_joined(&mut text, &steps, separator.as_str());
    proof { reveal_strlit("menu selection"); }
    unsupported("menu selection", text.as_str(), dest);
}

/// What a footnote keeps on the page: its number in brackets where it has
/// one, else the text the parser handed over.
pub open spec fn footnote_text(index: Option<&str>, text: Seq<char>) -> Seq<char> {
    match index {
        Some(n) => seq!['['] + n@ + seq![']'],
        None => text,
    }
}

/// Appends a footnote. Its body is not reachable from the renderer, so a
/// numbered footnote keeps only its marker.
pub fn footnote(index: Option<&str>, text: &str, dest: &mut String)
    ensures
        final(dest)@ == old(dest)@ + unsupported_encoding("footnote"@, footnote_text(index, text@)),
{
    proof { reveal_strlit("footnote"); }
    match index {
        Some(n) => {
            let mut t = String::new();
            push_char(&mut t, '[');
            t.append(n);
            push_char(&mut t, ']');
            assert(t@ =~= footnote_text(index, text@));
            unsupported("footnote", t.as_str(), dest);
        },
        None => unsupported("footnote", text, dest),
    }
}

/// Whether the quote syntax `kind` asks for a presentation, and which.
pub open spec fn quote_style(kind: QuoteKind) -> Option<InlineStyle> {
    match kind {
        QuoteKind::Strong => Some(InlineStyle::Strong),
        QuoteKind::Emphasis => Some(InlineStyle::Emphasis),
        QuoteKind::Monospaced => Some(InlineStyle::Monospace),
        QuoteKind::Superscript => Some(InlineStyle::Superscript),
        QuoteKind::Subscript => Some(InlineStyle::Subscript),
        QuoteKind::Mark => Some(InlineStyle::Highlight),
        _ => None,
    }
}

/// A quote syntax that asks for a presentation writes the body unchanged
/// between an open marker that the decoder reads as exactly that presentation
/// (`*` strong, `_` emphasis, `` ` `` monospace, `^` superscript, `~`
/// subscript, `#` highlight) and the close marker. Curved quotes surround the
/// body with the opening and closing mark of their kind, and the remaining
/// kinds write the body alone.
pub proof fn lemma_quotes_mark_the_style_they_name(kind: QuoteKind, body: Seq<char>)
    ensures
        ({
            let q = quote_spec(kind, body);
            match quote_style(kind) {
                Some(style) => q.len() == body.len() + 2
                    && style_of_spec(q[0]) == Some(style)
                    && q.subrange(1, q.len() - 1) == body
                    && q.last() == SPAN_CLOSE,
                None => match kind {
                    QuoteKind::DoubleQuote => q.len() == body.len() + 2 && q[0] == '\u{201c}'
                        && q.subrange(1, q.len() - 1) == body && q.last() == '\u{201d}',
                    QuoteKind::SingleQuote => q.len() == body.len() + 2 && q[0] == '\u{2018}'
                        && q.subrange(1, q.len() - 1) == body && q.last() == '\u{2019}',
                    _ => q == body,
                },
            }
        }),
{
    let q = quote_spec(kind, body);
    match quote_style(kind) {
        Some(style) => {
            assert(q.subrange(1, q.len() - 1) =~= body);
        },
        None => {
            if kind == QuoteKind::DoubleQuote || kind == QuoteKind::SingleQuote {
                assert(q.subrange(1, q.len() - 1) =~= body);
            }
        },
    }
}

/// Each typographic replacement writes what Asciidoctor defines for it: the
/// copyright, registered and trade mark signs, an em dash (between thin spaces
/// where the source spaced it), the ellipsis, the typographic apostrophe, and
/// arrows that point the way the source's arrows point: `->` right, `<-` left,
/// `=>` and `<=` doubled.
pub proof fn lemma_replacements_write_their_characters(r: CharacterReplacement)
    ensures
        match r {
            CharacterReplacement::Copyright => replacement_spec(r) == seq!['\u{a9}'],
            CharacterReplacement::Registered => replacement_spec(r) == seq!['\u{ae}'],
            CharacterReplacement::Trademark => replacement_spec(r) == seq!['\u{2122}'],
            CharacterReplacement::EmDashSurroundedBySpaces => replacement_spec(r) == seq!['\u{2009}', '\u{2014}', '\u{2009}'],
            CharacterReplacement::EmDashWithoutSpace => replacement_spec(r) == seq!['\u{2014}'],
            CharacterReplacement::Ellipsis => replacement_spec(r) == seq!['\u{2026}'],
            CharacterReplacement::SingleRightArrow => replacement_spec(r) == seq!['\u{2192}'],
            CharacterReplacement::SingleLeftArrow => replacement_spec(r) == seq!['\u{2190}'],
            CharacterReplacement::DoubleRightArrow => replacement_spec(r) == seq!['\u{21d2}'],
            CharacterReplacement::DoubleLeftArrow => replacement_spec(r) == seq!['\u{21d0}'],
            CharacterReplacement::TypographicApostrophe => replacement_spec(r) == seq!['\u{2019}'],
            CharacterReplacement::CharacterReference(name) => replacement_spec(r) == resolved_reference(name@),
        },
{
}

/// The four arrow replacements write four different characters, so no arrow
/// is set pointing the other way or with the wrong weight.
pub proof fn lemma_arrows_are_told_apart()
    ensures
        replacement_spec(CharacterReplacement::SingleRightArrow) != replacement_spec(CharacterReplacement::SingleLeftArrow),
        replacement_spec(CharacterReplacement::DoubleRightArrow) != replacement_spec(CharacterReplacement::DoubleLeftArrow),
        replacement_spec(CharacterReplacement::SingleRightArrow) != replacement_spec(CharacterReplacement::DoubleRightArrow),
        replacement_spec(CharacterReplacement::SingleLeftArrow) != replacement_spec(CharacterReplacement::DoubleLeftArrow),
{
    assert(replacement_spec(CharacterReplacement::SingleRightArrow)[0] != replacement_spec(CharacterReplacement::SingleLeftArrow)[0]);
    assert(replacement_spec(CharacterReplacement::DoubleRightArrow)[0] != replacement_spec(CharacterReplacement::DoubleLeftArrow)[0]);
    assert(replacement_spec(CharacterReplacement::SingleRightArrow)[0] != replacement_spec(CharacterReplacement::DoubleRightArrow)[0]);
    assert(replacement_spec(CharacterReplacement::SingleLeftArrow)[0] != replacement_spec(CharacterReplacement::DoubleLeftArrow)[0]);
}

} // verus!

//! What the AsciiDoc front end decides before and around the upstream parser:
//! which documents are refused outright, and where in a source a position is.

use vstd::prelude::*;
use crate::document::HeadingLevel;
use crate::error::{DomainError, SourceLocation};
use crate::fmt::{hex_upper, zero_padded, push_code_point};
use crate::inline::{is_parser_sentinel, is_reserved_marker, parser_sentinel, reserved_marker};
use crate::text::{chars_of, char_is_whitespace, is_whitespace};

verus! {

/// The name of a block attribute that sets a list's first number.
pub const START_ATTRIBUTE: &'static str = "start";

/// The name of the block attribute a section declares its theme with.
pub const THEME_ATTRIBUTE: &'static str = "theme";

/// How a code point is named in a message: `U+` and at least four upper-case
/// hexadecimal digits.
pub open spec fn code_point_name(c: char) -> Seq<char> {
    seq!['U', '+'] + zero_padded(hex_upper(c as u32 as nat), 4)
}

/// How many line feeds `s` holds.
pub open spec fn newlines(s: Seq<char>) -> nat
    decreases s.len(),
{
    if s.len() == 0 {
        0
    } else {
        newlines(s.drop_last()) + if s.last() == '\n' { 1nat } else { 0nat }
    }
}

/// How many characters `s` ends with after its last line feed.
pub open spec fn since_newline(s: Seq<char>) -> nat
    decreases s.len(),
{
    if s.len() == 0 || s.last() == '\n' {
        0
    } else {
        since_newline(s.drop_last()) + 1
    }
}

/// The 1-based line and column of the character at index `k` of `source`,
/// each reported as 1 where it would not fit.
pub open spec fn location_at(source: Seq<char>, k: int) -> SourceLocation {
    let before = source.take(k);
    let line = newlines(before) + 1;
    let column = since_newline(before) + 1;
    SourceLocation {
        line: if line <= u32::MAX { line as u32 } else { 1 },
        column: if column <= u32::MAX { column as u32 } else { 1 },
    }
}

/// The position of the character at index `offset` of `source`.
pub fn location_of_offset(source: &Vec<char>, offset: usize) -> (r: SourceLocation)
    requires
        offset <= source.len(),
    ensures
        r == location_at(source@, offset as int),
{
    let mut lines: u64 = 0;
    let mut column: u64 = 0;
    let mut i: usize = 0;
    while i < offset
        invariant
            i <= offset <= source.len(),
            lines == newlines(source@.take(i as int)),
            column == since_newline(source@.take(i as int)),
            lines <= i,
            column <= i,
        decreases offset - i,
    {
        proof {
            assert(source@.take(i + 1).drop_last() =~= source@.take(i as int));
        }
        if source[i] == '\n' {
            lines = lines + 1;
            column = 0;
        } else {
            column = column + 1;
        }
        i = i + 1;
    }
    let line: u32 = if lines < u32::MAX as u64 { (lines + 1) as u32 } else { 1 };
    let col: u32 = if column < u32::MAX as u64 { (column + 1) as u32 } else { 1 };
    SourceLocation { line, column: col }
}

/// Whether `c` is one the upstream parser cannot be trusted to finish reading:
/// a vertical tab or a form feed.
pub open spec fn hangs_parser(c: char) -> bool {
    c == '\u{b}' || c == '\u{c}'
}

/// Whether a carriage return at `k` is followed by white space that is not a
/// line feed, a sequence the upstream parser does not finish reading.
pub open spec fn bad_carriage_return(s: Seq<char>, k: int) -> bool {
    0 <= k && k + 1 < s.len() && s[k] == '\r' && is_whitespace(s[k + 1]) && s[k + 1] != '\n'
}

/// Whether `c` is reserved, by this renderer as a marker or by the parser as
/// a placeholder.
pub open spec fn forges_structure(c: char) -> bool {
    reserved_marker(c) || parser_sentinel(c)
}

/// The first index of `s` at or after `from` holding a hanging character.
pub open spec fn first_hang(s: Seq<char>, from: int) -> Option<int>
    decreases s.len() - from,
{
    if from < 0 || from >= s.len() {
        None
    } else if hangs_parser(s[from]) {
        Some(from)
    } else {
        first_hang(s, from + 1)
    }
}

/// The first index of `s` at or after `from` holding a bad carriage return.
pub open spec fn first_bad_carriage_return(s: Seq<char>, from: int) -> Option<int>
    decreases s.len() - from,
{
    if from < 0 || from >= s.len() {
        None
    } else if bad_carriage_return(s, from) {
        Some(from)
    } else {
        first_bad_carriage_return(s, from + 1)
    }
}

/// The first index of `s` at or after `from` holding a reserved character.
pub open spec fn first_reserved(s: Seq<char>, from: int) -> Option<int>
    decreases s.len() - from,
{
    if from < 0 || from >= s.len() {
        None
    } else if forges_structure(s[from]) {
        Some(from)
    } else {
        first_reserved(s, from + 1)
    }
}

/// Where a refusal is placed and why it is made.
pub type Refusal = (SourceLocation, Seq<char>);

/// The refusal of a hanging character.
pub open spec fn hang_reason(c: char) -> Seq<char> {
    "the document contains "@ + code_point_name(c)
        + "; asciidoc-parser 0.29.19 does not reliably terminate on a document containing that character, so it is refused rather than rendered"@
}

/// The refusal of a carriage return followed by `next`.
pub open spec fn carriage_return_reason(next: char) -> Seq<char> {
    "a carriage return is followed by "@ + code_point_name(next)
        + " rather than by a line feed; asciidoc-parser 0.29.19 does not terminate on that sequence, so it is refused rather than rendered"@
}

/// The refusal of a reserved character.
pub open spec fn reserved_reason(c: char) -> Seq<char> {
    if reserved_marker(c) {
        "the document contains "@ + code_point_name(c)
            + ", a Unicode noncharacter reserved by this renderer for marking inline structure; such a character must not appear in interchanged text, and accepting it would let the document forge formatting it did not write"@
    } else {
        "the document contains "@ + code_point_name(c)
            + ", which asciidoc-parser 0.29.19 reserves for its own cross-reference and footnote placeholders; a document containing one makes the parser misread its own output, so it is refused rather than rendered"@
    }
}

/// What the guards decide about `source`, in the order they run: a hanging
/// character first, then a bad carriage return, then a reserved character.
pub open spec fn source_verdict(s: Seq<char>) -> Option<Refusal> {
    match first_hang(s, 0) {
        Some(k) => Some((location_at(s, k), hang_reason(s[k]))),
        None => match first_bad_carriage_return(s, 0) {
            Some(k) => Some((location_at(s, k), carriage_return_reason(s[k + 1]))),
            None => match first_reserved(s, 0) {
                Some(k) => Some((location_at(s, k), reserved_reason(s[k]))),
                None => None,
            },
        },
    }
}

proof fn lemma_first_bounds(s: Seq<char>, from: int)
    requires
        from >= 0,
    ensures
        first_hang(s, from) matches Some(k) ==> from <= k < s.len() && hangs_parser(s[k]),
        first_hang(s, from) is None ==> forall|k: int| from <= k < s.len() ==> !hangs_parser(#[trigger] s[k]),
        first_bad_carriage_return(s, from) matches Some(k) ==> from <= k && k + 1 < s.len() && bad_carriage_return(s, k),
        first_bad_carriage_return(s, from) is None ==> forall|k: int| from <= k < s.len() ==> !#[trigger] bad_carriage_return(s, k),
        first_reserved(s, from) matches Some(k) ==> from <= k < s.len() && forges_structure(s[k]),
        first_reserved(s, from) is None ==> forall|k: int| from <= k < s.len() ==> !forges_structure(#[trigger] s[k]),
    decreases s.len() - from,
{
    if from < s.len() {
        lemma_first_bounds(s, from + 1);
    }
}

/// Finds the first index at or after `from` holding a hanging character.
fn find_hang(s: &Vec<char>) -> (r: Option<usize>)
    ensures
        match first_hang(s@, 0) {
            Some(k) => r == Some(k as usize),
            None => r is None,
        },
{
    let mut i: usize = 0;
    while i < s.len()
        invariant
            i <= s.len(),
            first_hang(s@, i as int) == first_hang(s@, 0),
        decreases s.len() - i,
    {
        if s[i] == '\u{b}' || s[i] == '\u{c}' {
            return Some(i);
        }
        i = i + 1;
    }
    None
}

fn find_bad_carriage_return(s: &Vec<char>) -> (r: Option<usize>)
    ensures
        match first_bad_carriage_return(s@, 0) {
            Some(k) => r == Some(k as usize) && k + 1 < s@.len(),
            None => r is None,
        },
{
    let mut i: usize = 0;
    while i < s.len()
        invariant
            i <= s.len(),
            first_bad_carriage_return(s@, i as int) == first_bad_carriage_return(s@, 0),
        decreases s.len() - i,
    {
        if s[i] == '\r' && i + 1 < s.len() && char_is_whitespace(s[i + 1]) && s[i + 1] != '\n' {
            return Some(i);
        }
        i = i + 1;
    }
    None
}

fn find_reserved(s: &Vec<char>) -> (r: Option<usize>)
    ensures
        match first_reserved(s@, 0) {
            Some(k) => r == Some(k as usize),
            None => r is None,
        },
{
    let mut i: usize = 0;
    while i < s.len()
        invariant
            i <= s.len(),
            first_reserved(s@, i as int) == first_reserved(s@, 0),
        decreases s.len() - i,
    {
        if is_reserved_marker(s[i]) || is_parser_sentinel(s[i]) {
            return Some(i);
        }
        i = i + 1;
    }
    None
}

/// Parses AsciiDoc with the upstream parser, after refusing the documents it
/// cannot be trusted with.
#[derive(Debug, Clone, Copy, Default)]
pub struct AsciidocParser {}

impl AsciidocParser {
    /// Creates a parser.
    pub fn new() -> (r: AsciidocParser)
        ensures
            r == (AsciidocParser {}),
    {
        AsciidocParser {}
    }

    /// Refuses a document the upstream parser would not finish reading, or
    /// one that holds a character reserved for structure; the refusal names
    /// the document and the position of the first offending character.
    pub fn check_source(&self, source: &str, origin: &str) -> (r: Result<(), DomainError>)
        ensures
            match source_verdict(source@) {
                None => r is Ok,
                Some((location, reason)) => r matches Err(DomainError::ParseFailed { path, location: l, reason: m })
                    && path@ == origin@ && l == location && m@ == reason,
            },
    {
        let cs = chars_of(source);
        proof {
            lemma_first_bounds(cs@, 0);
        }
        match find_hang(&cs) {
            Some(k) => {
                let mut reason = String::from_str("the document contains ");
                push_code_point(&mut reason, cs[k]);
                reason.append("; asciidoc-parser 0.29.19 does not reliably terminate on a document containing that character, so it is refused rather than rendered");
                return Err(DomainError::ParseFailed {
                    path: origin.to_owned(),
                    location: location_of_offset(&cs, k),
                    reason,
                });
            },
            None => {},
        }
        match find_bad_carriage_return(&cs) {
            Some(k) => {
                let mut reason = String::from_str("a carriage return is followed by ");
                push_code_point(&mut reason, cs[k + 1]);
                reason.append(" rather than by a line feed; asciidoc-parser 0.29.19 does not terminate on that sequence, so it is refused rather than rendered");
                return Err(DomainError::ParseFailed {
                    path: origin.to_owned(),
                    location: location_of_offset(&cs, k),
                    reason,
                });
            },
            None => {},
        }
        match find_reserved(&cs) {
            Some(k) => {
                let c = cs[k];
                let mut reason = String::from_str("the document contains ");
                push_code_point(&mut reason, c);
                if is_reserved_marker(c) {
                    reason.append(", a Unicode noncharacter reserved by this renderer for marking inline structure; such a character must not appear in interchanged text, and accepting it would let the document forge formatting it did not write");
                } else {
                    reason.append(", which asciidoc-parser 0.29.19 reserves for its own cross-reference and footnote placeholders; a document containing one makes the parser misread its own output, so it is refused rather than rendered");
                }
                Err(DomainError::ParseFailed {
                    path: origin.to_owned(),
                    location: location_of_offset(&cs, k),
                    reason,
                })
            },
            None => Ok(()),
        }
    }
}

/// Why a document the upstream parser panicked on is refused.
pub open spec fn panic_reason() -> Seq<char> {
    "asciidoc-parser 0.29.19 panicked while parsing this document. Two causes are known: an inline image: or icon: macro written with no target, as in image:[alt], and a block attribute list combining % shorthands. The document is refused rather than rendered, because a panic cannot be recovered from far enough to trust what was parsed"@
}

impl AsciidocParser {
    /// The refusal of a document the upstream parser panicked on. No rule
    /// about the source text can tell such documents apart beforehand, so
    /// the refusal is placed at the start of the document.
    pub fn panic_refusal(&self, origin: &str) -> (r: DomainError)
        ensures
            r matches DomainError::ParseFailed { path, location, reason }
                && path@ == origin@ && location.line == 1 && location.column == 1 && reason@ == panic_reason(),
    {
        let reason = String::from_str("asciidoc-parser 0.29.19 panicked while parsing this document. Two causes are known: an inline image: or icon: macro written with no target, as in image:[alt], and a block attribute list combining % shorthands. The document is refused rather than rendered, because a panic cannot be recovered from far enough to trust what was parsed");
        proof { reveal_strlit("asciidoc-parser 0.29.19 panicked while parsing this document. Two causes are known: an inline image: or icon: macro written with no target, as in image:[alt], and a block attribute list combining % shorthands. The document is refused rather than rendered, because a panic cannot be recovered from far enough to trust what was parsed"); }
        DomainError::ParseFailed { path: origin.to_owned(), location: SourceLocation::start(), reason }
    }
}

/// A refused document holds what it was refused for; an accepted one holds no
/// hanging character, no bad carriage return and no reserved character.
pub proof fn lemma_accepted_sources_are_clean(s: Seq<char>)
    ensures
        source_verdict(s) is None ==> forall|k: int| 0 <= k < s.len() ==> {
            &&& !hangs_parser(#[trigger] s[k])
            &&& !bad_carriage_return(s, k)
            &&& !forges_structure(s[k])
        },
{
    lemma_first_bounds(s, 0);
}

/// Brings a heading level into the range the model allows, keeping a
/// too-deep heading visible as the deepest heading rather than dropping it.
pub fn clamp_level(level: usize) -> (r: HeadingLevel)
    ensures
        r.value() == (if level < 1 { 1 } else if level > 6 { 6 } else { level }),
{
    let clamped: u8 = if level < 1 { 1 } else if level > 6 { 6 } else { level as u8 };
    match HeadingLevel::new(clamped) {
        Ok(h) => h,
        Err(_) => {
            proof { assert(false); }
            HeadingLevel::new(1).unwrap()
        },
    }
}

} // verus!

//! The value objects text is set with: font family names, language tags, and
//! the weight given to avoiding stranded lines.

use vstd::prelude::*;
use crate::text::{trimmed, trim, string_of};
use crate::theme::first_refused;

verus! {

/// The family monospaced content is set in when a theme names none.
pub const DEFAULT_MONOSPACE_FAMILY: &'static str = "DejaVu Sans Mono";

/// The longest family name accepted.
pub const FONT_FAMILY_MAX_LENGTH: usize = 64;

/// The longest language tag accepted.
pub const LANGUAGE_TAG_MAX_LENGTH: usize = 12;

/// Whether `c` may appear in a family name: an ASCII letter or digit, a space
/// or a hyphen.
pub open spec fn family_char(c: char) -> bool {
    ('a' <= c && c <= 'z') || ('A' <= c && c <= 'Z') || ('0' <= c && c <= '9') || c == ' ' || c == '-'
}

/// Whether `c` may appear in a language tag: an ASCII letter or a hyphen.
pub open spec fn tag_char(c: char) -> bool {
    ('a' <= c && c <= 'z') || ('A' <= c && c <= 'Z') || c == '-'
}

/// `c` in lower case, if it is an upper-case ASCII letter.
pub open spec fn ascii_lower(c: char) -> char {
    if 'A' <= c && c <= 'Z' {
        ((c as u32) + 32) as char
    } else {
        c
    }
}

/// The name of a font family, restricted to a closed alphabet.
#[derive(Debug, Clone, PartialEq, Eq, PartialOrd, Ord, Hash)]
pub struct FontFamily {
    name: String,
}

/// Why a proposed font family name is not usable.
#[derive(Debug, Clone, Copy, PartialEq, Eq)]
pub enum InvalidFontFamily {
    /// The name was empty, or contained only white space.
    Empty,
    /// The name exceeded the maximum length.
    TooLong {
        /// How many characters the name had.
        length: usize,
    },
    /// The name contained a character outside the permitted alphabet.
    ForbiddenCharacter {
        /// The first offending character.
        character: char,
    },
}

/// What validating a family name decides: the trimmed name, or why not.
pub open spec fn family_verdict(name: Seq<char>) -> Result<Seq<char>, InvalidFontFamily> {
    let t = trim(name);
    if t.len() == 0 {
        Err(InvalidFontFamily::Empty)
    } else if t.len() > FONT_FAMILY_MAX_LENGTH {
        Err(InvalidFontFamily::TooLong { length: t.len() as usize })
    } else {
        match first_refused(t, |c: char| family_char(c)) {
            Some(character) => Err(InvalidFontFamily::ForbiddenCharacter { character }),
            None => Ok(t),
        }
    }
}

fn find_refused_family_char(chars: &Vec<char>, from: usize) -> (r: Option<char>)
    requires
        from <= chars.len(),
    ensures
        r == first_refused(chars@.subrange(from as int, chars.len() as int), |c: char| family_char(c)),
    decreases chars.len() - from,
{
    let ghost rest = chars@.subrange(from as int, chars.len() as int);
    if from == chars.len() {
        return None;
    }
    let c = chars[from];
    if !(('a' <= c && c <= 'z') || ('A' <= c && c <= 'Z') || ('0' <= c && c <= '9') || c == ' ' || c == '-') {
        return Some(c);
    }
    assert(rest.drop_first() =~= chars@.subrange(from + 1, chars.len() as int));
    find_refused_family_char(chars, from + 1)
}

impl FontFamily {
    /// The longest family name accepted.
    pub const MAX_LENGTH: usize = 64;

    /// The name, in specifications.
    pub closed spec fn name_spec(&self) -> Seq<char> {
        self.name@
    }

    /// Creates a font family name: surrounding white space is trimmed, and what
    /// is left must be non-empty, at most 64 characters, and made of ASCII
    /// letters, digits, spaces and hyphens.
    pub fn new(name: &str) -> (r: Result<FontFamily, InvalidFontFamily>)
        ensures
            family_verdict(name@) matches Ok(t) ==> (r matches Ok(f) && f.name_spec() == t),
            family_verdict(name@) matches Err(e) ==> r == Err::<FontFamily, InvalidFontFamily>(e),
    {
        let t = trimmed(name);
        if t.len() == 0 {
            return Err(InvalidFontFamily::Empty);
        }
        if t.len() > 64 {
            return Err(InvalidFontFamily::TooLong { length: t.len() });
        }
        assert(t@.subrange(0, t.len() as int) =~= t@);
        match find_refused_family_char(&t, 0) {
            Some(character) => Err(InvalidFontFamily::ForbiddenCharacter { character }),
            None => Ok(FontFamily { name: string_of(&t) }),
        }
    }

    /// The family name.
    pub fn as_str(&self) -> (r: &str)
        ensures
            r@ == self.name_spec(),
    {
        self.name.as_str()
    }
}

/// The message for a refused family name.
pub open spec fn font_family_message(e: InvalidFontFamily) -> Seq<char> {
    match e {
        InvalidFontFamily::Empty => "font family must not be empty"@,
        InvalidFontFamily::TooLong { length } => "font family must be at most 64 characters, got "@
            + crate::fmt::decimal(length as nat),
        InvalidFontFamily::ForbiddenCharacter { character } =>
            "font family must contain only letters, digits, spaces and hyphens, but contains "@
                + crate::fmt::debug_char(character),
    }
}

impl InvalidFontFamily {
    /// The message describing the refusal.
    pub fn message(&self) -> (r: String)
        ensures
            r@ == font_family_message(*self),
    {
        match self {
            InvalidFontFamily::Empty => String::from_str("font family must not be empty"),
            InvalidFontFamily::TooLong { length } => {
                let mut out = String::from_str("font family must be at most 64 characters, got ");
                crate::fmt::push_decimal(&mut out, *length as u64);
                out
            },
            InvalidFontFamily::ForbiddenCharacter { character } => {
                let mut out = String::from_str(
                    "font family must contain only letters, digits, spaces and hyphens, but contains ",
                );
                crate::fmt::push_debug_char(&mut out, *character);
                out
            },
        }
    }
}

/// A language tag, naming the language text is written in.
#[derive(Debug, Clone, PartialEq, Eq, PartialOrd, Ord, Hash)]
pub struct LanguageTag {
    tag: String,
}

/// Why a proposed language tag is not usable.
#[derive(Debug, Clone, Copy, PartialEq, Eq)]
pub enum InvalidLanguageTag {
    /// The tag was empty, or contained only white space.
    Empty,
    /// The tag exceeded the maximum length.
    TooLong {
        /// How many characters the tag had.
        length: usize,
    },
    /// The tag contained a character outside the permitted alphabet.
    ForbiddenCharacter {
        /// The first offending character.
        character: char,
    },
}

/// What validating a language tag decides: the trimmed, lower-cased tag, or
/// why not.
pub open spec fn tag_verdict(tag: Seq<char>) -> Result<Seq<char>, InvalidLanguageTag> {
    let t = trim(tag);
    if t.len() == 0 {
        Err(InvalidLanguageTag::Empty)
    } else if t.len() > LANGUAGE_TAG_MAX_LENGTH {
        Err(InvalidLanguageTag::TooLong { length: t.len() as usize })
    } else {
        match first_refused(t, |c: char| tag_char(c)) {
            Some(character) => Err(InvalidLanguageTag::ForbiddenCharacter { character }),
            None => Ok(t.map_values(|c: char| ascii_lower(c))),
        }
    }
}

fn find_refused_tag_char(chars: &Vec<char>, from: usize) -> (r: Option<char>)
    requires
        from <= chars.len(),
    ensures
        r == first_refused(chars@.subrange(from as int, chars.len() as int), |c: char| tag_char(c)),
    decreases chars.len() - from,
{
    let ghost rest = chars@.subrange(from as int, chars.len() as int);
    if from == chars.len() {
        return None;
    }
    let c = chars[from];
    if !(('a' <= c && c <= 'z') || ('A' <= c && c <= 'Z') || c == '-') {
        return Some(c);
    }
    assert(rest.drop_first() =~= chars@.subrange(from + 1, chars.len() as int));
    find_refused_tag_char(chars, from + 1)
}

impl LanguageTag {
    /// The longest tag accepted.
    pub const MAX_LENGTH: usize = 12;

    /// The tag, in specifications.
    pub closed spec fn tag_spec(&self) -> Seq<char> {
        self.tag@
    }

    /// Creates a language tag: surrounding white space is trimmed, and what is
    /// left must be non-empty, at most 12 characters, and made of ASCII letters
    /// and hyphens. The tag is kept in lower case.
    pub fn new(tag: &str) -> (r: Result<LanguageTag, InvalidLanguageTag>)
        ensures
            tag_verdict(tag@) matches Ok(t) ==> (r matches Ok(l) && l.tag_spec() == t),
            tag_verdict(tag@) matches Err(e) ==> r == Err::<LanguageTag, InvalidLanguageTag>(e),
    {
        let t = trimmed(tag);
        if t.len() == 0 {
            return Err(InvalidLanguageTag::Empty);
        }
        if t.len() > 12 {
            return Err(InvalidLanguageTag::TooLong { length: t.len() });
        }
        assert(t@.subrange(0, t.len() as int) =~= t@);
        match find_refused_tag_char(&t, 0) {
            Some(character) => Err(InvalidLanguageTag::ForbiddenCharacter { character }),
            None => {
                let mut lower: Vec<char> = Vec::new();
                let mut i: usize = 0;
                while i < t.len()
                    invariant
                        i <= t.len(),
                        lower@ == t@.subrange(0, i as int).map_values(|c: char| ascii_lower(c)),
                    decreases t.len() - i,
                {
                    let c = t[i];
                    let l = if 'A' <= c && c <= 'Z' { ((c as u32) + 32) as u8 as char } else { c };
                    assert(l == ascii_lower(c));
                    lower.push(l);
                    i = i + 1;
                    assert(lower@ =~= t@.subrange(0, i as int).map_values(|c: char| ascii_lower(c)));
                }
                Ok(LanguageTag { tag: string_of(&lower) })
            },
        }
    }

    /// The tag.
    pub fn as_str(&self) -> (r: &str)
        ensures
            r@ == self.tag_spec(),
    {
        self.tag.as_str()
    }
}

/// The message for a refused language tag.
pub open spec fn language_tag_message(e: InvalidLanguageTag) -> Seq<char> {
    match e {
        InvalidLanguageTag::Empty => "language tag must not be empty"@,
        InvalidLanguageTag::TooLong { length } => "language tag must be at most 12 characters, got "@
            + crate::fmt::decimal(length as nat),
        InvalidLanguageTag::ForbiddenCharacter { character } =>
            "language tag must contain only letters and hyphens, but contains "@
                + crate::fmt::debug_char(character),
    }
}

impl InvalidLanguageTag {
    /// The message describing the refusal.
    pub fn message(&self) -> (r: String)
        ensures
            r@ == language_tag_message(*self),
    {
        match self {
            InvalidLanguageTag::Empty => String::from_str("language tag must not be empty"),
            InvalidLanguageTag::TooLong { length } => {
                let mut out = String::from_str("language tag must be at most 12 characters, got ");
                crate::fmt::push_decimal(&mut out, *length as u64);
                out
            },
            InvalidLanguageTag::ForbiddenCharacter { character } => {
                let mut out = String::from_str(
                    "language tag must contain only letters and hyphens, but contains ",
                );
                crate::fmt::push_debug_char(&mut out, *character);
                out
            },
        }
    }
}

/// How strongly the layout should avoid stranding a single line, as a
/// percentage from 0 to 1000.
#[derive(Debug, Clone, Copy, PartialEq, Eq, PartialOrd, Ord, Hash)]
pub struct Avoidance {
    percent: u32,
}

/// A proposed avoidance weight outside the permitted range.
#[derive(Debug, Clone, Copy, PartialEq, Eq)]
pub struct InvalidAvoidance {
    /// The percentage that was proposed.
    pub percent: u32,
}

impl Avoidance {
    /// The largest value accepted.
    pub const MAX_PERCENT: u32 = 1000;

    /// The weight, in specifications.
    pub closed spec fn percent_spec(&self) -> u32 {
        self.percent
    }

    /// Creates an avoidance weight; more than 1000 percent is refused.
    pub fn from_percent(percent: u32) -> (r: Result<Avoidance, InvalidAvoidance>)
        ensures
            percent <= 1000 ==> (r matches Ok(a) && a.percent_spec() == percent),
            percent > 1000 ==> r == Err::<Avoidance, InvalidAvoidance>(InvalidAvoidance { percent }),
    {
        if percent > 1000 {
            Err(InvalidAvoidance { percent })
        } else {
            Ok(Avoidance { percent })
        }
    }

    /// The default: avoid stranding a line, weighed normally (100 percent).
    pub fn default_weight() -> (r: Avoidance)
        ensures
            r.percent_spec() == 100,
    {
        Avoidance { percent: 100 }
    }

    /// The weight as a percentage.
    pub fn percent(self) -> (r: u32)
        ensures
            r == self.percent_spec(),
    {
        self.percent
    }
}

impl Default for Avoidance {
    fn default() -> (r: Avoidance)
        ensures
            r.percent_spec() == 100,
    {
        Avoidance::default_weight()
    }
}

impl InvalidAvoidance {
    /// The message describing the refusal.
    pub fn message(&self) -> (r: String)
        ensures
            r@ == "widow and orphan avoidance must be at most 1000%, got "@
                + crate::fmt::decimal(self.percent as nat) + "%"@,
    {
        let mut out = String::from_str("widow and orphan avoidance must be at most 1000%, got ");
        crate::fmt::push_decimal(&mut out, self.percent as u64);
        out.append("%");
        out
    }
}

} // verus!

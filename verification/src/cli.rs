//! What the command line accepts, and reading the date it may be given.

use vstd::prelude::*;
use crate::fmt::{debug_quoted, push_debug_quoted};
use crate::ports::{invalid_date_message, Date};
use crate::render::RenderRequestDto;
use crate::text::{chars_of, parse_unsigned, parse_unsigned_chars, string_of};

verus! {

/// The command line: two paths, an optional project root and an optional
/// date.
#[derive(Debug, Clone, PartialEq, Eq)]
pub struct Cli {
    /// The AsciiDoc file to render.
    pub input: String,
    /// Where to write the PDF.
    pub output: String,
    /// The directory every file must sit inside; the input's directory when
    /// absent.
    pub project_root: Option<String>,
    /// The date the document is rendered as of, `YYYY-MM-DD`; today when
    /// absent.
    pub date: Option<String>,
}

impl Cli {
    /// The request the command line describes. Deriving a missing root is not
    /// the command line's decision, so an absent root stays absent.
    pub fn to_request(&self) -> (r: RenderRequestDto)
        ensures
            r.input@ == self.input@,
            r.output@ == self.output@,
            r.project_root is Some == self.project_root is Some,
            r.project_root matches Some(root) ==> root@ == self.project_root->0@,
    {
        RenderRequestDto {
            input: self.input.clone(),
            output: self.output.clone(),
            project_root: match &self.project_root {
                Some(root) => Some(root.clone()),
                None => None,
            },
        }
    }
}

/// The pieces of `s` between hyphens, with `piece` the part of the current
/// piece read before it.
pub open spec fn split_from(s: Seq<char>, piece: Seq<char>) -> Seq<Seq<char>>
    decreases s.len(),
{
    if s.len() == 0 {
        seq![piece]
    } else if s[0] == '-' {
        seq![piece] + split_from(s.drop_first(), Seq::empty())
    } else {
        split_from(s.drop_first(), piece.push(s[0]))
    }
}

/// The pieces of `s` between hyphens.
pub open spec fn split_dashes(s: Seq<char>) -> Seq<Seq<char>> {
    split_from(s, Seq::empty())
}

/// What reading `text` as a date gives: the date, or the message explaining
/// which part of it is wrong.
pub open spec fn date_verdict(text: Seq<char>) -> Result<Date, Seq<char>> {
    let parts = split_dashes(text);
    if parts.len() != 3 {
        Err("--date must look like YYYY-MM-DD, got "@ + debug_quoted(text))
    } else {
        match parse_unsigned(parts[0], 2147483647) {
            None => Err("--date has an unreadable year: "@ + debug_quoted(parts[0])),
            Some(year) => match parse_unsigned(parts[1], 255) {
                None => Err("--date has an unreadable month: "@ + debug_quoted(parts[1])),
                Some(month) => match parse_unsigned(parts[2], 255) {
                    None => Err("--date has an unreadable day: "@ + debug_quoted(parts[2])),
                    Some(day) => if !(1 <= month <= 12) {
                        Err("--date is not a date: "@ + invalid_date_message(
                            crate::ports::InvalidDate::Month { month: month as u8 },
                        ))
                    } else if !(1 <= day <= 31) {
                        Err("--date is not a date: "@ + invalid_date_message(
                            crate::ports::InvalidDate::Day { day: day as u8 },
                        ))
                    } else {
                        Ok(Date { year: year as i32, month: month as u8, day: day as u8 })
                    },
                },
            },
        }
    }
}

spec fn pieces_view(v: Seq<Vec<char>>) -> Seq<Seq<char>> {
    v.map_values(|p: Vec<char>| p@)
}

/// The pieces of `text` between hyphens.
fn split_on_dashes(text: &Vec<char>) -> (r: Vec<Vec<char>>)
    ensures
        pieces_view(r@) == split_dashes(text@),
{
    let mut out: Vec<Vec<char>> = Vec::new();
    let mut piece: Vec<char> = Vec::new();
    let mut i: usize = 0;
    proof {
        assert(text@.skip(0) =~= text@);
        assert(pieces_view(out@) =~= Seq::<Seq<char>>::empty());
    }
    while i < text.len()
        invariant
            i <= text.len(),
            pieces_view(out@) + split_from(text@.skip(i as int), piece@) == split_dashes(text@),
        decreases text.len() - i,
    {
        let c = text[i];
        proof {
            assert(text@.skip(i as int)[0] == c);
            assert(text@.skip(i as int).drop_first() =~= text@.skip(i + 1));
        }
        if c == '-' {
            let ghost before = pieces_view(out@);
            let ghost pv = piece@;
            out.push(piece);
            piece = Vec::new();
            proof {
                assert(pieces_view(out@) =~= before.push(pv));
                assert(before + split_from(text@.skip(i as int), pv) =~= pieces_view(out@)
                    + split_from(text@.skip(i + 1), Seq::empty()));
            }
        } else {
            piece.push(c);
        }
        i = i + 1;
    }
    proof {
        assert(text@.skip(i as int) =~= Seq::<char>::empty());
    }
    let ghost before = pieces_view(out@);
    let ghost pv = piece@;
    out.push(piece);
    proof {
        assert(pieces_view(out@) =~= before.push(pv));
    }
    out
}

/// Appends `chars` in double quotes, escaped for a debug rendering.
fn push_quoted_chars(out: &mut String, chars: &Vec<char>)
    ensures
        final(out)@ == old(out)@ + debug_quoted(chars@),
{
    let s = string_of(chars);
    push_debug_quoted(out, s.as_str());
}

/// Reads the `--date` argument: exactly three hyphen-separated numbers, a
/// year, a month and a day, forming a date.
pub fn parse_date(text: &str) -> (r: Result<Date, String>)
    ensures
        match date_verdict(text@) {
            Ok(d) => r == Ok::<Date, String>(d),
            Err(m) => r matches Err(e) && e@ == m,
        },
{
    let cs = chars_of(text);
    let parts = split_on_dashes(&cs);
    if parts.len() != 3 {
        let mut message = String::from_str("--date must look like YYYY-MM-DD, got ");
        push_debug_quoted(&mut message, text);
        return Err(message);
    }
    proof {
        assert(pieces_view(parts@)[0] == parts@[0]@);
        assert(pieces_view(parts@)[1] == parts@[1]@);
        assert(pieces_view(parts@)[2] == parts@[2]@);
    }
    let year = match parse_unsigned_chars(&parts[0], 2147483647) {
        Some(year) => year,
        None => {
            let mut message = String::from_str("--date has an unreadable year: ");
            push_quoted_chars(&mut message, &parts[0]);
            return Err(message);
        },
    };
    let month = match parse_unsigned_chars(&parts[1], 255) {
        Some(month) => month,
        None => {
            let mut message = String::from_str("--date has an unreadable month: ");
            push_quoted_chars(&mut message, &parts[1]);
            return Err(message);
        },
    };
    let day = match parse_unsigned_chars(&parts[2], 255) {
        Some(day) => day,
        None => {
            let mut message = String::from_str("--date has an unreadable day: ");
            push_quoted_chars(&mut message, &parts[2]);
            return Err(message);
        },
    };
    match Date::new(year as i32, month as u8, day as u8) {
        Ok(date) => Ok(date),
        Err(error) => {
            let mut message = String::from_str("--date is not a date: ");
            let reason = error.message();
            message.append(reason.as_str());
            Err(message)
        },
    }
}

} // verus!

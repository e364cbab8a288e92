//! How a block is set, when the source asks for something other than the
//! default. Every type here is a validated, immutable value.

use vstd::prelude::*;
use crate::text::{str_eq, trimmed, parse_unsigned_chars, parse_unsigned, trim};

verus! {

/// The role that marks a paragraph as the document's opening passage.
pub const LEAD_ROLE: &'static str = "lead";

/// How a paragraph's lines sit on the measure.
#[derive(Debug, Clone, Copy, PartialEq, Eq, Hash)]
pub enum Alignment {
    /// Flush left, ragged right.
    Left,
    /// Centred, ragged on both sides.
    Center,
    /// Flush right, ragged left.
    Right,
    /// Flush on both sides, spaced to fit.
    Justify,
}

/// The alignment a role names, if it names one.
pub open spec fn alignment_for_role(name: Seq<char>) -> Option<Alignment> {
    if name == "text-left"@ {
        Some(Alignment::Left)
    } else if name == "text-center"@ {
        Some(Alignment::Center)
    } else if name == "text-right"@ {
        Some(Alignment::Right)
    } else if name == "text-justify"@ {
        Some(Alignment::Justify)
    } else {
        None
    }
}

impl Alignment {
    /// The alignment the role `name` asks for, if it names one.
    pub fn from_role(name: &str) -> (r: Option<Alignment>)
        ensures
            r == alignment_for_role(name@),
    {
        proof {
            reveal_strlit("text-left");
            reveal_strlit("text-center");
            reveal_strlit("text-right");
            reveal_strlit("text-justify");
        }
        if str_eq(name, "text-left") {
            Some(Alignment::Left)
        } else if str_eq(name, "text-center") {
            Some(Alignment::Center)
        } else if str_eq(name, "text-right") {
            Some(Alignment::Right)
        } else if str_eq(name, "text-justify") {
            Some(Alignment::Justify)
        } else {
            None
        }
    }
}

/// What a paragraph's attribute list asked for. The default is *nothing
/// asked for*.
#[derive(Debug, Clone, Copy, PartialEq, Eq, Hash, Default)]
pub struct ParagraphPresentation {
    /// The declared alignment, if any.
    pub alignment: Option<Alignment>,
    /// Whether the paragraph is a lead paragraph.
    pub lead: bool,
}

impl ParagraphPresentation {
    /// A paragraph that asked for nothing, in specifications.
    pub open spec fn body_spec() -> ParagraphPresentation {
        ParagraphPresentation { alignment: None, lead: false }
    }

    /// A paragraph that asked for nothing.
    pub fn body() -> (r: ParagraphPresentation)
        ensures
            r == ParagraphPresentation::body_spec(),
    {
        ParagraphPresentation { alignment: None, lead: false }
    }

    /// Declares how the paragraph's lines sit on the measure.
    pub fn with_alignment(self, alignment: Alignment) -> (r: ParagraphPresentation)
        ensures
            r == (ParagraphPresentation { alignment: Some(alignment), lead: self.lead }),
    {
        ParagraphPresentation { alignment: Some(alignment), lead: self.lead }
    }

    /// Marks the paragraph as a lead paragraph.
    pub fn as_lead(self) -> (r: ParagraphPresentation)
        ensures
            r == (ParagraphPresentation { alignment: self.alignment, lead: true }),
    {
        ParagraphPresentation { alignment: self.alignment, lead: true }
    }

    /// The alignment the paragraph declared, if it declared one.
    pub fn alignment(self) -> (r: Option<Alignment>)
        ensures
            r == self.alignment,
    {
        self.alignment
    }

    /// Whether the paragraph is a lead paragraph.
    pub fn is_lead(self) -> (r: bool)
        ensures
            r == self.lead,
    {
        self.lead
    }

    /// Whether the paragraph asked for nothing at all.
    pub fn is_body(self) -> (r: bool)
        ensures
            r == (self.alignment is None && !self.lead),
    {
        self.alignment.is_none() && !self.lead
    }
}

/// The shape an unordered list's marker is drawn in.
#[derive(Debug, Clone, Copy, PartialEq, Eq, Hash)]
pub enum ListMarker {
    /// A filled round bullet.
    Disc,
    /// A hollow round bullet.
    Circle,
    /// A filled square bullet.
    Square,
}

/// The marker a block style names, if it names one.
pub open spec fn marker_for_style(name: Seq<char>) -> Option<ListMarker> {
    if name == "disc"@ {
        Some(ListMarker::Disc)
    } else if name == "circle"@ {
        Some(ListMarker::Circle)
    } else if name == "square"@ {
        Some(ListMarker::Square)
    } else {
        None
    }
}

/// The character a reader sees for each marker.
pub open spec fn marker_glyph(marker: ListMarker) -> char {
    match marker {
        ListMarker::Disc => '\u{2022}',
        ListMarker::Circle => '\u{25e6}',
        ListMarker::Square => '\u{25aa}',
    }
}

impl ListMarker {
    /// The marker the block style `name` asks for, if it names one.
    pub fn from_style(name: &str) -> (r: Option<ListMarker>)
        ensures
            r == marker_for_style(name@),
    {
        proof {
            reveal_strlit("disc");
            reveal_strlit("circle");
            reveal_strlit("square");
        }
        if str_eq(name, "disc") {
            Some(ListMarker::Disc)
        } else if str_eq(name, "circle") {
            Some(ListMarker::Circle)
        } else if str_eq(name, "square") {
            Some(ListMarker::Square)
        } else {
            None
        }
    }

    /// The character a reader sees.
    pub fn glyph(self) -> (r: char)
        ensures
            r == marker_glyph(self),
    {
        match self {
            ListMarker::Disc => '\u{2022}',
            ListMarker::Circle => '\u{25e6}',
            ListMarker::Square => '\u{25aa}',
        }
    }
}

/// The number an ordered list counts from.
#[derive(Debug, Clone, Copy, PartialEq, Eq, PartialOrd, Ord, Hash)]
pub struct ListStart {
    /// The number.
    pub value: usize,
}

/// A declared start that is not a number a list could count from.
#[derive(Debug, Clone, PartialEq, Eq)]
pub struct InvalidListStart {
    /// What the source declared.
    pub value: String,
}

impl ListStart {
    /// Where an ordered list counts from when it does not say, in
    /// specifications.
    pub open spec fn first_spec() -> ListStart {
        ListStart { value: 1 }
    }

    /// Where an ordered list counts from when it does not say: one.
    pub fn first() -> (r: ListStart)
        ensures
            r == ListStart::first_spec(),
    {
        ListStart { value: 1 }
    }

    /// Reads the start an attribute list declared: a non-negative whole number,
    /// white space around it allowed.
    pub fn parse(value: &str) -> (r: Result<ListStart, InvalidListStart>)
        ensures
            r matches Ok(s) ==> parse_unsigned(trim(value@), usize::MAX as nat) == Some(s.value as nat),
            r matches Err(e) ==> parse_unsigned(trim(value@), usize::MAX as nat) is None && e.value@ == value@,
    {
        let t = trimmed(value);
        match parse_unsigned_chars(&t, usize::MAX as u64) {
            Some(n) => Ok(ListStart { value: n as usize }),
            None => Err(InvalidListStart { value: value.to_owned() }),
        }
    }

    /// The number as written.
    pub fn get(self) -> (r: usize)
        ensures
            r == self.value,
    {
        self.value
    }

    /// The number the item at `index` carries, counting from zero; saturating
    /// at the top of the range.
    pub fn position_of(self, index: usize) -> (r: usize)
        ensures
            r == if self.value + index > usize::MAX { usize::MAX as int } else { self.value + index },
    {
        self.value.saturating_add(index)
    }
}

impl Default for ListStart {
    fn default() -> (r: ListStart)
        ensures
            r == ListStart::first_spec(),
    {
        ListStart::first()
    }
}

impl InvalidListStart {
    /// The message describing the refusal.
    pub fn message(&self) -> (r: String)
        ensures
            r@ == "a list's start must be a non-negative whole number, got "@
                + crate::fmt::debug_quoted(self.value@),
    {
        let mut out = String::from_str("a list's start must be a non-negative whole number, got ");
        crate::fmt::push_debug_quoted(&mut out, self.value.as_str());
        out
    }
}

/// How a list is presented, beyond the kind of list it is.
#[derive(Debug, Clone, Copy, PartialEq, Eq, Hash, Default)]
pub enum ListForm {
    /// Items one under another, each beginning beside its marker.
    #[default]
    Stacked,
    /// Terms in a column of their own, each description beside its term.
    Horizontal,
    /// Each term set as a question, with its answer beneath.
    QuestionsAndAnswers,
    /// Items whose markers show whether each is done.
    Checklist,
}

/// The form a block style names, if it names one.
pub open spec fn form_for_style(name: Seq<char>) -> Option<ListForm> {
    if name == "horizontal"@ {
        Some(ListForm::Horizontal)
    } else if name == "qanda"@ {
        Some(ListForm::QuestionsAndAnswers)
    } else {
        None
    }
}

impl ListForm {
    /// The form the block style `name` asks for, if it names one. A checklist
    /// is read from the items, never declared.
    pub fn from_style(name: &str) -> (r: Option<ListForm>)
        ensures
            r == form_for_style(name@),
    {
        proof {
            reveal_strlit("horizontal");
            reveal_strlit("qanda");
        }
        if str_eq(name, "horizontal") {
            Some(ListForm::Horizontal)
        } else if str_eq(name, "qanda") {
            Some(ListForm::QuestionsAndAnswers)
        } else {
            None
        }
    }
}

/// What a list's attribute list asked for.
#[derive(Debug, Clone, Copy, PartialEq, Eq, Hash)]
pub struct ListPresentation {
    /// The declared marker shape, if any.
    pub marker: Option<ListMarker>,
    /// The number the list counts from.
    pub start: ListStart,
    /// How the list is set.
    pub form: ListForm,
}

impl ListPresentation {
    /// A list that asked for nothing, in specifications.
    pub open spec fn stacked_spec() -> ListPresentation {
        ListPresentation { marker: None, start: ListStart::first_spec(), form: ListForm::Stacked }
    }

    /// A list that asked for nothing.
    pub fn stacked() -> (r: ListPresentation)
        ensures
            r == ListPresentation::stacked_spec(),
    {
        ListPresentation { marker: None, start: ListStart::first(), form: ListForm::Stacked }
    }

    /// Declares the shape of the list's markers.
    pub fn with_marker(self, marker: ListMarker) -> (r: ListPresentation)
        ensures
            r == (ListPresentation { marker: Some(marker), ..self }),
    {
        ListPresentation { marker: Some(marker), start: self.start, form: self.form }
    }

    /// Declares the number the list counts from.
    pub fn with_start(self, start: ListStart) -> (r: ListPresentation)
        ensures
            r == (ListPresentation { start, ..self }),
    {
        ListPresentation { marker: self.marker, start, form: self.form }
    }

    /// Declares how the list is set.
    pub fn with_form(self, form: ListForm) -> (r: ListPresentation)
        ensures
            r == (ListPresentation { form, ..self }),
    {
        ListPresentation { marker: self.marker, start: self.start, form }
    }

    /// The marker shape the list declared, if it declared one.
    pub fn marker(self) -> (r: Option<ListMarker>)
        ensures
            r == self.marker,
    {
        self.marker
    }

    /// The number the list counts from.
    pub fn start(self) -> (r: ListStart)
        ensures
            r == self.start,
    {
        self.start
    }

    /// How the list is set.
    pub fn form(self) -> (r: ListForm)
        ensures
            r == self.form,
    {
        self.form
    }
}

impl Default for ListPresentation {
    fn default() -> (r: ListPresentation)
        ensures
            r == ListPresentation::stacked_spec(),
    {
        ListPresentation::stacked()
    }
}

} // verus!

//! The failure modes of rendering a document, and how each is described.

use vstd::prelude::*;
use crate::fmt::{decimal, debug_quoted, push_decimal, push_debug_quoted};

verus! {

/// Where in a source document something happened, 1-based as editors count.
#[derive(Debug, Clone, Copy, PartialEq, Eq, PartialOrd, Ord, Structural)]
pub struct SourceLocation {
    /// The 1-based line number.
    pub line: u32,
    /// The 1-based column number.
    pub column: u32,
}

/// How a location reads in a message.
pub open spec fn location_text(l: SourceLocation) -> Seq<char> {
    "line "@ + decimal(l.line as nat) + ", column "@ + decimal(l.column as nat)
}

/// Appends how a location reads in a message.
fn push_location(out: &mut String, l: SourceLocation)
    ensures
        final(out)@ == old(out)@ + location_text(l),
{
    let ghost start = out@;
    out.append("line ");
    push_decimal(out, l.line as u64);
    out.append(", column ");
    push_decimal(out, l.column as u64);
    assert(out@ =~= start + location_text(l));
}

impl SourceLocation {
    /// The first position in a document.
    pub fn start() -> (r: SourceLocation)
        ensures
            r.line == 1,
            r.column == 1,
    {
        SourceLocation { line: 1, column: 1 }
    }

    /// Creates a source location.
    pub fn new(line: u32, column: u32) -> (r: SourceLocation)
        ensures
            r.line == line,
            r.column == column,
    {
        SourceLocation { line, column }
    }

    /// The location as a message reads it: `line L, column C`.
    pub fn message(&self) -> (r: String)
        ensures
            r@ == location_text(*self),
    {
        let mut out = String::new();
        push_location(&mut out, *self);
        out
    }
}

/// Everything that can go wrong while rendering a document.
#[derive(Debug, Clone, PartialEq, Eq)]
pub enum DomainError {
    /// The input document does not exist.
    InputNotFound {
        /// The path as the caller supplied it.
        path: String,
    },
    /// The input document exists but could not be read.
    InputUnreadable {
        /// The path as the caller supplied it.
        path: String,
        /// What the underlying system reported.
        reason: String,
    },
    /// The source could not be parsed as AsciiDoc.
    ParseFailed {
        /// The document that failed to parse.
        path: String,
        /// Where in the source the parser gave up.
        location: SourceLocation,
        /// What the parser reported.
        reason: String,
    },
    /// The output file could not be written.
    OutputUnwritable {
        /// The path as the caller supplied it.
        path: String,
        /// What the underlying system reported.
        reason: String,
    },
    /// Laying the document out failed: the source was understood, but could
    /// not be turned into pages.
    LayoutFailed {
        /// The document being laid out.
        path: String,
        /// What the layout engine reported.
        reason: String,
    },
    /// A theme's settings are not usable.
    InvalidTheme {
        /// Which theme is at fault. The default theme reports as `default`.
        id: String,
        /// Which setting is wrong and why.
        reason: String,
    },
    /// A section referred to a theme that does not exist.
    UnknownTheme {
        /// The theme that was referenced.
        id: String,
        /// The heading of the section that referenced it.
        section: String,
    },
    /// A path resolves outside the project root. Only the path as requested
    /// and the root are reported, never where the path actually led.
    PathOutsideRoot {
        /// The path as the caller or the document supplied it.
        requested: String,
        /// The project root in effect.
        root: String,
    },
    /// A reference inside a document pointed outside the project root.
    ReferenceOutsideRoot {
        /// The reference as it appeared in the source.
        reference: String,
        /// Where it appeared.
        location: SourceLocation,
        /// The document it appeared in.
        path: String,
        /// The project root in effect.
        root: String,
    },
    /// The supplied project root is not a usable directory.
    RootNotADirectory {
        /// The root as the caller supplied it.
        root: String,
    },
}

/// The message that describes an error.
pub open spec fn domain_error_message(e: DomainError) -> Seq<char> {
    match e {
        DomainError::InputNotFound { path } => "input document not found: "@ + path@,
        DomainError::InputUnreadable { path, reason } => "cannot read input "@ + path@ + ": "@
            + reason@,
        DomainError::ParseFailed { path, location, reason } => "cannot parse "@ + path@ + " at "@
            + location_text(location) + ": "@ + reason@,
        DomainError::OutputUnwritable { path, reason } => "cannot write output "@ + path@ + ": "@
            + reason@,
        DomainError::LayoutFailed { path, reason } => "cannot lay out "@ + path@ + ": "@ + reason@,
        DomainError::InvalidTheme { id, reason } => "theme "@ + id@ + " is invalid: "@ + reason@,
        DomainError::UnknownTheme { id, section } => "section "@ + debug_quoted(section@)
            + " refers to theme "@ + id@ + ", which is not defined"@,
        DomainError::PathOutsideRoot { requested, root } => requested@
            + " is outside the project root "@ + root@,
        DomainError::ReferenceOutsideRoot { reference, location, path, root } => reference@ + " at "@
            + location_text(location) + " in "@ + path@ + " points outside the project root "@
            + root@,
        DomainError::RootNotADirectory { root } => "project root "@ + root@
            + " does not exist or is not a directory"@,
    }
}

impl DomainError {
    /// The message that describes this error.
    pub fn message(&self) -> (r: String)
        ensures
            r@ == domain_error_message(*self),
    {
        let mut out = String::new();
        match self {
            DomainError::InputNotFound { path } => {
                out.append("input document not found: ");
                out.append(path.as_str());
            },
            DomainError::InputUnreadable { path, reason } => {
                out.append("cannot read input ");
                out.append(path.as_str());
                out.append(": ");
                out.append(reason.as_str());
            },
            DomainError::ParseFailed { path, location, reason } => {
                out.append("cannot parse ");
                out.append(path.as_str());
                out.append(" at ");
                push_location(&mut out, *location);
                out.append(": ");
                out.append(reason.as_str());
            },
            DomainError::OutputUnwritable { path, reason } => {
                out.append("cannot write output ");
                out.append(path.as_str());
                out.append(": ");
                out.append(reason.as_str());
            },
            DomainError::LayoutFailed { path, reason } => {
                out.append("cannot lay out ");
                out.append(path.as_str());
                out.append(": ");
                out.append(reason.as_str());
            },
            DomainError::InvalidTheme { id, reason } => {
                out.append("theme ");
                out.append(id.as_str());
                out.append(" is invalid: ");
                out.append(reason.as_str());
            },
            DomainError::UnknownTheme { id, section } => {
                out.append("section ");
                push_debug_quoted(&mut out, section.as_str());
                out.append(" refers to theme ");
                out.append(id.as_str());
                out.append(", which is not defined");
            },
            DomainError::PathOutsideRoot { requested, root } => {
                out.append(requested.as_str());
                out.append(" is outside the project root ");
                out.append(root.as_str());
            },
            DomainError::ReferenceOutsideRoot { reference, location, path, root } => {
                out.append(reference.as_str());
                out.append(" at ");
                push_location(&mut out, *location);
                out.append(" in ");
                out.append(path.as_str());
                out.append(" points outside the project root ");
                out.append(root.as_str());
            },
            DomainError::RootNotADirectory { root } => {
                out.append("project root ");
                out.append(root.as_str());
                out.append(" does not exist or is not a directory");
            },
        }
        assert(out@ =~= domain_error_message(*self));
        out
    }
}

} // verus!

//! Resolving a path that may not exist yet.
//!
//! An output file is usually not there before it is written, so a path cannot
//! simply be canonicalised. Resolution canonicalises the longest part of the
//! path that exists and keeps what follows as written. The filesystem is asked
//! by the host, one question at a time; what to ask next, and what the answer
//! means, is decided here.

use vstd::prelude::*;
use crate::sandbox::ResolutionError;

verus! {

/// The last component of a path, as the standard library's `Path::file_name`
/// reads it, if it has one.
pub uninterp spec fn final_component(path: Seq<char>) -> Option<Seq<char>>;

/// The path without its last component, as the standard library's
/// `Path::parent` reads it, if it has one.
pub uninterp spec fn parent_path(path: Seq<char>) -> Option<Seq<char>>;

/// The last component of `path`, with `Path::file_name`: the contract claims
/// only that the result is the one that function gives for this path, which
/// depends on nothing else.
#[verifier::external_body]
fn file_name_of(path: &str) -> (r: Option<String>)
    ensures
        match r {
            Some(name) => final_component(path@) == Some(name@),
            None => final_component(path@) is None,
        },
{
    std::path::Path::new(path).file_name().map(|name| name.to_string_lossy().into_owned())
}

/// The path without its last component, with `Path::parent`: the contract
/// claims only that the result is the one that function gives for this path,
/// which depends on nothing else.
#[verifier::external_body]
pub(crate) fn parent_of(path: &str) -> (r: Option<String>)
    ensures
        match r {
            Some(parent) => parent_path(path@) == Some(parent@),
            None => parent_path(path@) is None,
        },
{
    std::path::Path::new(path).parent().map(|parent| parent.to_string_lossy().into_owned())
}

/// What canonicalising a path found.
#[derive(Debug, Clone, PartialEq, Eq)]
pub enum Canonical {
    /// The path exists; where it leads, with links followed.
    Resolved(String),
    /// Nothing exists at the path.
    Missing,
    /// The path could not be examined; what the system reported.
    Unreadable(String),
}

/// Where a resolution stands: the part of the path still to be
/// canonicalised, and the components stripped from its end because they do
/// not exist, the last component stripped last.
#[derive(Debug, Clone, PartialEq, Eq)]
pub struct Resolution {
    /// The part still to be canonicalised.
    pub pending: String,
    /// The components below it, innermost first.
    pub missing: Vec<String>,
}

/// What a resolution does next.
#[derive(Debug, PartialEq, Eq)]
pub enum ResolutionStep {
    /// Canonicalise the pending part of this state.
    Canonicalize(Resolution),
    /// Resolution is over, with this result.
    Finished(Result<String, ResolutionError>),
}

/// `name` added below `base`, with a separator unless `base` is empty or
/// already ends in one.
pub open spec fn pushed(base: Seq<char>, name: Seq<char>) -> Seq<char> {
    if base.len() == 0 || base.last() == '/' {
        base + name
    } else {
        base + seq!['/'] + name
    }
}

/// The missing components added back below `base`, outermost first, so the
/// innermost, which was stripped first, ends the path.
pub open spec fn restored(base: Seq<char>, missing: Seq<String>) -> Seq<char>
    decreases missing.len(),
{
    if missing.len() == 0 {
        base
    } else {
        pushed(restored(base, missing.drop_first()), missing[0]@)
    }
}

/// The state a resolution of `path` starts in: all of it pending, nothing
/// missing.
pub fn begin_resolution(path: &str) -> (r: Resolution)
    ensures
        r.pending@ == path@,
        r.missing@.len() == 0,
{
    Resolution { pending: path.to_owned(), missing: Vec::new() }
}

fn push_component(base: &mut String, name: &str)
    ensures
        final(base)@ == pushed(old(base)@, name@),
{
    let ghost start = base@;
    let chars = crate::text::chars_of(base.as_str());
    if chars.len() == 0 || chars[chars.len() - 1] == '/' {
        base.append(name);
    } else {
        crate::text::push_char(base, '/');
        base.append(name);
    }
    assert(base@ =~= pushed(start, name@));
}

/// What a resolution does once the filesystem has answered for its pending
/// part. A path that exists ends it, with the missing components added back
/// as written; one that does not is stripped of its last component, which is
/// kept, and its parent asked about next (an empty parent is the current
/// directory); a path with no last component or no parent to strip to does not
/// exist at all; and a path that could not be examined ends it with what the
/// system said.
pub fn advance_resolution(state: Resolution, found: Canonical) -> (r: ResolutionStep)
    ensures
        match found {
            Canonical::Resolved(base) => r matches ResolutionStep::Finished(Ok(s)) && s@ == restored(base@, state.missing@),
            Canonical::Unreadable(reason) => r == ResolutionStep::Finished(Err(ResolutionError::Unreadable(reason))),
            Canonical::Missing => match (final_component(state.pending@), parent_path(state.pending@)) {
                (Some(name), Some(parent)) => r matches ResolutionStep::Canonicalize(next)
                    && next.pending@ == (if parent.len() == 0 { seq!['.'] } else { parent })
                    && next.missing@.len() == state.missing@.len() + 1
                    && next.missing@.last()@ == name
                    && next.missing@.drop_last() == state.missing@,
                _ => r == ResolutionStep::Finished(Err(ResolutionError::NotFound)),
            },
        },
{
    match found {
        Canonical::Resolved(base) => {
            let mut out = base;
            let ghost b = out@;
            let mut i: usize = state.missing.len();
            while i > 0
                invariant
                    i <= state.missing@.len(),
                    out@ == restored(b, state.missing@.skip(i as int)),
                decreases i,
            {
                proof {
                    assert(state.missing@.skip(i - 1).drop_first() =~= state.missing@.skip(i as int));
                    assert(state.missing@.skip(i - 1)[0] == state.missing@[i - 1]);
                }
                push_component(&mut out, state.missing[i - 1].as_str());
                i = i - 1;
            }
            proof { assert(state.missing@.skip(0) =~= state.missing@); }
            ResolutionStep::Finished(Ok(out))
        },
        Canonical::Unreadable(reason) => ResolutionStep::Finished(Err(ResolutionError::Unreadable(reason))),
        Canonical::Missing => {
            let name = file_name_of(state.pending.as_str());
            let parent = parent_of(state.pending.as_str());
            strip_missing(state, name, parent)
        },
    }
}

/// What a resolution does when its pending part does not exist, given that
/// part's last component and its parent: the component is kept, innermost
/// after those already kept, and the parent asked about next, an empty parent
/// being the current directory. Without either, the path does not exist at
/// all.
pub fn strip_missing(state: Resolution, name: Option<String>, parent: Option<String>) -> (r: ResolutionStep)
    ensures
        match (name, parent) {
            (Some(n), Some(p)) => r matches ResolutionStep::Canonicalize(next)
                && next.pending@ == (if p@.len() == 0 { seq!['.'] } else { p@ })
                && next.missing@ == state.missing@.push(n),
            _ => r == ResolutionStep::Finished(Err(ResolutionError::NotFound)),
        },
{
    match (name, parent) {
        (Some(name), Some(parent)) => {
            let pending = if crate::text::str_is_empty(parent.as_str()) {
                proof { reveal_strlit("."); }
                String::from_str(".")
            } else {
                parent
            };
            let mut missing = state.missing;
            missing.push(name);
            ResolutionStep::Canonicalize(Resolution { pending, missing })
        },
        _ => ResolutionStep::Finished(Err(ResolutionError::NotFound)),
    }
}

} // verus!

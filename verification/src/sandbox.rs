//! Keeping every path the renderer touches inside one project directory.
//!
//! Paths are resolved by the host (symbolic links followed, `..` folded) and
//! only then compared with the root, component by component, so neither a
//! traversal nor a link can lead out of it.

use vstd::prelude::*;
use crate::error::DomainError;
use crate::text::{chars_of, chars_eq};

verus! {

/// Why a path could not be resolved.
#[derive(Debug, Clone, PartialEq, Eq)]
pub enum ResolutionError {
    /// Nothing exists at the path.
    NotFound,
    /// Something exists but could not be examined; what the system reported.
    Unreadable(String),
}

/// A resolution as its plain value: the location's characters, or why there is none.
pub open spec fn resolution_view(r: Result<String, ResolutionError>) -> Result<Seq<char>, ResolutionError> {
    match r {
        Ok(location) => Ok(location@),
        Err(e) => Err(e),
    }
}

/// Turns a path as spelled into the location it actually names.
///
/// Its relations name the answers it gives; a resolver that does not define
/// them lets them hold of every answer, and so claims nothing.
pub trait PathResolver {
    /// Whether `answer` is an answer this resolver gave for `path`. The
    /// answer rests on the host's filesystem at the moment of asking, so the
    /// relation names it and claims nothing of it.
    open spec fn resolves(&self, path: Seq<char>, answer: Result<Seq<char>, ResolutionError>) -> bool {
        true
    }

    /// Whether `answer` is an answer this resolver gave to whether `path` is a
    /// directory.
    open spec fn answers_directory(&self, path: Seq<char>, answer: bool) -> bool {
        true
    }

    /// The location `path` names, with links followed and `.`/`..` folded.
    fn resolve(&self, path: &str) -> (r: Result<String, ResolutionError>)
        ensures
            self.resolves(path@, resolution_view(r));

    /// Whether `path` is a directory.
    fn is_directory(&self, path: &str) -> (r: bool)
        ensures
            self.answers_directory(path@, r);
}

/// One component of a path, as it is emitted: an empty piece (from a repeated
/// or trailing separator) is no component, and neither is `.`, except as the
/// very first piece of a relative path.
pub open spec fn emitted(piece: Seq<char>, first: bool) -> Seq<Seq<char>> {
    if piece.len() == 0 {
        Seq::empty()
    } else if piece == seq!['.'] && !first {
        Seq::empty()
    } else {
        seq![piece]
    }
}

/// The components of `s`, with `piece` the part of the current component read
/// before it and `first` whether that is the first piece of the path.
pub open spec fn components_from(s: Seq<char>, piece: Seq<char>, first: bool) -> Seq<Seq<char>>
    decreases s.len(),
{
    if s.len() == 0 {
        emitted(piece, first)
    } else if s[0] == '/' {
        emitted(piece, first) + components_from(s.drop_first(), Seq::empty(), false)
    } else {
        components_from(s.drop_first(), piece.push(s[0]), first)
    }
}

/// The components of a path: the root (`/`) if it has one, then each named
/// component in order.
pub open spec fn components(p: Seq<char>) -> Seq<Seq<char>> {
    if p.len() > 0 && p[0] == '/' {
        seq![seq!['/']] + components_from(p.drop_first(), Seq::empty(), false)
    } else {
        components_from(p, Seq::empty(), true)
    }
}

/// Whether `path` lies within `base`: the components of `base` begin the
/// components of `path`.
pub open spec fn path_starts_with(path: Seq<char>, base: Seq<char>) -> bool {
    let a = components(path);
    let b = components(base);
    b.len() <= a.len() && a.take(b.len() as int) == b
}

spec fn pieces_view(v: Seq<Vec<char>>) -> Seq<Seq<char>> {
    v.map_values(|p: Vec<char>| p@)
}

/// Appends the component `piece` emits.
fn emit(out: &mut Vec<Vec<char>>, piece: Vec<char>, first: bool)
    ensures
        pieces_view(final(out)@) == pieces_view(old(out)@) + emitted(piece@, first),
{
    let ghost before = out@;
    if piece.len() == 0 {
        assert(pieces_view(out@) =~= pieces_view(before) + emitted(piece@, first));
        return;
    }
    if !first && piece.len() == 1 && piece[0] == '.' {
        assert(piece@ =~= seq!['.']);
        assert(pieces_view(out@) =~= pieces_view(before) + emitted(piece@, first));
        return;
    }
    proof {
        if piece@ == seq!['.'] {
            assert(piece@.len() == 1 && piece@[0] == '.');
        }
    }
    let ghost pv = piece@;
    out.push(piece);
    assert(pieces_view(out@) =~= pieces_view(before) + seq![pv]);
}

/// The components of a path.
fn path_components(p: &str) -> (r: Vec<Vec<char>>)
    ensures
        pieces_view(r@) == components(p@),
{
    let cs = chars_of(p);
    let mut out: Vec<Vec<char>> = Vec::new();
    let mut start: usize = 0;
    let mut first = true;
    if cs.len() > 0 && cs[0] == '/' {
        let mut root: Vec<char> = Vec::new();
        root.push('/');
        out.push(root);
        start = 1;
        first = false;
    }
    let ghost total = components(p@);
    let mut piece: Vec<char> = Vec::new();
    let mut i: usize = start;
    proof {
        if start == 1 {
            assert(cs@.skip(1) =~= cs@.drop_first());
            assert(pieces_view(out@) =~= seq![seq!['/']]);
        } else {
            assert(cs@.skip(0) =~= cs@);
            assert(pieces_view(out@) =~= Seq::<Seq<char>>::empty());
        }
    }
    while i < cs.len()
        invariant
            start <= i <= cs.len(),
            cs@ == p@,
            pieces_view(out@) + components_from(cs@.skip(i as int), piece@, first) == total,
        decreases cs.len() - i,
    {
        let c = cs[i];
        proof {
            assert(cs@.skip(i as int)[0] == c);
            assert(cs@.skip(i as int).drop_first() =~= cs@.skip(i + 1));
        }
        if c == '/' {
            let ghost pv = piece@;
            let ghost before = pieces_view(out@);
            emit(&mut out, piece, first);
            piece = Vec::new();
            proof {
                assert(before + components_from(cs@.skip(i as int), pv, first) == before + (emitted(pv, first) + components_from(cs@.skip(i + 1), Seq::empty(), false)));
                assert(before + (emitted(pv, first) + components_from(cs@.skip(i + 1), Seq::empty(), false)) =~= (before + emitted(pv, first)) + components_from(cs@.skip(i + 1), Seq::empty(), false));
            }
            first = false;
        } else {
            piece.push(c);
        }
        i = i + 1;
    }
    proof {
        assert(cs@.skip(i as int) =~= Seq::<char>::empty());
    }
    emit(&mut out, piece, first);
    out
}

/// Whether the components of `base` begin those of `path`.
fn starts_with(path: &str, base: &str) -> (r: bool)
    ensures
        r == path_starts_with(path@, base@),
{
    let a = path_components(path);
    let b = path_components(base);
    if b.len() > a.len() {
        return false;
    }
    let mut i: usize = 0;
    while i < b.len()
        invariant
            b.len() <= a.len(),
            pieces_view(a@) == components(path@),
            pieces_view(b@) == components(base@),
            i <= b.len(),
            forall|k: int| 0 <= k < i ==> #[trigger] pieces_view(a@)[k] == pieces_view(b@)[k],
        decreases b.len() - i,
    {
        if !chars_eq(&a[i], &b[i]) {
            proof {
                let ta = pieces_view(a@).take(b@.len() as int);
                assert(ta[i as int] == a@[i as int]@);
                assert(pieces_view(b@)[i as int] == b@[i as int]@);
                assert(ta[i as int] != pieces_view(b@)[i as int]);
                assert(ta != pieces_view(b@));
                assert(!path_starts_with(path@, base@));
            }
            return false;
        }
        i = i + 1;
    }
    proof {
        assert(pieces_view(a@).take(b@.len() as int) =~= pieces_view(b@));
    }
    true
}

/// The directory every path must stay inside.
#[derive(Debug, Clone, PartialEq, Eq)]
pub struct ProjectRoot {
    resolved: String,
    requested: String,
}

impl ProjectRoot {
    /// Where the root actually is, in specifications.
    pub closed spec fn resolved_spec(&self) -> Seq<char> {
        self.resolved@
    }

    /// The root as the caller spelled it, in specifications.
    pub closed spec fn requested_spec(&self) -> Seq<char> {
        self.requested@
    }

    /// The root the resolver's answers make of `requested`: where it resolved,
    /// if it resolved and the resolver called that a directory; otherwise the
    /// refusal naming the root as the caller spelled it.
    pub fn from_answers(requested: &str, answer: Result<String, ResolutionError>, is_directory: bool) -> (r: Result<ProjectRoot, DomainError>)
        ensures
            r is Ok <==> (answer is Ok && is_directory),
            r matches Ok(root) ==> (answer matches Ok(location) && root.resolved_spec() == location@
                && root.requested_spec() == requested@),
            r matches Err(e) ==> (e matches DomainError::RootNotADirectory { root } && root@ == requested@),
    {
        match answer {
            Ok(location) => {
                if !is_directory {
                    return Err(DomainError::RootNotADirectory { root: requested.to_owned() });
                }
                Ok(ProjectRoot { resolved: location, requested: requested.to_owned() })
            },
            Err(_) => Err(DomainError::RootNotADirectory { root: requested.to_owned() }),
        }
    }

    /// Establishes the project root. It must resolve, and to a directory;
    /// otherwise the refusal names the root as the caller spelled it. The
    /// resolver is asked where the root is, and only if it answers, whether
    /// that is a directory.
    pub fn new<R: PathResolver>(requested: &str, resolver: &R) -> (r: Result<ProjectRoot, DomainError>)
        ensures
            r matches Ok(root) ==> root.requested_spec() == requested@
                && resolver.resolves(requested@, Ok(root.resolved_spec()))
                && resolver.answers_directory(root.resolved_spec(), true),
            r matches Err(e) ==> (e matches DomainError::RootNotADirectory { root } && root@ == requested@),
            r is Err ==> exists|answer: Result<Seq<char>, ResolutionError>| #[trigger] resolver.resolves(requested@, answer)
                && (answer is Err || (answer matches Ok(location) && resolver.answers_directory(location, false))),
    {
        let answer = resolver.resolve(requested);
        let ghost seen = resolution_view(answer);
        match answer {
            Ok(location) => {
                let is_directory = resolver.is_directory(location.as_str());
                proof {
                    assert(seen == Ok::<Seq<char>, ResolutionError>(location@));
                }
                ProjectRoot::from_answers(requested, Ok(location), is_directory)
            },
            Err(e) => {
                proof {
                    assert(seen is Err);
                }
                ProjectRoot::from_answers(requested, Err(e), false)
            },
        }
    }

    /// Where the root actually is.
    pub fn path(&self) -> (r: &str)
        ensures
            r@ == self.resolved_spec(),
    {
        self.resolved.as_str()
    }

    /// The root as the caller spelled it, for messages.
    pub fn as_requested(&self) -> (r: &str)
        ensures
            r@ == self.requested_spec(),
    {
        self.requested.as_str()
    }

    /// Whether an already resolved location lies inside the root, compared
    /// component by component.
    pub fn contains(&self, resolved: &str) -> (r: bool)
        ensures
            r == path_starts_with(resolved@, self.resolved_spec()),
    {
        starts_with(resolved, self.resolved.as_str())
    }
}

/// A path that has been resolved and found inside the project root.
#[derive(Debug, Clone, PartialEq, Eq)]
pub struct SandboxedPath {
    resolved: String,
    requested: String,
}

impl SandboxedPath {
    /// Where the path actually leads, in specifications.
    pub closed spec fn resolved_spec(&self) -> Seq<char> {
        self.resolved@
    }

    /// The path as spelled, in specifications.
    pub closed spec fn requested_spec(&self) -> Seq<char> {
        self.requested@
    }

    /// The path the resolver's answer makes of `requested` under `root`:
    /// where it resolved, if it resolved inside the root; otherwise the
    /// refusal naming the path as requested and the root, the same for a path
    /// that did not resolve as for one that resolved outside, so where it led
    /// is never shown.
    pub fn confine(requested: &str, root: &ProjectRoot, answer: Result<String, ResolutionError>) -> (r: Result<SandboxedPath, DomainError>)
        ensures
            r is Ok <==> (answer matches Ok(location) && path_starts_with(location@, root.resolved_spec())),
            r matches Ok(p) ==> (answer matches Ok(location) && p.resolved_spec() == location@
                && p.requested_spec() == requested@),
            r matches Err(e) ==> (e matches DomainError::PathOutsideRoot { requested: q, root: t }
                && q@ == requested@ && t@ == root.requested_spec()),
    {
        match answer {
            Ok(location) => {
                if !root.contains(location.as_str()) {
                    return Err(DomainError::PathOutsideRoot {
                        requested: requested.to_owned(),
                        root: root.as_requested().to_owned(),
                    });
                }
                Ok(SandboxedPath { resolved: location, requested: requested.to_owned() })
            },
            Err(_) => Err(DomainError::PathOutsideRoot {
                requested: requested.to_owned(),
                root: root.as_requested().to_owned(),
            }),
        }
    }

    /// Resolves `requested` and confines it to `root`. A path that does not
    /// resolve, or resolves outside the root, is refused; the refusal names
    /// the path as requested and the root, never where the path led.
    pub fn resolve<R: PathResolver>(requested: &str, root: &ProjectRoot, resolver: &R) -> (r: Result<SandboxedPath, DomainError>)
        ensures
            r matches Ok(p) ==> p.requested_spec() == requested@
                && resolver.resolves(requested@, Ok(p.resolved_spec()))
                && path_starts_with(p.resolved_spec(), root.resolved_spec()),
            r matches Err(e) ==> (e matches DomainError::PathOutsideRoot { requested: q, root: t }
                && q@ == requested@ && t@ == root.requested_spec()),
            r is Err ==> exists|answer: Result<Seq<char>, ResolutionError>| #[trigger] resolver.resolves(requested@, answer)
                && (answer is Err || (answer matches Ok(location) && !path_starts_with(location, root.resolved_spec()))),
    {
        let answer = resolver.resolve(requested);
        let ghost seen = resolution_view(answer);
        proof {
            match &answer {
                Ok(location) => assert(seen == Ok::<Seq<char>, ResolutionError>(location@)),
                Err(_) => assert(seen is Err),
            }
        }
        SandboxedPath::confine(requested, root, answer)
    }

    /// Where the path actually leads.
    pub fn as_path(&self) -> (r: &str)
        ensures
            r@ == self.resolved_spec(),
    {
        self.resolved.as_str()
    }

    /// The path as spelled, for messages.
    pub fn as_requested(&self) -> (r: &str)
        ensures
            r@ == self.requested_spec(),
    {
        self.requested.as_str()
    }
}

} // verus!

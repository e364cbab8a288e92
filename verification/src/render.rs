//! The render use case, and the plain shapes a request and its report take
//! when they cross the boundary.

use vstd::prelude::*;
use crate::error::DomainError;
use crate::plan::{page_breaks, plan_document, plan_spec, LayoutPlan, PlanView};
use crate::ports::{Clock, Date, DocumentParser, DocumentRenderer, ParseOutcome, SkippedConstruct, SourceStore, ThemeRepository};
use crate::sandbox::{path_starts_with, PathResolver, ProjectRoot, ResolutionError, SandboxedPath};
use crate::theme::ThemeSet;
use crate::resolution::{parent_of, parent_path};

verus! {

/// What to render, and where everything must stay.
#[derive(Debug, Clone, PartialEq, Eq)]
pub struct RenderRequest {
    /// The AsciiDoc document to read.
    pub input: String,
    /// Where to write the PDF.
    pub output: String,
    /// The directory both paths must stay inside.
    pub project_root: String,
}

/// What a successful render produced.
#[derive(Debug, Clone, PartialEq, Eq)]
pub struct RenderReport {
    /// Where the PDF was written.
    pub output: String,
    /// How many bytes were written.
    pub bytes_written: usize,
    /// Everything the renderer left out, in source order.
    pub skipped: Vec<SkippedConstruct>,
    /// How many page breaks the document's theme changes forced.
    pub forced_page_breaks: usize,
}

impl RenderReport {
    /// The report of a render that wrote `bytes` to `output` from `plan`,
    /// having left out `skipped`.
    pub fn of_render(output: &SandboxedPath, bytes: &Vec<u8>, skipped: Vec<SkippedConstruct>, plan: &LayoutPlan) -> (r: RenderReport)
        ensures
            r.output@ == output.resolved_spec(),
            r.bytes_written == bytes@.len(),
            r.skipped@ == skipped@,
            r.forced_page_breaks == page_breaks(plan.items_spec()),
    {
        RenderReport {
            output: output.as_path().to_owned(),
            bytes_written: bytes.len(),
            skipped,
            forced_page_breaks: plan.forced_page_breaks(),
        }
    }

    /// Whether the document was rendered without leaving anything out.
    pub fn is_complete(&self) -> (r: bool)
        ensures
            r == (self.skipped@.len() == 0),
    {
        self.skipped.len() == 0
    }
}

/// Renders one document, confined to its project root, through the host's
/// ports.
pub struct RenderDocument<'a, R, S, P, T, D, C> {
    resolver: &'a R,
    sources: &'a S,
    parser: &'a P,
    themes: &'a T,
    renderer: &'a D,
    clock: &'a C,
}

impl<'a, R: PathResolver, S: SourceStore, P: DocumentParser, T: ThemeRepository, D: DocumentRenderer, C: Clock> RenderDocument<'a, R, S, P, T, D, C> {
    /// The ports the use case runs through, in specifications.
    pub closed spec fn ports_spec(&self) -> (&'a R, &'a S, &'a P, &'a T, &'a D, &'a C) {
        (self.resolver, self.sources, self.parser, self.themes, self.renderer, self.clock)
    }

    /// Assembles the use case from its ports.
    pub fn new(resolver: &'a R, sources: &'a S, parser: &'a P, themes: &'a T, renderer: &'a D, clock: &'a C) -> (r: Self)
        ensures
            r.ports_spec() == (resolver, sources, parser, themes, renderer, clock),
    {
        RenderDocument { resolver, sources, parser, themes, renderer, clock }
    }

    /// Whether the resolver's answers establish `root` as the project root of
    /// `request`: the root as spelled resolved there, and the resolver said
    /// that is a directory.
    pub open spec fn root_ready(&self, request: RenderRequest, root: ProjectRoot) -> bool {
        let resolver = self.ports_spec().0;
        &&& root.requested_spec() == request.project_root@
        &&& resolver.resolves(request.project_root@, Ok(root.resolved_spec()))
        &&& resolver.answers_directory(root.resolved_spec(), true)
    }

    /// Whether the resolver's answers accept `path`, spelled `spelled`, inside
    /// `root`: it resolved there, and that lies within the root.
    pub open spec fn path_ready(&self, spelled: Seq<char>, root: ProjectRoot, path: SandboxedPath) -> bool {
        let resolver = self.ports_spec().0;
        &&& path.requested_spec() == spelled
        &&& resolver.resolves(spelled, Ok(path.resolved_spec()))
        &&& path_starts_with(path.resolved_spec(), root.resolved_spec())
    }

    /// Whether the resolver's answers refuse `root` as a project root: it did
    /// not resolve, or the resolver said that where it resolved is not a
    /// directory.
    pub open spec fn root_refused(&self, root: Seq<char>) -> bool {
        let resolver = self.ports_spec().0;
        exists|answer: Result<Seq<char>, ResolutionError>| #[trigger] resolver.resolves(root, answer)
            && (answer is Err || (answer matches Ok(location) && resolver.answers_directory(location, false)))
    }

    /// Whether the resolver's answer refuses `spelled` inside `root`: it did
    /// not resolve, or resolved outside the root.
    pub open spec fn path_refused(&self, spelled: Seq<char>, root: ProjectRoot) -> bool {
        let resolver = self.ports_spec().0;
        exists|answer: Result<Seq<char>, ResolutionError>| #[trigger] resolver.resolves(spelled, answer)
            && (answer is Err || (answer matches Ok(location) && !path_starts_with(location, root.resolved_spec())))
    }

    /// The steps up to reading: the root and both paths accepted, in that
    /// order, and the clock asked for the date.
    pub open spec fn paths_ready(&self, request: RenderRequest, root: ProjectRoot, input: SandboxedPath, output: SandboxedPath, today: Date) -> bool {
        &&& self.root_ready(request, root)
        &&& self.path_ready(request.input@, root, input)
        &&& self.path_ready(request.output@, root, output)
        &&& self.ports_spec().5.tells(today)
    }

    /// The steps up to parsing: as `paths_ready`, and the input read.
    pub open spec fn source_ready(&self, request: RenderRequest, root: ProjectRoot, input: SandboxedPath, output: SandboxedPath, today: Date, source: String) -> bool {
        &&& self.paths_ready(request, root, input, output, today)
        &&& self.ports_spec().1.reads(input, Ok(source))
    }

    /// The steps up to loading the themes: as `source_ready`, and the source
    /// parsed as of the clock's date.
    pub open spec fn parsed(&self, request: RenderRequest, root: ProjectRoot, input: SandboxedPath, output: SandboxedPath, today: Date, source: String, outcome: ParseOutcome) -> bool {
        &&& self.source_ready(request, root, input, output, today, source)
        &&& self.ports_spec().2.parses(source@, request.input@, today, Ok(outcome))
    }

    /// The steps up to planning: as `parsed`, and the themes loaded.
    pub open spec fn loaded(&self, request: RenderRequest, root: ProjectRoot, input: SandboxedPath, output: SandboxedPath, today: Date, source: String, outcome: ParseOutcome, set: ThemeSet) -> bool {
        &&& self.parsed(request, root, input, output, today, source, outcome)
        &&& self.ports_spec().3.loads(Ok(set))
    }

    /// The steps up to rendering: as `loaded`, and the document planned under
    /// the loaded themes into `plan`.
    pub open spec fn planned(&self, request: RenderRequest, root: ProjectRoot, input: SandboxedPath, output: SandboxedPath, today: Date, source: String, outcome: ParseOutcome, set: ThemeSet, plan: LayoutPlan) -> bool {
        &&& self.loaded(request, root, input, output, today, source, outcome, set)
        &&& plan_spec(outcome.document, set) == Ok::<Seq<PlanView>, (Seq<char>, Seq<char>)>(plan.items_spec())
        &&& plan.initial_spec() == set.default_spec()
    }

    /// The steps up to writing: as `planned`, and the plan rendered into
    /// `bytes` as of the clock's date.
    pub open spec fn rendered(&self, request: RenderRequest, root: ProjectRoot, input: SandboxedPath, output: SandboxedPath, today: Date, source: String, outcome: ParseOutcome, set: ThemeSet, plan: LayoutPlan, bytes: Vec<u8>) -> bool {
        &&& self.planned(request, root, input, output, today, source, outcome, set, plan)
        &&& self.ports_spec().4.renders(plan, request.input@, today, Ok(bytes))
    }

    /// Whether `report` is what a render of `request` through these ports
    /// makes of their answers: every step succeeded in order, the rendered
    /// bytes were written to the output, and the report names the output,
    /// counts the bytes, carries what the parser left out and the page breaks
    /// the plan forces.
    pub open spec fn completed_with(
        &self,
        request: RenderRequest,
        report: RenderReport,
        root: ProjectRoot,
        input: SandboxedPath,
        output: SandboxedPath,
        today: Date,
        source: String,
        outcome: ParseOutcome,
        set: ThemeSet,
        plan: LayoutPlan,
        bytes: Vec<u8>,
        written: Result<(), DomainError>,
    ) -> bool {
        &&& self.rendered(request, root, input, output, today, source, outcome, set, plan, bytes)
        &&& written is Ok
        &&& self.ports_spec().1.writes(output, bytes@, written)
        &&& report.output@ == output.resolved_spec()
        &&& report.bytes_written == bytes@.len()
        &&& report.skipped@ == outcome.skipped@
        &&& report.forced_page_breaks == page_breaks(plan.items_spec())
    }

    /// Whether some answers of the ports make `report` of `request`.
    pub open spec fn completed(&self, request: RenderRequest, report: RenderReport) -> bool {
        exists|root: ProjectRoot, input: SandboxedPath, output: SandboxedPath, today: Date, source: String,
            outcome: ParseOutcome, set: ThemeSet, plan: LayoutPlan, bytes: Vec<u8>, written: Result<(), DomainError>|
            #[trigger] self.completed_with(request, report, root, input, output, today, source, outcome, set, plan, bytes, written)
    }

    /// The render failed at its first step: the root was refused.
    pub open spec fn failed_at_root(&self, request: RenderRequest, error: DomainError) -> bool {
        &&& error matches DomainError::RootNotADirectory { root } && root@ == request.project_root@
        &&& self.root_refused(request.project_root@)
    }

    /// The render failed confining the input, after the root was accepted.
    pub open spec fn failed_at_input(&self, request: RenderRequest, error: DomainError, root: ProjectRoot) -> bool {
        &&& self.root_ready(request, root)
        &&& self.path_refused(request.input@, root)
        &&& error matches DomainError::PathOutsideRoot { requested, root: named }
                && requested@ == request.input@ && named@ == request.project_root@
    }

    /// The render failed confining the output, after the root and the input
    /// were accepted.
    pub open spec fn failed_at_output(&self, request: RenderRequest, error: DomainError, root: ProjectRoot, input: SandboxedPath) -> bool {
        &&& self.root_ready(request, root)
        &&& self.path_ready(request.input@, root, input)
        &&& self.path_refused(request.output@, root)
        &&& error matches DomainError::PathOutsideRoot { requested, root: named }
                && requested@ == request.output@ && named@ == request.project_root@
    }

    /// The render failed reading the input, everything before having
    /// succeeded.
    pub open spec fn failed_at_read(&self, request: RenderRequest, error: DomainError, root: ProjectRoot, input: SandboxedPath, output: SandboxedPath, today: Date) -> bool {
        &&& self.paths_ready(request, root, input, output, today)
        &&& self.ports_spec().1.reads(input, Err(error))
    }

    /// The render failed parsing the source, everything before having
    /// succeeded.
    pub open spec fn failed_at_parse(&self, request: RenderRequest, error: DomainError, root: ProjectRoot, input: SandboxedPath, output: SandboxedPath, today: Date, source: String) -> bool {
        &&& self.source_ready(request, root, input, output, today, source)
        &&& self.ports_spec().2.parses(source@, request.input@, today, Err(error))
    }

    /// The render failed loading the themes, everything before having
    /// succeeded.
    pub open spec fn failed_at_load(&self, request: RenderRequest, error: DomainError, root: ProjectRoot, input: SandboxedPath, output: SandboxedPath, today: Date, source: String, outcome: ParseOutcome) -> bool {
        &&& self.parsed(request, root, input, output, today, source, outcome)
        &&& self.ports_spec().3.loads(Err(error))
    }

    /// The render failed planning: a section of the parsed document names a
    /// theme the loaded set does not define, everything before having
    /// succeeded.
    pub open spec fn failed_at_plan(&self, request: RenderRequest, error: DomainError, root: ProjectRoot, input: SandboxedPath, output: SandboxedPath, today: Date, source: String, outcome: ParseOutcome, set: ThemeSet) -> bool {
        &&& self.loaded(request, root, input, output, today, source, outcome, set)
        &&& plan_spec(outcome.document, set) matches Err(failure)
        &&& error matches DomainError::UnknownTheme { id, section } && id@ == failure.0 && section@ == failure.1
    }

    /// The render failed rendering the plan, everything before having
    /// succeeded.
    pub open spec fn failed_at_render(&self, request: RenderRequest, error: DomainError, root: ProjectRoot, input: SandboxedPath, output: SandboxedPath, today: Date, source: String, outcome: ParseOutcome, set: ThemeSet, plan: LayoutPlan) -> bool {
        &&& self.planned(request, root, input, output, today, source, outcome, set, plan)
        &&& self.ports_spec().4.renders(plan, request.input@, today, Err(error))
    }

    /// The render failed writing the rendered bytes, everything before having
    /// succeeded.
    pub open spec fn failed_at_write(&self, request: RenderRequest, error: DomainError, root: ProjectRoot, input: SandboxedPath, output: SandboxedPath, today: Date, source: String, outcome: ParseOutcome, set: ThemeSet, plan: LayoutPlan, bytes: Vec<u8>) -> bool {
        &&& self.rendered(request, root, input, output, today, source, outcome, set, plan, bytes)
        &&& self.ports_spec().1.writes(output, bytes@, Err(error))
    }

    /// Whether `error` ends a render of `request`: the failure of exactly one
    /// step, with every step before it having succeeded, in the order root,
    /// input, output, clock and read, parse, themes, plan, render, write.
    pub open spec fn failed_with(&self, request: RenderRequest, error: DomainError) -> bool {
        ||| self.failed_at_root(request, error)
        ||| exists|root: ProjectRoot| #[trigger] self.failed_at_input(request, error, root)
        ||| exists|root: ProjectRoot, input: SandboxedPath| #[trigger] self.failed_at_output(request, error, root, input)
        ||| exists|root: ProjectRoot, input: SandboxedPath, output: SandboxedPath, today: Date|
                #[trigger] self.failed_at_read(request, error, root, input, output, today)
        ||| exists|root: ProjectRoot, input: SandboxedPath, output: SandboxedPath, today: Date, source: String|
                #[trigger] self.failed_at_parse(request, error, root, input, output, today, source)
        ||| exists|root: ProjectRoot, input: SandboxedPath, output: SandboxedPath, today: Date, source: String, outcome: ParseOutcome|
                #[trigger] self.failed_at_load(request, error, root, input, output, today, source, outcome)
        ||| exists|root: ProjectRoot, input: SandboxedPath, output: SandboxedPath, today: Date, source: String, outcome: ParseOutcome, set: ThemeSet|
                #[trigger] self.failed_at_plan(request, error, root, input, output, today, source, outcome, set)
        ||| exists|root: ProjectRoot, input: SandboxedPath, output: SandboxedPath, today: Date, source: String, outcome: ParseOutcome, set: ThemeSet, plan: LayoutPlan|
                #[trigger] self.failed_at_render(request, error, root, input, output, today, source, outcome, set, plan)
        ||| exists|root: ProjectRoot, input: SandboxedPath, output: SandboxedPath, today: Date, source: String, outcome: ParseOutcome, set: ThemeSet, plan: LayoutPlan, bytes: Vec<u8>|
                #[trigger] self.failed_at_write(request, error, root, input, output, today, source, outcome, set, plan, bytes)
    }

    /// Renders the document `request` names.
    ///
    /// The root is established first and both paths are confined to it before
    /// anything is read; the output is written only once the document has
    /// parsed, planned and rendered. The first failure is returned as it came.
    pub fn execute(&self, request: &RenderRequest) -> (r: Result<RenderReport, DomainError>)
        ensures
            r matches Ok(report) ==> self.completed(*request, report),
            r matches Err(error) ==> self.failed_with(*request, error),
    {
        let root = match ProjectRoot::new(request.project_root.as_str(), self.resolver) {
            Ok(root) => root,
            Err(e) => {
                proof {
                    let answer = choose|answer: Result<Seq<char>, ResolutionError>| #[trigger] self.resolver.resolves(request.project_root@, answer)
                        && (answer is Err || (answer matches Ok(location) && self.resolver.answers_directory(location, false)));
                    assert(self.ports_spec().0.resolves(request.project_root@, answer));
                    assert(self.failed_at_root(*request, e));
                }
                return Err(e);
            },
        };
        assert(self.root_ready(*request, root));
        let input = match SandboxedPath::resolve(request.input.as_str(), &root, self.resolver) {
            Ok(p) => p,
            Err(e) => {
                proof {
                    let answer = choose|answer: Result<Seq<char>, ResolutionError>| #[trigger] self.resolver.resolves(request.input@, answer)
                        && (answer is Err || (answer matches Ok(location) && !path_starts_with(location, root.resolved_spec())));
                    assert(self.ports_spec().0.resolves(request.input@, answer));
                    assert(self.path_refused(request.input@, root));
                    assert(self.failed_at_input(*request, e, root));
                }
                return Err(e);
            },
        };
        assert(self.path_ready(request.input@, root, input));
        let output = match SandboxedPath::resolve(request.output.as_str(), &root, self.resolver) {
            Ok(p) => p,
            Err(e) => {
                proof {
                    let answer = choose|answer: Result<Seq<char>, ResolutionError>| #[trigger] self.resolver.resolves(request.output@, answer)
                        && (answer is Err || (answer matches Ok(location) && !path_starts_with(location, root.resolved_spec())));
                    assert(self.ports_spec().0.resolves(request.output@, answer));
                    assert(self.path_refused(request.output@, root));
                    assert(self.failed_at_output(*request, e, root, input));
                }
                return Err(e);
            },
        };
        assert(self.path_ready(request.output@, root, output));

        let today = self.clock.today();
        assert(self.paths_ready(*request, root, input, output, today));
        let source = match self.sources.read(&input) {
            Ok(source) => source,
            Err(e) => {
                assert(self.failed_at_read(*request, e, root, input, output, today));
                return Err(e);
            },
        };
        assert(self.source_ready(*request, root, input, output, today, source));
        let outcome = match self.parser.parse(source.as_str(), input.as_requested(), today) {
            Ok(outcome) => outcome,
            Err(e) => {
                assert(self.failed_at_parse(*request, e, root, input, output, today, source));
                return Err(e);
            },
        };
        assert(self.parsed(*request, root, input, output, today, source, outcome));

        let themes = match self.themes.load() {
            Ok(themes) => themes,
            Err(e) => {
                assert(self.failed_at_load(*request, e, root, input, output, today, source, outcome));
                return Err(e);
            },
        };
        assert(self.loaded(*request, root, input, output, today, source, outcome, themes));
        let plan = match plan_document(&outcome.document, &themes) {
            Ok(plan) => plan,
            Err(e) => {
                assert(self.failed_at_plan(*request, e, root, input, output, today, source, outcome, themes));
                return Err(e);
            },
        };
        assert(self.planned(*request, root, input, output, today, source, outcome, themes, plan));

        let bytes = match self.renderer.render(&plan, input.as_requested(), today) {
            Ok(bytes) => bytes,
            Err(e) => {
                assert(self.failed_at_render(*request, e, root, input, output, today, source, outcome, themes, plan));
                return Err(e);
            },
        };
        assert(self.rendered(*request, root, input, output, today, source, outcome, themes, plan, bytes));
        let written = self.sources.write(&output, bytes.as_slice());
        assert(self.ports_spec().1.writes(output, bytes@, written));
        match written {
            Ok(()) => {},
            Err(e) => {
                assert(self.failed_at_write(*request, e, root, input, output, today, source, outcome, themes, plan, bytes));
                return Err(e);
            },
        }

        let ghost parsed = outcome;
        let report = RenderReport::of_render(&output, &bytes, outcome.skipped, &plan);
        assert(self.completed_with(*request, report, root, input, output, today, source, parsed, themes, plan, bytes, written));
        Ok(report)
    }
}

/// A request to render a document, as a caller across the boundary sends it.
#[derive(Debug, Clone, PartialEq, Eq, Default)]
pub struct RenderRequestDto {
    /// The AsciiDoc file to read.
    pub input: String,
    /// Where to write the PDF.
    pub output: String,
    /// The directory both must sit inside; absent asks for one to be derived,
    /// never for no confinement.
    pub project_root: Option<String>,
}

/// A construct the renderer left out, as it is reported across the boundary.
#[derive(Debug, Clone, PartialEq, Eq)]
pub struct SkippedConstructDto {
    /// What was skipped.
    pub construct: String,
    /// The 1-based line it appeared on.
    pub line: u32,
    /// The 1-based column it appeared at.
    pub column: u32,
}

/// The outcome of a render, as it is reported across the boundary.
#[derive(Debug, Clone, PartialEq, Eq, Default)]
pub struct RenderReportDto {
    /// Where the PDF was written.
    pub output: String,
    /// How many bytes it contains.
    pub bytes_written: u64,
    /// Everything left out, in source order.
    pub skipped: Vec<SkippedConstructDto>,
    /// How many page breaks the document's theme changes forced.
    pub forced_page_breaks: u32,
}

/// The root a request without one is confined to: the directory holding the
/// input, as `Path::parent` reads it, or the current directory when the input
/// names none.
pub open spec fn default_root(input: Seq<char>) -> Seq<char> {
    match parent_path(input) {
        Some(q) => if q.len() > 0 { q } else { seq!['.'] },
        None => seq!['.'],
    }
}

/// The root a request without one is confined to.
fn derived_root(input: &str) -> (r: String)
    ensures
        r@ == default_root(input@),
{
    proof {
        reveal_strlit(".");
    }
    match parent_of(input) {
        Some(parent) => {
            if parent.as_str().is_empty() {
                String::from_str(".")
            } else {
                parent
            }
        },
        None => String::from_str("."),
    }
}

/// The request the use case runs, from the one a caller sent: the paths as
/// given, and the root as given or derived from the input.
pub fn to_domain_request(dto: &RenderRequestDto) -> (r: RenderRequest)
    ensures
        r.input@ == dto.input@,
        r.output@ == dto.output@,
        r.project_root@ == (match dto.project_root {
            Some(root) => root@,
            None => default_root(dto.input@),
        }),
{
    let project_root = match &dto.project_root {
        Some(root) => root.clone(),
        None => derived_root(dto.input.as_str()),
    };
    RenderRequest { input: dto.input.clone(), output: dto.output.clone(), project_root }
}

/// The report a caller receives: the same facts, with the count of page
/// breaks capped at what the field holds.
pub fn from_domain_report(report: &RenderReport) -> (r: RenderReportDto)
    ensures
        r.output@ == report.output@,
        r.bytes_written == report.bytes_written,
        r.forced_page_breaks == (if report.forced_page_breaks <= u32::MAX { report.forced_page_breaks as u32 } else { u32::MAX }),
        r.skipped@.len() == report.skipped@.len(),
        forall|k: int| 0 <= k < r.skipped@.len() ==> {
            &&& (#[trigger] r.skipped@[k]).construct@ == report.skipped@[k].construct@
            &&& r.skipped@[k].line == report.skipped@[k].location.line
            &&& r.skipped@[k].column == report.skipped@[k].location.column
        },
{
    let mut skipped: Vec<SkippedConstructDto> = Vec::new();
    let mut i: usize = 0;
    while i < report.skipped.len()
        invariant
            i <= report.skipped@.len(),
            skipped@.len() == i,
            forall|k: int| 0 <= k < i ==> {
                &&& (#[trigger] skipped@[k]).construct@ == report.skipped@[k].construct@
                &&& skipped@[k].line == report.skipped@[k].location.line
                &&& skipped@[k].column == report.skipped@[k].location.column
            },
        decreases report.skipped.len() - i,
    {
        let s = &report.skipped[i];
        skipped.push(SkippedConstructDto {
            construct: s.construct.clone(),
            line: s.location.line,
            column: s.location.column,
        });
        i = i + 1;
    }
    let forced: u32 = if report.forced_page_breaks <= u32::MAX as usize {
        report.forced_page_breaks as u32
    } else {
        u32::MAX
    };
    RenderReportDto {
        output: report.output.clone(),
        bytes_written: report.bytes_written as u64,
        skipped,
        forced_page_breaks: forced,
    }
}

} // verus!

use std::cell::RefCell;

use adocpdf::document::{Block, Document, HeadingLevel, InlineText, Paragraph, Section};
use adocpdf::error::{DomainError, SourceLocation};
use adocpdf::plan::LayoutPlan;
use adocpdf::ports::{
    Clock, Date, DocumentParser, DocumentRenderer, ParseOutcome, SkippedConstruct, SourceStore,
    ThemeRepository,
};
use adocpdf::render::{RenderDocument, RenderReport, RenderRequest};
use adocpdf::sandbox::{PathResolver, ResolutionError, SandboxedPath};
use adocpdf::theme::{Theme, ThemeId, ThemeSet};

struct FakeResolver;

impl PathResolver for FakeResolver {
    fn resolve(&self, path: &str) -> Result<String, ResolutionError> {
        Ok(format!("/{}", path.strip_prefix('/').unwrap_or(path)))
    }

    fn is_directory(&self, path: &str) -> bool {
        path == "/project"
    }
}

struct FakeStore {
    source: Result<String, DomainError>,
    writes: RefCell<Vec<(String, usize)>>,
    write_result: Result<(), DomainError>,
}

impl FakeStore {
    fn holding(source: &str) -> Self {
        Self { source: Ok(source.to_owned()), writes: RefCell::new(Vec::new()), write_result: Ok(()) }
    }

    fn failing_to_read(error: DomainError) -> Self {
        Self { source: Err(error), writes: RefCell::new(Vec::new()), write_result: Ok(()) }
    }

    fn failing_to_write(error: DomainError) -> Self {
        Self { source: Ok("= Title\n".to_owned()), writes: RefCell::new(Vec::new()), write_result: Err(error) }
    }

    fn wrote_nothing(&self) -> bool {
        self.writes.borrow().is_empty()
    }
}

impl SourceStore for FakeStore {
    fn read(&self, _path: &SandboxedPath) -> Result<String, DomainError> {
        self.source.clone()
    }

    fn write(&self, path: &SandboxedPath, bytes: &[u8]) -> Result<(), DomainError> {
        self.writes.borrow_mut().push((path.as_path().to_owned(), bytes.len()));
        self.write_result.clone()
    }
}

struct FakeParser {
    outcome: Box<dyn Fn() -> Result<ParseOutcome, DomainError>>,
    seen_date: RefCell<Option<Date>>,
}

impl FakeParser {
    fn producing(document: fn() -> Document, skipped: Vec<SkippedConstruct>) -> Self {
        Self {
            outcome: Box::new(move || Ok(ParseOutcome { document: document(), skipped: skipped.clone() })),
            seen_date: RefCell::new(None),
        }
    }

    fn failing(error: DomainError) -> Self {
        Self { outcome: Box::new(move || Err(error.clone())), seen_date: RefCell::new(None) }
    }
}

impl DocumentParser for FakeParser {
    fn parse(&self, _source: &str, _origin: &str, today: Date) -> Result<ParseOutcome, DomainError> {
        *self.seen_date.borrow_mut() = Some(today);
        (self.outcome)()
    }
}

struct FakeThemes(Box<dyn Fn() -> Result<ThemeSet, DomainError>>);

impl ThemeRepository for FakeThemes {
    fn load(&self) -> Result<ThemeSet, DomainError> {
        (self.0)()
    }
}

fn default_themes() -> FakeThemes {
    FakeThemes(Box::new(|| Ok(ThemeSet::new(Theme::new(0, 0)))))
}

struct FakeRenderer {
    result: Result<Vec<u8>, DomainError>,
    seen_date: RefCell<Option<Date>>,
}

impl FakeRenderer {
    fn producing(bytes: &[u8]) -> Self {
        Self { result: Ok(bytes.to_vec()), seen_date: RefCell::new(None) }
    }

    fn failing(error: DomainError) -> Self {
        Self { result: Err(error), seen_date: RefCell::new(None) }
    }
}

impl DocumentRenderer for FakeRenderer {
    fn render(&self, _plan: &LayoutPlan, _origin: &str, today: Date) -> Result<Vec<u8>, DomainError> {
        *self.seen_date.borrow_mut() = Some(today);
        self.result.clone()
    }
}

struct FixedClock(Date);

impl Clock for FixedClock {
    fn today(&self) -> Date {
        self.0
    }
}

fn a_date() -> Date {
    Date::new(2026, 8, 16).unwrap()
}

fn a_document() -> Document {
    Document::new()
        .with_title(InlineText::new("Report"))
        .with_block(Block::Paragraph(Paragraph::new(InlineText::new("Body."))))
}

fn a_request() -> RenderRequest {
    RenderRequest {
        input: "/project/book.adoc".to_owned(),
        output: "/project/book.pdf".to_owned(),
        project_root: "/project".to_owned(),
    }
}

struct Fixture {
    store: FakeStore,
    parser: FakeParser,
    themes: FakeThemes,
    renderer: FakeRenderer,
    clock: FixedClock,
}

impl Fixture {
    fn new() -> Self {
        Self {
            store: FakeStore::holding("= Report\n"),
            parser: FakeParser::producing(a_document, Vec::new()),
            themes: default_themes(),
            renderer: FakeRenderer::producing(b"%PDF-1.7 fake"),
            clock: FixedClock(a_date()),
        }
    }

    fn run(&self) -> Result<RenderReport, DomainError> {
        self.run_request(&a_request())
    }

    fn run_request(&self, request: &RenderRequest) -> Result<RenderReport, DomainError> {
        RenderDocument::new(&FakeResolver, &self.store, &self.parser, &self.themes, &self.renderer, &self.clock)
            .execute(request)
    }
}

#[test]
fn a_document_renders_end_to_end() {
    let fixture = Fixture::new();

    let report = fixture.run().unwrap();

    assert_eq!(report.output, "/project/book.pdf");
    assert_eq!(report.bytes_written, b"%PDF-1.7 fake".len());
    assert!(report.is_complete());
}

#[test]
fn the_rendered_bytes_are_the_ones_written() {
    let fixture = Fixture::new();

    fixture.run().unwrap();

    let writes = fixture.store.writes.borrow();
    assert_eq!(writes.as_slice(), &[("/project/book.pdf".to_owned(), b"%PDF-1.7 fake".len())]);
}

#[test]
fn the_injected_date_reaches_both_the_parser_and_the_renderer() {
    let fixture = Fixture::new();

    fixture.run().unwrap();

    assert_eq!(*fixture.parser.seen_date.borrow(), Some(a_date()));
    assert_eq!(*fixture.renderer.seen_date.borrow(), Some(a_date()));
}

#[test]
fn skipped_constructs_are_reported_rather_than_swallowed() {
    let skipped = vec![SkippedConstruct { construct: "table".to_owned(), location: SourceLocation::new(9, 1) }];
    let fixture = Fixture { parser: FakeParser::producing(a_document, skipped.clone()), ..Fixture::new() };

    let report = fixture.run().unwrap();

    assert_eq!(report.skipped, skipped);
    assert!(!report.is_complete());
}

#[test]
fn forced_page_breaks_are_counted() {
    fn document() -> Document {
        Document::new().with_block(Block::Section(
            Section::new(InlineText::new("Wide"), HeadingLevel::new(1).unwrap())
                .with_theme(ThemeId::new("wide").unwrap())
                .with_block(Block::Paragraph(Paragraph::new(InlineText::new("Body.")))),
        ))
    }
    let fixture = Fixture {
        parser: FakeParser::producing(document, Vec::new()),
        themes: FakeThemes(Box::new(|| {
            Ok(ThemeSet::new(Theme::new(0, 0)).with(ThemeId::new("wide").unwrap(), Theme::new(1, 0)))
        })),
        ..Fixture::new()
    };

    let report = fixture.run().unwrap();

    assert_eq!(report.forced_page_breaks, 1);
}

#[test]
fn a_missing_source_leaves_no_output_file() {
    let fixture = Fixture {
        store: FakeStore::failing_to_read(DomainError::InputNotFound { path: "/project/book.adoc".to_owned() }),
        ..Fixture::new()
    };

    let error = fixture.run().unwrap_err();

    assert!(matches!(error, DomainError::InputNotFound { .. }));
    assert!(fixture.store.wrote_nothing());
}

#[test]
fn a_parse_failure_leaves_no_output_file() {
    let fixture = Fixture {
        parser: FakeParser::failing(DomainError::ParseFailed {
            path: "/project/book.adoc".to_owned(),
            location: SourceLocation::new(3, 1),
            reason: "unterminated block".to_owned(),
        }),
        ..Fixture::new()
    };

    let error = fixture.run().unwrap_err();

    assert!(matches!(error, DomainError::ParseFailed { .. }));
    assert!(fixture.store.wrote_nothing());
}

#[test]
fn an_invalid_theme_leaves_no_output_file() {
    let fixture = Fixture {
        themes: FakeThemes(Box::new(|| {
            Err(DomainError::InvalidTheme {
                id: "narrow".to_owned(),
                reason: "margins leave no printable width".to_owned(),
            })
        })),
        ..Fixture::new()
    };

    let error = fixture.run().unwrap_err();

    assert!(matches!(error, DomainError::InvalidTheme { .. }));
    assert!(fixture.store.wrote_nothing());
}

#[test]
fn an_unknown_theme_leaves_no_output_file() {
    fn document() -> Document {
        Document::new().with_block(Block::Section(
            Section::new(InlineText::new("Appendix"), HeadingLevel::new(1).unwrap())
                .with_theme(ThemeId::new("absent").unwrap()),
        ))
    }
    let fixture = Fixture { parser: FakeParser::producing(document, Vec::new()), ..Fixture::new() };

    let error = fixture.run().unwrap_err();

    assert!(matches!(error, DomainError::UnknownTheme { .. }));
    assert!(fixture.store.wrote_nothing());
}

#[test]
fn a_layout_failure_leaves_no_output_file() {
    let fixture = Fixture {
        renderer: FakeRenderer::failing(DomainError::LayoutFailed {
            path: "/project/book.adoc".to_owned(),
            reason: "cannot fit".to_owned(),
        }),
        ..Fixture::new()
    };

    let error = fixture.run().unwrap_err();

    assert!(matches!(error, DomainError::LayoutFailed { .. }));
    assert!(fixture.store.wrote_nothing());
}

#[test]
fn an_unwritable_output_is_reported_as_such() {
    let fixture = Fixture {
        store: FakeStore::failing_to_write(DomainError::OutputUnwritable {
            path: "/project/book.pdf".to_owned(),
            reason: "permission denied".to_owned(),
        }),
        ..Fixture::new()
    };

    let error = fixture.run().unwrap_err();

    assert!(matches!(error, DomainError::OutputUnwritable { .. }));
}

#[test]
fn an_input_outside_the_project_root_is_refused_before_anything_is_read() {
    let fixture = Fixture::new();

    let error = fixture
        .run_request(&RenderRequest {
            input: "/elsewhere/book.adoc".to_owned(),
            output: "/project/book.pdf".to_owned(),
            project_root: "/project".to_owned(),
        })
        .unwrap_err();

    assert!(matches!(error, DomainError::PathOutsideRoot { .. }));
    assert!(fixture.store.wrote_nothing());
    assert!(fixture.parser.seen_date.borrow().is_none(), "confinement must be checked before the source is parsed");
}

#[test]
fn an_output_outside_the_project_root_is_refused() {
    let fixture = Fixture::new();

    let error = fixture
        .run_request(&RenderRequest {
            input: "/project/book.adoc".to_owned(),
            output: "/elsewhere/book.pdf".to_owned(),
            project_root: "/project".to_owned(),
        })
        .unwrap_err();

    assert!(matches!(error, DomainError::PathOutsideRoot { .. }));
    assert!(fixture.store.wrote_nothing());
}

#[test]
fn an_unusable_project_root_is_refused_first() {
    let fixture = Fixture::new();

    let error = fixture
        .run_request(&RenderRequest {
            input: "/nowhere/book.adoc".to_owned(),
            output: "/nowhere/book.pdf".to_owned(),
            project_root: "/nowhere".to_owned(),
        })
        .unwrap_err();

    assert!(matches!(error, DomainError::RootNotADirectory { .. }));
    assert!(fixture.store.wrote_nothing());
}

use adocpdf::cli::{parse_date, Cli};
use adocpdf::error::{DomainError, SourceLocation};
use adocpdf::exit::{code_for, is_confinement, NO_PERMISSION, USAGE};
use adocpdf::ports::Date;
use adocpdf::presenter::{omission_line, omission_lines, produced_line};
use adocpdf::render::{RenderReportDto, SkippedConstructDto};

fn every_failure_class() -> Vec<DomainError> {
    vec![
        DomainError::InputNotFound { path: "in.adoc".to_owned() },
        DomainError::InputUnreadable { path: "in.adoc".to_owned(), reason: "busy".to_owned() },
        DomainError::ParseFailed { path: "in.adoc".to_owned(), location: SourceLocation::start(), reason: "bad".to_owned() },
        DomainError::OutputUnwritable { path: "out.pdf".to_owned(), reason: "denied".to_owned() },
        DomainError::LayoutFailed { path: "in.adoc".to_owned(), reason: "cannot fit".to_owned() },
        DomainError::InvalidTheme { id: "narrow".to_owned(), reason: "no printable width".to_owned() },
        DomainError::UnknownTheme { id: "absent".to_owned(), section: "Appendix".to_owned() },
        DomainError::PathOutsideRoot { requested: "x".to_owned(), root: "/p".to_owned() },
        DomainError::ReferenceOutsideRoot {
            reference: "include::x[]".to_owned(),
            location: SourceLocation::start(),
            path: "in.adoc".to_owned(),
            root: "/p".to_owned(),
        },
        DomainError::RootNotADirectory { root: "/nowhere".to_owned() },
    ]
}

#[test]
fn a_missing_input_is_distinct_from_an_unreadable_one() {
    assert_ne!(
        code_for(&DomainError::InputNotFound { path: "in.adoc".to_owned() }),
        code_for(&DomainError::InputUnreadable { path: "in.adoc".to_owned(), reason: "busy".to_owned() })
    );
}

#[test]
fn writing_parsing_and_laying_out_fail_with_different_codes() {
    let write = code_for(&DomainError::OutputUnwritable { path: "out.pdf".to_owned(), reason: "denied".to_owned() });
    let parse = code_for(&DomainError::ParseFailed {
        path: "in.adoc".to_owned(),
        location: SourceLocation::start(),
        reason: "bad".to_owned(),
    });
    let layout = code_for(&DomainError::LayoutFailed { path: "in.adoc".to_owned(), reason: "cannot fit".to_owned() });

    assert_ne!(write, parse);
    assert_ne!(write, layout);
    assert_ne!(parse, layout);
}

#[test]
fn every_confinement_failure_shares_one_code() {
    let outside = code_for(&DomainError::PathOutsideRoot { requested: "x".to_owned(), root: "/p".to_owned() });
    let root = code_for(&DomainError::RootNotADirectory { root: "/nowhere".to_owned() });

    assert_eq!(outside, root, "a caller only needs to know the sandbox refused it");
    assert_eq!(outside, NO_PERMISSION);
}

#[test]
fn no_failure_reports_success() {
    for error in every_failure_class() {
        assert_ne!(code_for(&error), 0, "{} must not be mistaken for success", error.message());
    }
}

#[test]
fn usage_is_distinct_from_every_render_failure() {
    for error in every_failure_class() {
        assert_ne!(code_for(&error), USAGE, "{} is not a usage problem", error.message());
    }
}

#[test]
fn each_failure_has_its_conventional_code() {
    let codes: Vec<u8> = every_failure_class().iter().map(code_for).collect();
    assert_eq!(codes, [66, 65, 65, 73, 70, 65, 65, 77, 77, 77]);
}

fn report(skipped: Vec<SkippedConstructDto>) -> RenderReportDto {
    RenderReportDto { output: "/project/out.pdf".to_owned(), bytes_written: 16_556, skipped, forced_page_breaks: 0 }
}

fn skipped(construct: &str, line: u32, column: u32) -> SkippedConstructDto {
    SkippedConstructDto { construct: construct.to_owned(), line, column }
}

#[test]
fn a_complete_render_is_announced_as_a_path_and_a_size() {
    assert_eq!(produced_line(&report(Vec::new())), "wrote /project/out.pdf (16556 bytes)");
}

#[test]
fn a_complete_render_warns_about_nothing() {
    assert!(omission_lines(&report(Vec::new())).is_empty(), "nothing was left out, so there is nothing to warn about");
}

#[test]
fn each_omission_is_named_and_placed_before_the_count() {
    let report = report(vec![skipped("table", 5, 1), skipped("table", 11, 1)]);

    assert_eq!(
        omission_lines(&report),
        [
            "adocpdf: skipped table at line 5, column 1",
            "adocpdf: skipped table at line 11, column 1",
            "adocpdf: 2 construct(s) were not rendered",
        ]
    );
}

#[test]
fn a_position_is_spelled_the_way_the_domain_spells_it() {
    assert_eq!(omission_line(&skipped("admonition", 42, 7)), "adocpdf: skipped admonition at line 42, column 7");
    assert!(omission_line(&skipped("admonition", 42, 7)).ends_with(&SourceLocation::new(42, 7).message()));
}

#[test]
fn a_well_formed_date_is_accepted() {
    assert_eq!(parse_date("2026-08-16"), Ok(Date::new(2026, 8, 16).unwrap()));
}

#[test]
fn a_date_with_too_few_parts_is_rejected() {
    assert!(parse_date("2026-08").is_err());
}

#[test]
fn a_date_with_too_many_parts_is_rejected() {
    assert!(parse_date("2026-08-16-01").is_err());
}

#[test]
fn a_date_with_a_non_numeric_part_is_rejected() {
    let error = parse_date("2026-aug-16").expect_err("months are numbers here");

    assert!(error.contains("month"), "got: {error}");
}

#[test]
fn an_impossible_date_is_rejected() {
    assert!(parse_date("2026-13-01").is_err());
    assert!(parse_date("2026-01-32").is_err());
}

#[test]
fn a_date_refusal_says_which_part_is_wrong() {
    assert_eq!(parse_date("2026-08").unwrap_err(), "--date must look like YYYY-MM-DD, got \"2026-08\"");
    assert_eq!(parse_date("x-08-16").unwrap_err(), "--date has an unreadable year: \"x\"");
    assert_eq!(parse_date("2026-08-").unwrap_err(), "--date has an unreadable day: \"\"");
    assert_eq!(parse_date("2026-13-01").unwrap_err(), "--date is not a date: month must be between 1 and 12, got 13");
    assert_eq!(parse_date("2026-300-01").unwrap_err(), "--date has an unreadable month: \"300\"");
    assert_eq!(parse_date("+2026-+8-16"), Ok(Date::new(2026, 8, 16).unwrap()));
}

#[test]
fn a_refused_date_is_quoted_the_way_a_debug_rendering_quotes_it() {
    assert_eq!(parse_date("2026\n08").unwrap_err(), "--date must look like YYYY-MM-DD, got \"2026\\n08\"");
    assert_eq!(parse_date("it's").unwrap_err(), "--date must look like YYYY-MM-DD, got \"it's\"");
    assert_eq!(parse_date("\"q\"").unwrap_err(), "--date must look like YYYY-MM-DD, got \"\\\"q\\\"\"");
    assert_eq!(parse_date("e\u{301}").unwrap_err(), "--date must look like YYYY-MM-DD, got \"e\\u{301}\"");
    assert_eq!(parse_date("soft\u{ad}").unwrap_err(), "--date must look like YYYY-MM-DD, got \"soft\\u{ad}\"");
    assert_eq!(parse_date("caf\u{e9}").unwrap_err(), format!("--date must look like YYYY-MM-DD, got {:?}", "caf\u{e9}"));
}

#[test]
fn confinement_failures_are_recognisable() {
    assert!(is_confinement(&DomainError::PathOutsideRoot { requested: "x".to_owned(), root: "/p".to_owned() }));
    assert!(!is_confinement(&DomainError::InputNotFound { path: "x".to_owned() }));
}

fn cli(project_root: Option<&str>) -> Cli {
    Cli {
        input: "book.adoc".to_owned(),
        output: "book.pdf".to_owned(),
        project_root: project_root.map(str::to_owned),
        date: None,
    }
}

#[test]
fn the_request_carries_the_paths_across() {
    let request = cli(Some("/project")).to_request();

    assert_eq!(request.input, "book.adoc");
    assert_eq!(request.output, "book.pdf");
    assert_eq!(request.project_root.as_deref(), Some("/project"));
}

#[test]
fn an_absent_root_stays_absent_in_the_request() {
    let request = cli(None).to_request();

    assert!(request.project_root.is_none(), "deriving the default is not the CLI's decision to make");
}

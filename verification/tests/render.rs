use adocpdf::error::SourceLocation;
use adocpdf::ports::SkippedConstruct;
use adocpdf::render::{
    from_domain_report, to_domain_request, RenderReport, RenderReportDto, RenderRequestDto,
    SkippedConstructDto,
};

#[test]
fn a_request_carries_the_three_paths_it_needs() {
    let request = RenderRequestDto {
        input: "book.adoc".to_owned(),
        output: "book.pdf".to_owned(),
        project_root: Some("/project".to_owned()),
    };

    assert_eq!(request.input, "book.adoc");
    assert_eq!(request.project_root.as_deref(), Some("/project"));
}

#[test]
fn a_request_without_a_root_leaves_it_unset() {
    let request = RenderRequestDto {
        input: "book.adoc".to_owned(),
        output: "book.pdf".to_owned(),
        project_root: None,
    };

    assert!(
        request.project_root.is_none(),
        "an absent root asks the application to derive one, not to skip confinement"
    );
}

#[test]
fn a_report_with_no_skipped_constructs_lists_none() {
    let report = RenderReportDto {
        output: "book.pdf".to_owned(),
        bytes_written: 1024,
        skipped: Vec::new(),
        forced_page_breaks: 0,
    };

    assert!(report.skipped.is_empty());
}

#[test]
fn a_report_keeps_skipped_constructs_in_order() {
    let report = RenderReportDto {
        output: "book.pdf".to_owned(),
        bytes_written: 2048,
        skipped: vec![
            SkippedConstructDto { construct: "table".to_owned(), line: 4, column: 1 },
            SkippedConstructDto { construct: "admonition".to_owned(), line: 9, column: 1 },
        ],
        forced_page_breaks: 2,
    };

    let lines: Vec<u32> = report.skipped.iter().map(|s| s.line).collect();
    assert_eq!(lines, [4, 9]);
}

#[test]
fn a_supplied_root_is_used_as_given() {
    let dto = RenderRequestDto {
        input: "/project/book.adoc".to_owned(),
        output: "/project/book.pdf".to_owned(),
        project_root: Some("/project".to_owned()),
    };

    let request = to_domain_request(&dto);

    assert_eq!(request.project_root, "/project");
}

#[test]
fn an_absent_root_defaults_to_the_input_directory() {
    let dto = RenderRequestDto {
        input: "/project/chapters/book.adoc".to_owned(),
        output: "/project/chapters/book.pdf".to_owned(),
        project_root: None,
    };

    let request = to_domain_request(&dto);

    assert_eq!(request.project_root, "/project/chapters", "the default must still be a real directory to confine against");
}

#[test]
fn a_bare_file_name_defaults_to_the_current_directory() {
    let dto = RenderRequestDto {
        input: "book.adoc".to_owned(),
        output: "book.pdf".to_owned(),
        project_root: None,
    };

    let request = to_domain_request(&dto);

    assert_eq!(request.project_root, ".");
}

#[test]
fn a_report_round_trips_its_skipped_constructs() {
    let report = RenderReport {
        output: "/project/book.pdf".to_owned(),
        bytes_written: 4096,
        skipped: vec![SkippedConstruct { construct: "table".to_owned(), location: SourceLocation::new(7, 3) }],
        forced_page_breaks: 2,
    };

    let dto = from_domain_report(&report);

    assert_eq!(dto.output, "/project/book.pdf");
    assert_eq!(dto.bytes_written, 4096);
    assert_eq!(dto.forced_page_breaks, 2);
    assert_eq!(dto.skipped.len(), 1);
    assert_eq!(dto.skipped[0].construct, "table");
    assert_eq!((dto.skipped[0].line, dto.skipped[0].column), (7, 3));
}

#[test]
fn a_complete_report_lists_nothing_skipped() {
    let report = RenderReport {
        output: "/project/book.pdf".to_owned(),
        bytes_written: 10,
        skipped: Vec::new(),
        forced_page_breaks: 0,
    };

    assert!(from_domain_report(&report).skipped.is_empty());
    assert!(report.is_complete());
}

#[test]
fn a_request_keeps_the_paths_it_was_given() {
    let dto = RenderRequestDto {
        input: "in.adoc".to_owned(),
        output: "out.pdf".to_owned(),
        project_root: Some(".".to_owned()),
    };

    let request = to_domain_request(&dto);

    assert_eq!(request.input, "in.adoc");
    assert_eq!(request.output, "out.pdf");
}

#[test]
fn a_derived_root_drops_trailing_separators_and_stops_at_the_root() {
    let root = |input: &str| {
        to_domain_request(&RenderRequestDto { input: input.to_owned(), output: "o.pdf".to_owned(), project_root: None })
            .project_root
    };
    assert_eq!(root("/book.adoc"), "/");
    assert_eq!(root("/"), ".");
    assert_eq!(root("a//b.adoc"), "a");
    assert_eq!(root("dir/sub/"), "dir");
    assert_eq!(root(""), ".");
}

#[test]
fn a_derived_root_reads_current_directory_components_as_paths_do() {
    let root = |input: &str| {
        to_domain_request(&RenderRequestDto { input: input.to_owned(), output: "o.pdf".to_owned(), project_root: None })
            .project_root
    };
    assert_eq!(root("chapters/./intro.adoc"), "chapters");
    assert_eq!(root("./book.adoc"), ".");
    assert_eq!(root("book/."), ".");
    assert_eq!(root("a/b/../c.adoc"), "a/b/..");
}

#[test]
fn a_huge_page_break_count_is_capped() {
    let report = RenderReport {
        output: "o.pdf".to_owned(),
        bytes_written: 1,
        skipped: Vec::new(),
        forced_page_breaks: usize::MAX,
    };
    assert_eq!(from_domain_report(&report).forced_page_breaks, u32::MAX);
}

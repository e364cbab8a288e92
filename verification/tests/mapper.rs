use adocpdf::document::{
    AdmonitionKind, Block, BreakKind, ContainerKind, ListKind, QuotationKind, VerbatimKind,
};
use adocpdf::error::SourceLocation;
use adocpdf::inline::{unsupported, wrap};
use adocpdf::document::InlineStyle;
use adocpdf::mapper::{describe, location_of, map_document, OtherKind, SimpleStyle, SourceBlock, SourceSpan};
use adocpdf::ports::ParseOutcome;
use adocpdf::presentation::{Alignment, ListForm, ListMarker};

fn at(line: usize, col: usize) -> SourceSpan {
    SourceSpan { line, col }
}

fn paragraph(rendered: &str, roles: &[&str], line: usize) -> SourceBlock {
    SourceBlock::Simple {
        style: SimpleStyle::Paragraph,
        rendered: rendered.to_string(),
        roles: roles.iter().map(|r| r.to_string()).collect(),
        title: None,
        span: at(line, 1),
    }
}

fn item(children: Vec<SourceBlock>, checkbox: Option<bool>, line: usize) -> SourceBlock {
    SourceBlock::ListItem { children, term: None, checkbox, span: at(line, 1) }
}

fn list(kind: ListKind, items: Vec<SourceBlock>, style: Option<&str>, start: Option<&str>, roles: &[&str]) -> SourceBlock {
    let checklist = items
        .iter()
        .any(|i| matches!(i, SourceBlock::ListItem { checkbox: Some(_), .. }));
    SourceBlock::List {
        kind,
        children: items,
        checklist,
        has_attributes: style.is_some() || start.is_some() || !roles.is_empty(),
        style: style.map(|s| s.to_string()),
        start: start.map(|s| s.to_string()),
        roles: roles.iter().map(|r| r.to_string()).collect(),
        title: None,
        span: at(1, 1),
    }
}

fn outcome(blocks: Vec<SourceBlock>) -> ParseOutcome {
    map_document(&None, &blocks, &Vec::new())
}

fn skipped(o: &ParseOutcome) -> Vec<String> {
    o.skipped.iter().map(|s| s.construct.clone()).collect()
}

#[test]
fn a_paragraph_becomes_a_paragraph_and_reports_nothing() {
    let o = outcome(vec![paragraph("Hello, world.", &[], 1)]);
    assert_eq!(o.document.body().len(), 1);
    match &o.document.body()[0] {
        Block::Paragraph(p) => {
            assert_eq!(p.text().plain_text(), "Hello, world.");
            assert!(p.presentation().is_body());
        }
        other => panic!("expected a paragraph, got {other:?}"),
    }
    assert!(o.skipped.is_empty());
}

#[test]
fn a_paragraph_of_nothing_but_whitespace_is_dropped() {
    let o = outcome(vec![paragraph("   \n  ", &[], 1)]);
    assert!(o.document.body().is_empty());
    assert!(o.skipped.is_empty());
}

#[test]
fn trailing_whitespace_of_a_paragraph_is_not_text() {
    let o = outcome(vec![paragraph("Words.  \n", &[], 1)]);
    match &o.document.body()[0] {
        Block::Paragraph(p) => assert_eq!(p.text().plain_text(), "Words."),
        other => panic!("expected a paragraph, got {other:?}"),
    }
}

#[test]
fn paragraph_roles_set_the_presentation_and_unknown_ones_are_reported() {
    let o = outcome(vec![paragraph("Text.", &["lead", "text-center", "fancy"], 7)]);
    match &o.document.body()[0] {
        Block::Paragraph(p) => {
            assert!(p.presentation().is_lead());
            assert_eq!(p.presentation().alignment(), Some(Alignment::Center));
        }
        other => panic!("expected a paragraph, got {other:?}"),
    }
    assert_eq!(skipped(&o), [r#"role "fancy""#]);
    assert_eq!(o.skipped[0].location, SourceLocation::new(7, 1));
}

#[test]
fn the_last_alignment_role_wins() {
    let o = outcome(vec![paragraph("Text.", &["text-right", "text-justify"], 1)]);
    match &o.document.body()[0] {
        Block::Paragraph(p) => assert_eq!(p.presentation().alignment(), Some(Alignment::Justify)),
        other => panic!("expected a paragraph, got {other:?}"),
    }
}

#[test]
fn styled_text_survives_the_mapping() {
    let mut rendered = String::from("a ");
    wrap(InlineStyle::Strong, "bold", &mut rendered);
    rendered.push_str(" word");
    let o = outcome(vec![paragraph(&rendered, &[], 1)]);
    match &o.document.body()[0] {
        Block::Paragraph(p) => {
            assert_eq!(p.text().plain_text(), "a bold word");
            assert_eq!(p.text().nodes().len(), 3);
        }
        other => panic!("expected a paragraph, got {other:?}"),
    }
}

#[test]
fn an_unsupported_inline_construct_is_reported_where_its_block_starts() {
    let mut rendered = String::from("See ");
    unsupported("footnote", "the note", &mut rendered);
    let o = outcome(vec![paragraph(&rendered, &[], 3)]);
    assert_eq!(skipped(&o), ["footnote"]);
    assert_eq!(o.skipped[0].location, SourceLocation::new(3, 1));
    match &o.document.body()[0] {
        Block::Paragraph(p) => assert_eq!(p.text().plain_text(), "See the note"),
        other => panic!("expected a paragraph, got {other:?}"),
    }
}

#[test]
fn a_comment_block_disappears_without_a_report() {
    let o = outcome(vec![SourceBlock::RawDelimited {
        context: "comment".to_string(),
        rendered: "secret".to_string(),
        title: None,
        span: at(1, 1),
    }]);
    assert!(o.document.body().is_empty());
    assert!(o.skipped.is_empty());
}

#[test]
fn a_delimited_listing_keeps_its_text_as_written() {
    let o = outcome(vec![SourceBlock::RawDelimited {
        context: "listing".to_string(),
        rendered: "fn main() {\n    run();\n}\n\n".to_string(),
        title: None,
        span: at(1, 1),
    }]);
    match &o.document.body()[0] {
        Block::Verbatim(v) => {
            assert_eq!(v.kind(), VerbatimKind::Listing);
            assert_eq!(v.content(), "fn main() {\n    run();\n}");
        }
        other => panic!("expected a verbatim block, got {other:?}"),
    }
}

#[test]
fn the_context_names_the_verbatim_kind() {
    for (context, kind) in [
        ("literal", VerbatimKind::Literal),
        ("source", VerbatimKind::Source),
        ("pass", VerbatimKind::Listing),
    ] {
        let o = outcome(vec![SourceBlock::RawDelimited {
            context: context.to_string(),
            rendered: "x".to_string(),
            title: None,
            span: at(1, 1),
        }]);
        match &o.document.body()[0] {
            Block::Verbatim(v) => assert_eq!(v.kind(), kind, "for {context}"),
            other => panic!("expected a verbatim block, got {other:?}"),
        }
    }
}

#[test]
fn an_indented_literal_paragraph_is_verbatim() {
    let o = outcome(vec![SourceBlock::Simple {
        style: SimpleStyle::Literal,
        rendered: " keep  this".to_string(),
        roles: Vec::new(),
        title: None,
        span: at(1, 1),
    }]);
    match &o.document.body()[0] {
        Block::Verbatim(v) => {
            assert_eq!(v.kind(), VerbatimKind::Literal);
            assert_eq!(v.content(), " keep  this");
        }
        other => panic!("expected a verbatim block, got {other:?}"),
    }
}

#[test]
fn a_block_title_wraps_the_block() {
    let o = outcome(vec![SourceBlock::Simple {
        style: SimpleStyle::Paragraph,
        rendered: "Body.".to_string(),
        roles: Vec::new(),
        title: Some("A title".to_string()),
        span: at(1, 1),
    }]);
    match &o.document.body()[0] {
        Block::Titled { title, block } => {
            assert_eq!(title.plain_text(), "A title");
            assert!(matches!(**block, Block::Paragraph(_)));
        }
        other => panic!("expected a titled block, got {other:?}"),
    }
}

#[test]
fn a_floating_title_is_a_heading_with_its_level_clamped() {
    for (level, expected) in [(0usize, 1u8), (3, 3), (9, 6)] {
        let o = outcome(vec![SourceBlock::FloatingTitle {
            title: "Aside".to_string(),
            level,
            span: at(1, 1),
        }]);
        match &o.document.body()[0] {
            Block::Heading { text, level } => {
                assert_eq!(text.plain_text(), "Aside");
                assert_eq!(level.get(), expected);
            }
            other => panic!("expected a heading, got {other:?}"),
        }
    }
}

#[test]
fn a_section_keeps_its_heading_level_theme_and_body() {
    let o = outcome(vec![SourceBlock::Section {
        title: "Part".to_string(),
        level: 1,
        theme: Some("wide".to_string()),
        children: vec![paragraph("Inside.", &[], 3)],
        span: at(1, 1),
    }]);
    match &o.document.body()[0] {
        Block::Section(s) => {
            assert_eq!(s.heading().plain_text(), "Part");
            assert_eq!(s.level().get(), 1);
            assert_eq!(s.theme().map(|t| t.as_str().to_string()), Some("wide".to_string()));
            assert_eq!(s.body().len(), 1);
        }
        other => panic!("expected a section, got {other:?}"),
    }
    assert!(o.skipped.is_empty());
}

#[test]
fn a_malformed_theme_attribute_is_reported_and_ignored() {
    let o = outcome(vec![SourceBlock::Section {
        title: "Part".to_string(),
        level: 1,
        theme: Some("Not Valid!".to_string()),
        children: Vec::new(),
        span: at(5, 1),
    }]);
    match &o.document.body()[0] {
        Block::Section(s) => assert!(s.theme().is_none()),
        other => panic!("expected a section, got {other:?}"),
    }
    assert_eq!(o.skipped.len(), 1);
    assert!(
        o.skipped[0].construct.starts_with(r#"theme attribute "Not Valid!" ("#),
        "got {:?}",
        o.skipped[0].construct
    );
    assert_eq!(o.skipped[0].location, SourceLocation::new(5, 1));
}

#[test]
fn a_block_nothing_here_maps_is_reported_by_its_name() {
    let o = outcome(vec![
        SourceBlock::Other { kind: OtherKind::Table, span: at(2, 1) },
        SourceBlock::Other { kind: OtherKind::Media, span: at(4, 3) },
    ]);
    assert!(o.document.body().is_empty());
    assert_eq!(skipped(&o), ["table", "image, video or audio block"]);
    assert_eq!(o.skipped[1].location, SourceLocation::new(4, 3));
}

#[test]
fn each_kind_of_other_block_has_a_name() {
    assert_eq!(describe(OtherKind::Media), "image, video or audio block");
    assert_eq!(describe(OtherKind::Table), "table");
    assert_eq!(describe(OtherKind::TableOfContents), "table of contents");
    assert_eq!(describe(OtherKind::Unknown), "block");
}

#[test]
fn a_location_that_does_not_fit_is_reported_as_the_first_line() {
    assert_eq!(location_of(at(12, 4)), SourceLocation::new(12, 4));
    let huge = (u32::MAX as usize).saturating_add(1);
    if huge > u32::MAX as usize {
        assert_eq!(location_of(at(huge, 2)), SourceLocation::new(1, 2));
    }
}

#[test]
fn a_list_item_outside_a_list_is_reported() {
    let o = outcome(vec![item(vec![paragraph("x", &[], 1)], None, 6)]);
    assert!(o.document.body().is_empty());
    assert_eq!(skipped(&o), ["list item"]);
    assert_eq!(o.skipped[0].location, SourceLocation::new(6, 1));
}

#[test]
fn a_preamble_is_transparent() {
    let o = outcome(vec![
        SourceBlock::Preamble { children: vec![paragraph("One.", &[], 1), paragraph("Two.", &[], 3)] },
        SourceBlock::DocumentAttribute,
        SourceBlock::Break(BreakKind::Page),
    ]);
    assert_eq!(o.document.body().len(), 3);
    assert!(matches!(o.document.body()[2], Block::Break(BreakKind::Page)));
}

#[test]
fn list_items_keep_their_bodies_and_checkboxes() {
    let o = outcome(vec![list(
        ListKind::Unordered,
        vec![
            item(vec![paragraph("done", &[], 1)], Some(true), 1),
            item(vec![paragraph("todo", &[], 2)], Some(false), 2),
            item(vec![paragraph("plain", &[], 3)], None, 3),
        ],
        None,
        None,
        &[],
    )]);
    match &o.document.body()[0] {
        Block::List(l) => {
            assert_eq!(l.kind(), ListKind::Unordered);
            assert_eq!(l.presentation().form(), ListForm::Checklist);
            assert_eq!(l.items().len(), 3);
            assert_eq!(l.items()[0].checkbox(), Some(true));
            assert_eq!(l.items()[1].checkbox(), Some(false));
            assert_eq!(l.items()[2].checkbox(), None);
        }
        other => panic!("expected a list, got {other:?}"),
    }
    assert!(o.skipped.is_empty());
}

#[test]
fn a_marker_style_and_a_start_are_read_from_the_attribute_list() {
    let o = outcome(vec![
        list(ListKind::Unordered, vec![item(vec![], None, 1)], Some("circle"), None, &[]),
        list(ListKind::Ordered, vec![item(vec![], None, 1)], None, Some(" 4 "), &[]),
        list(ListKind::Description, vec![item(vec![], None, 1)], Some("qanda"), None, &[]),
    ]);
    match (&o.document.body()[0], &o.document.body()[1], &o.document.body()[2]) {
        (Block::List(a), Block::List(b), Block::List(c)) => {
            assert_eq!(a.presentation().marker(), Some(ListMarker::Circle));
            assert_eq!(b.presentation().start().get(), 4);
            assert_eq!(c.presentation().form(), ListForm::QuestionsAndAnswers);
        }
        other => panic!("expected three lists, got {other:?}"),
    }
    assert!(o.skipped.is_empty());
}

#[test]
fn an_unknown_list_style_a_bad_start_and_a_role_are_reported() {
    let o = outcome(vec![list(
        ListKind::Ordered,
        vec![item(vec![], None, 1)],
        Some("loweralpha"),
        Some("four"),
        &["tight"],
    )]);
    match &o.document.body()[0] {
        Block::List(l) => assert_eq!(l.presentation().start().get(), 1),
        other => panic!("expected a list, got {other:?}"),
    }
    assert_eq!(
        skipped(&o),
        [
            r#"list style "loweralpha""#,
            r#"a list's start must be a non-negative whole number, got "four""#,
            r#"role "tight""#,
        ]
    );
}

#[test]
fn a_description_item_keeps_its_term() {
    let o = outcome(vec![list(
        ListKind::Description,
        vec![SourceBlock::ListItem {
            children: vec![paragraph("Description.", &[], 1)],
            term: Some(("Term".to_string(), at(1, 1))),
            checkbox: None,
            span: at(1, 1),
        }],
        None,
        None,
        &[],
    )]);
    match &o.document.body()[0] {
        Block::List(l) => {
            assert_eq!(l.items()[0].term().map(|t| t.plain_text()), Some("Term".to_string()));
            assert_eq!(l.items()[0].body().len(), 1);
        }
        other => panic!("expected a list, got {other:?}"),
    }
}

#[test]
fn a_child_of_a_list_that_is_not_an_item_is_passed_over() {
    let o = outcome(vec![list(
        ListKind::Unordered,
        vec![paragraph("stray", &[], 1), item(vec![], None, 2)],
        None,
        None,
        &[],
    )]);
    match &o.document.body()[0] {
        Block::List(l) => assert_eq!(l.items().len(), 1),
        other => panic!("expected a list, got {other:?}"),
    }
    assert!(o.skipped.is_empty());
}

#[test]
fn a_verse_keeps_its_line_breaks_and_its_attribution() {
    let o = outcome(vec![SourceBlock::Quote {
        kind: QuotationKind::Verse,
        content: Some("first line\nsecond line".to_string()),
        children: Vec::new(),
        attribution: Some("A Poet".to_string()),
        citation: Some("A Book".to_string()),
        title: None,
        span: at(1, 1),
    }]);
    match &o.document.body()[0] {
        Block::Quotation(q) => {
            assert_eq!(q.kind(), QuotationKind::Verse);
            assert_eq!(q.attribution().map(|t| t.plain_text()), Some("A Poet".to_string()));
            assert_eq!(q.citation().map(|t| t.plain_text()), Some("A Book".to_string()));
            match &q.body()[0] {
                Block::Paragraph(p) => assert_eq!(p.text().plain_text(), "first line\nsecond line"),
                other => panic!("expected a paragraph, got {other:?}"),
            }
        }
        other => panic!("expected a quotation, got {other:?}"),
    }
}

#[test]
fn an_admonition_paragraph_becomes_its_body() {
    let o = outcome(vec![SourceBlock::Admonition {
        kind: AdmonitionKind::Warning,
        content: Some("Careful.".to_string()),
        children: Vec::new(),
        title: None,
        span: at(1, 1),
    }]);
    match &o.document.body()[0] {
        Block::Admonition(a) => {
            assert_eq!(a.kind(), AdmonitionKind::Warning);
            assert_eq!(a.body().len(), 1);
        }
        other => panic!("expected an admonition, got {other:?}"),
    }
}

#[test]
fn a_compound_block_holds_its_children() {
    let o = outcome(vec![SourceBlock::Compound {
        kind: ContainerKind::Sidebar,
        children: vec![paragraph("a", &[], 2), paragraph("b", &[], 3)],
        title: None,
        span: at(1, 1),
    }]);
    match &o.document.body()[0] {
        Block::Container(c) => {
            assert_eq!(c.kind(), ContainerKind::Sidebar);
            assert_eq!(c.body().len(), 2);
        }
        other => panic!("expected a container, got {other:?}"),
    }
}

#[test]
fn the_title_is_mapped_and_missing_attributes_are_reported_last() {
    let mut title = String::from("The ");
    unsupported("anchor", "Title", &mut title);
    let o = map_document(
        &Some(title),
        &vec![SourceBlock::Other { kind: OtherKind::TableOfContents, span: at(3, 1) }],
        &vec![("author-name".to_string(), at(9, 2))],
    );
    assert_eq!(o.document.title().map(|t| t.plain_text()), Some("The Title".to_string()));
    assert_eq!(
        skipped(&o),
        [
            "anchor",
            "table of contents",
            r#"reference to attribute "author-name", which is not set"#,
        ]
    );
    assert_eq!(o.skipped[0].location, SourceLocation::new(1, 1));
    assert_eq!(o.skipped[2].location, SourceLocation::new(9, 2));
}

#[test]
fn reports_only_accumulate_across_blocks() {
    let first = || {
        vec![
            SourceBlock::Other { kind: OtherKind::Table, span: at(1, 1) },
            paragraph("Text.", &["fancy"], 3),
        ]
    };
    let second = || {
        vec![
            list(ListKind::Ordered, vec![item(vec![], None, 5)], Some("loweralpha"), None, &[]),
            SourceBlock::Other { kind: OtherKind::Media, span: at(7, 1) },
        ]
    };
    let mut both = first();
    both.extend(second());

    let mut expected = skipped(&outcome(first()));
    expected.extend(skipped(&outcome(second())));
    assert_eq!(skipped(&outcome(both)), expected);
    assert_eq!(
        expected,
        ["table", r#"role "fancy""#, r#"list style "loweralpha""#, "image, video or audio block"]
    );
}

use adocpdf::document::{
    Block, Document, HeadingLevel, InlineNode, InlineStyle, InlineText, InvalidHeadingLevel,
    Paragraph, Section,
};
use adocpdf::theme::ThemeId;

fn text(value: &str) -> InlineText {
    InlineText::new(value)
}

fn level(value: u8) -> HeadingLevel {
    HeadingLevel::new(value).unwrap()
}

#[test]
fn a_document_carries_a_title_and_content() {
    let document = Document::new()
        .with_title(text("Report"))
        .with_block(Block::Paragraph(Paragraph::new(text("Opening words."))));

    assert_eq!(document.title().unwrap().plain_text(), "Report");
    assert_eq!(document.body().len(), 1);
}

#[test]
fn a_new_document_is_empty() {
    assert!(Document::new().is_empty());
}

#[test]
fn a_section_nests_a_subsection_beneath_it() {
    let subsection = Section::new(text("Details"), level(2))
        .with_block(Block::Paragraph(Paragraph::new(text("Fine print."))));
    let section = Section::new(text("Overview"), level(1)).with_block(Block::Section(subsection));

    let Block::Section(nested) = &section.body()[0] else {
        panic!("expected the subsection to be nested inside the section");
    };
    assert_eq!(nested.heading().plain_text(), "Details");
    assert_eq!(nested.level().get(), 2);
}

#[test]
fn a_section_declares_no_theme_unless_told_to() {
    assert!(Section::new(text("Plain"), level(1)).theme().is_none());
}

#[test]
fn a_section_remembers_the_theme_it_declares() {
    let section =
        Section::new(text("Appendix"), level(1)).with_theme(ThemeId::new("wide").unwrap());

    assert_eq!(section.theme().unwrap().as_str(), "wide");
}

#[test]
fn heading_levels_span_one_to_six() {
    for value in HeadingLevel::MIN..=HeadingLevel::MAX {
        assert_eq!(HeadingLevel::new(value).unwrap().get(), value);
    }
}

#[test]
fn a_heading_level_of_zero_is_rejected() {
    assert_eq!(
        HeadingLevel::new(0),
        Err(InvalidHeadingLevel { level: 0 }),
        "level 0 is the document title, which is not a section heading"
    );
}

#[test]
fn a_heading_nested_too_deeply_is_rejected() {
    let error = HeadingLevel::new(HeadingLevel::MAX + 1).unwrap_err();

    assert!(
        error.message().contains('7'),
        "message must report the offending level, got: {}",
        error.message()
    );
}

#[test]
fn a_styled_node_nests_another_inside_it() {
    let node = InlineNode::styled(
        InlineStyle::Strong,
        vec![
            InlineNode::text("bold "),
            InlineNode::styled(InlineStyle::Emphasis, vec![InlineNode::text("and italic")]),
        ],
    );

    let InlineNode::Styled { style, children } = &node else {
        panic!("expected a styled node");
    };
    assert_eq!(*style, InlineStyle::Strong);
    assert_eq!(children.len(), 2);

    let InlineNode::Styled { style: inner, .. } = &children[1] else {
        panic!("expected the nested span to survive");
    };
    assert_eq!(*inner, InlineStyle::Emphasis, "nesting carries both presentations");
}

#[test]
fn plain_text_flattens_a_nested_span() {
    let node = InlineNode::styled(
        InlineStyle::Strong,
        vec![
            InlineNode::text("a"),
            InlineNode::styled(InlineStyle::Emphasis, vec![InlineNode::text("b")]),
        ],
    );

    let mut out = String::new();
    node.write_plain_text(&mut out);

    assert_eq!(out, "ab", "flattening reports text, not presentation");
}

#[test]
fn a_hard_line_break_flattens_to_a_newline() {
    let mut out = String::new();
    InlineNode::LineBreak.write_plain_text(&mut out);

    assert_eq!(out, "\n", "a reader sees a break there, so flattened text has one");
}

#[test]
fn inline_text_is_kept_exactly_as_written() {
    let source = "a #set page(width: 1cm) b $x$ \\ c";

    assert_eq!(
        text(source).plain_text(),
        source,
        "content must not be altered on the way in; escaping happens at emission"
    );
}

#[test]
fn inline_text_flattens_its_structure_to_plain_text() {
    let structured = InlineText::from_nodes(vec![
        InlineNode::text("a "),
        InlineNode::styled(
            InlineStyle::Strong,
            vec![
                InlineNode::text("b"),
                InlineNode::styled(InlineStyle::Emphasis, vec![InlineNode::text("c")]),
            ],
        ),
        InlineNode::text("."),
    ]);

    assert_eq!(
        structured.plain_text(),
        "a bc.",
        "the reporting paths want the text a reader sees, not its typography"
    );
}

#[test]
fn plain_source_text_becomes_a_single_node() {
    let text = InlineText::new("just words");

    assert_eq!(text.nodes(), [InlineNode::Text("just words".to_owned())]);
}

#[test]
fn empty_inline_text_reports_itself_as_empty() {
    assert!(text("").is_empty());
    assert!(!text(" ").is_empty());
}

#[test]
fn a_role_names_the_style_it_stands_for() {
    assert_eq!(InlineStyle::from_role("underline"), Some(InlineStyle::Underline));
    assert_eq!(InlineStyle::from_role("line-through"), Some(InlineStyle::Strikethrough));
    assert_eq!(InlineStyle::from_role("big"), Some(InlineStyle::Larger));
    assert_eq!(InlineStyle::from_role("small"), Some(InlineStyle::Smaller));
    assert_eq!(InlineStyle::from_role("lead"), None);
}

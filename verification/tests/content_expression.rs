use adocpdf::document::{InlineNode, InlineStyle, InlineText, ListKind};
use adocpdf::markup::{content_expression, list_element, string_literal};

const MONO: &str = "DejaVu Sans Mono";

fn styled(style: InlineStyle, text: &str) -> InlineText {
    InlineText::from_nodes(vec![InlineNode::styled(style, vec![InlineNode::text(text)])])
}

#[test]
fn each_style_is_its_own_engine_function() {
    for (style, expected) in [
        (InlineStyle::Strong, r#"strong("word")"#),
        (InlineStyle::Emphasis, r#"emph("word")"#),
        (InlineStyle::Superscript, r#"super("word")"#),
        (InlineStyle::Subscript, r#"sub("word")"#),
        (InlineStyle::Highlight, r#"highlight("word")"#),
        (InlineStyle::Underline, r#"underline("word")"#),
        (InlineStyle::Strikethrough, r#"strike("word")"#),
        (InlineStyle::Larger, r#"text(size: 6em / 5, "word")"#),
        (InlineStyle::Smaller, r#"text(size: 4em / 5, "word")"#),
    ] {
        assert_eq!(content_expression(&styled(style, "word"), MONO), expected, "for {style:?}");
    }
}

#[test]
fn monospace_names_the_family_it_is_given() {
    assert_eq!(
        content_expression(&styled(InlineStyle::Monospace, "code"), MONO),
        r#"text(font: "DejaVu Sans Mono", "code")"#
    );
}

#[test]
fn a_run_of_nodes_is_concatenated() {
    let text = InlineText::from_nodes(vec![
        InlineNode::text("Hello "),
        InlineNode::styled(InlineStyle::Strong, vec![InlineNode::text("world")]),
        InlineNode::text("."),
    ]);
    assert_eq!(content_expression(&text, MONO), r#""Hello " + strong("world") + ".""#);
}

#[test]
fn nested_presentations_nest_their_calls() {
    let text = InlineText::from_nodes(vec![InlineNode::styled(
        InlineStyle::Strong,
        vec![InlineNode::styled(InlineStyle::Emphasis, vec![InlineNode::text("both")])],
    )]);
    assert_eq!(content_expression(&text, MONO), r#"strong(emph("both"))"#);
}

#[test]
fn a_hard_line_break_is_a_call_and_not_a_newline_in_a_literal() {
    let text = InlineText::from_nodes(vec![
        InlineNode::text("one"),
        InlineNode::LineBreak,
        InlineNode::text("two"),
    ]);
    assert_eq!(content_expression(&text, MONO), r#""one" + linebreak() + "two""#);
}

#[test]
fn styled_text_still_goes_through_the_escaper() {
    let attack = r#"") #set page(width: 1cm) #text(""#;
    let expression = content_expression(&styled(InlineStyle::Strong, attack), MONO);
    assert_eq!(expression, format!("strong({})", string_literal(attack)));
}

#[test]
fn empty_content_is_still_a_valid_expression() {
    assert_eq!(content_expression(&InlineText::default(), MONO), r#""""#);
    let hollow = InlineText::from_nodes(vec![InlineNode::styled(InlineStyle::Emphasis, Vec::new())]);
    assert_eq!(content_expression(&hollow, MONO), r#"emph("")"#);
}

#[test]
fn each_kind_of_list_is_set_by_its_own_element() {
    assert_eq!(list_element(ListKind::Unordered), "list");
    assert_eq!(list_element(ListKind::Ordered), "enum");
    assert_eq!(list_element(ListKind::Description), "terms");
}

#[test]
fn the_line_under_a_quotation_joins_what_the_source_gave() {
    let a = InlineText::new("A Poet");
    let c = InlineText::new("A Book");
    assert_eq!(adocpdf::markup::attribution_expression(None, None, MONO), None);
    assert_eq!(
        adocpdf::markup::attribution_expression(Some(&a), None, MONO),
        Some(r#""A Poet""#.to_string())
    );
    assert_eq!(
        adocpdf::markup::attribution_expression(None, Some(&c), MONO),
        Some(r#""A Book""#.to_string())
    );
    assert_eq!(
        adocpdf::markup::attribution_expression(Some(&a), Some(&c), MONO),
        Some(r#""A Poet" + ", " + "A Book""#.to_string())
    );
}

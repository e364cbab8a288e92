use adocpdf::document::{
    Admonition, AdmonitionKind, Block, BreakKind, Document, HeadingLevel, InlineNode, InlineStyle,
    InlineText, List, ListItem, ListKind, Paragraph, Quotation, QuotationKind, Section,
};
use adocpdf::emit::{emit, PageSetting, StyleBook, TypeSetting};
use adocpdf::markup::string_literal;
use adocpdf::plan::plan_document;
use adocpdf::theme::{Theme, ThemeId, ThemeSet};
use adocpdf::typography::Avoidance;

/// How much larger than body text the document title is set.
const TITLE_SCALE: f64 = 1.8;

/// The typography key of a restyled theme: 13pt type on the default page.
const RESTYLED: u64 = 2;

fn points(value: f64) -> String {
    format!("{value}pt")
}

fn type_setting(key: u64, body: f64, leading: f64) -> TypeSetting {
    TypeSetting {
        key,
        family: "DejaVu Sans".to_string(),
        monospace_family: "DejaVu Sans Mono".to_string(),
        language: None,
        avoidance_percent: Avoidance::default_weight().percent(),
        justified: false,
        size: points(body),
        leading: points(leading),
        title_size: points(body * TITLE_SCALE),
        heading_sizes: (1..=6u8)
            .map(|level| points(body * f64::from(6 - level).mul_add(0.09, 1.10)))
            .collect(),
        block_title_above: points(body * 0.6),
        block_title_below: points(body * 0.2),
        verbatim_inset: points(body * 0.5),
        admonition_inset: points(body * 0.4),
        quotation_inset: points(body * 2.0),
        verse_leading: points(body * 0.4),
        container_inset: points(body * 0.8),
        attribution_above: points(body * 0.5),
    }
}

fn page_setting(key: u64, width_mm: f64, height_mm: f64) -> PageSetting {
    let mm = |value: f64| points(value / 25.4 * 72.0);
    PageSetting {
        key,
        width: mm(width_mm),
        height: mm(height_mm),
        top: mm(20.0),
        right: mm(20.0),
        bottom: mm(20.0),
        left: mm(20.0),
    }
}

fn book() -> StyleBook {
    StyleBook {
        default_type: type_setting(0, 11.0, 15.4),
        default_page: page_setting(0, 210.0, 297.0),
        types: vec![type_setting(0, 11.0, 15.4), type_setting(RESTYLED, 13.0, 18.0)],
        pages: vec![page_setting(0, 210.0, 297.0), page_setting(1, 420.0, 297.0)],
    }
}

fn themes() -> ThemeSet {
    ThemeSet::new(Theme::new(0, 0))
        .with(ThemeId::new("wide").unwrap(), Theme::new(1, 0))
        .with(ThemeId::new("restyled").unwrap(), Theme::new(0, RESTYLED))
}

fn emit_document(document: &Document) -> String {
    emit(&plan_document(document, &themes()).unwrap(), &book())
}

/// Counts the page instructions the engine will act on: every instruction
/// starts its own line, so anything mid-line is inside a string literal.
fn page_instructions(markup: &str) -> usize {
    markup.lines().filter(|line| line.starts_with("#set page(")).count()
}

fn themed_section(theme: &str) -> Block {
    Block::Section(
        Section::new(InlineText::new("Section"), HeadingLevel::new(1).unwrap())
            .with_theme(ThemeId::new(theme).unwrap())
            .with_block(Block::Paragraph(Paragraph::new(InlineText::new("Body.")))),
    )
}

#[test]
fn a_plain_document_sets_page_and_text_once() {
    let document = Document::new()
        .with_title(InlineText::new("Report"))
        .with_block(Block::Paragraph(Paragraph::new(InlineText::new("Body."))));

    let markup = emit_document(&document);

    assert_eq!(page_instructions(&markup), 1, "got:\n{markup}");
    assert!(markup.contains(r#"#par("Body.")"#), "got:\n{markup}");
}

#[test]
fn a_geometry_change_emits_a_second_page_instruction() {
    let markup = emit_document(&Document::new().with_block(themed_section("wide")));

    assert_eq!(page_instructions(&markup), 2, "got:\n{markup}");
}

#[test]
fn a_typography_change_emits_no_page_instruction() {
    let markup = emit_document(&Document::new().with_block(themed_section("restyled")));

    assert_eq!(page_instructions(&markup), 1, "got:\n{markup}");
    assert!(markup.contains("size: 13pt"), "got:\n{markup}");
}

#[test]
fn a_heading_carries_its_level() {
    let document = Document::new().with_block(Block::Section(Section::new(
        InlineText::new("Overview"),
        HeadingLevel::new(2).unwrap(),
    )));

    let markup = emit_document(&document);

    assert!(markup.contains(r"#heading(level: 2, text(size: "), "got:\n{markup}");
    assert!(markup.contains("\"Overview\""), "got:\n{markup}");
}

#[test]
fn source_text_reaches_the_output_only_as_a_literal() {
    let attack = r#"") #set page(width: 1cm) #par(""#;
    let document =
        Document::new().with_block(Block::Paragraph(Paragraph::new(InlineText::new(attack))));

    assert_eq!(page_instructions(&emit_document(&document)), 1);
}

#[test]
fn a_heading_cannot_smuggle_an_instruction() {
    let document = Document::new().with_block(Block::Section(Section::new(
        InlineText::new(r#"Innocent") #set page(width: 1cm) #heading(level: 1, ""#),
        HeadingLevel::new(1).unwrap(),
    )));

    assert_eq!(page_instructions(&emit_document(&document)), 1);
}

#[test]
fn the_same_plan_always_emits_the_same_characters() {
    let document = Document::new()
        .with_title(InlineText::new("Report"))
        .with_block(themed_section("wide"));

    assert_eq!(emit_document(&document), emit_document(&document));
}

#[test]
fn the_title_is_set_larger_than_body_text() {
    let markup = emit_document(&Document::new().with_title(InlineText::new("Report")));

    assert!(markup.contains(&format!("size: {}pt", 11.0 * TITLE_SCALE)), "got:\n{markup}");
}

fn styled(style: InlineStyle, text: &str) -> InlineText {
    InlineText::from_nodes(vec![InlineNode::styled(style, vec![InlineNode::text(text)])])
}

fn emit_paragraph(text: InlineText) -> String {
    let document = Document::new().with_block(Block::Paragraph(Paragraph::new(text)));
    emit(&plan_document(&document, &themes()).unwrap(), &book())
}

#[test]
fn each_style_emits_its_own_engine_function() {
    for (style, expected) in [
        (InlineStyle::Strong, r#"strong("word")"#),
        (InlineStyle::Emphasis, r#"emph("word")"#),
        (InlineStyle::Superscript, r#"super("word")"#),
        (InlineStyle::Subscript, r#"sub("word")"#),
        (InlineStyle::Highlight, r#"highlight("word")"#),
    ] {
        let markup = emit_paragraph(styled(style, "word"));

        assert!(markup.contains(expected), "expected {expected} for {style:?}, got:\n{markup}");
    }
}

#[test]
fn monospace_names_the_theme_s_monospace_family() {
    let markup = emit_paragraph(styled(InlineStyle::Monospace, "code"));

    assert!(markup.contains(r#"text(font: "DejaVu Sans Mono", "code")"#), "got:\n{markup}");
}

#[test]
fn a_sequence_of_nodes_is_concatenated() {
    let text = InlineText::from_nodes(vec![
        InlineNode::text("Hello "),
        InlineNode::styled(InlineStyle::Strong, vec![InlineNode::text("world")]),
        InlineNode::text("."),
    ]);

    let markup = emit_paragraph(text);

    assert!(markup.contains(r#"#par("Hello " + strong("world") + ".")"#), "got:\n{markup}");
}

#[test]
fn nested_styles_nest_their_calls() {
    let text = InlineText::from_nodes(vec![InlineNode::styled(
        InlineStyle::Strong,
        vec![InlineNode::styled(InlineStyle::Emphasis, vec![InlineNode::text("both")])],
    )]);

    assert!(emit_paragraph(text).contains(r#"strong(emph("both"))"#));
}

#[test]
fn a_hard_line_break_emits_a_break_call() {
    let text = InlineText::from_nodes(vec![
        InlineNode::text("one"),
        InlineNode::LineBreak,
        InlineNode::text("two"),
    ]);

    assert!(emit_paragraph(text).contains(r#"#par("one" + linebreak() + "two")"#));
}

#[test]
fn styled_text_still_reaches_the_output_through_the_escaper() {
    let attack = r#"") #set page(width: 1cm) #text(""#;
    let markup = emit_paragraph(styled(InlineStyle::Strong, attack));

    assert!(markup.contains(&string_literal(attack)), "got:\n{markup}");
    let instructions = markup.lines().filter(|line| line.starts_with("#set page")).count();
    assert_eq!(instructions, 1, "got:\n{markup}");
}

#[test]
fn empty_inline_content_still_emits_a_valid_expression() {
    let markup = emit_paragraph(InlineText::default());

    assert!(markup.contains(r#"#par("")"#), "got:\n{markup}");
}

fn paragraph(text: &str) -> Block {
    Block::Paragraph(Paragraph::new(InlineText::new(text)))
}

fn emit_blocks(blocks: Vec<Block>) -> String {
    let mut document = Document::new();
    for block in blocks {
        document = document.with_block(block);
    }
    emit_document(&document)
}

/// What every emission starts with under the default theme.
fn prelude() -> String {
    let page = page_setting(0, 210.0, 297.0);
    format!(
        "#set page(width: {}, height: {}, margin: (top: {}, right: {}, bottom: {}, left: {}))\n\
         #set text(font: \"DejaVu Sans\", size: 11pt, costs: (orphan: 100%, widow: 100%))\n\
         #show raw: set text(font: \"DejaVu Sans Mono\")\n\
         #set par(leading: 15.4pt, linebreaks: \"optimized\", justify: false)\n",
        page.width, page.height, page.top, page.right, page.bottom, page.left
    )
}

#[test]
fn an_empty_document_is_only_its_settings() {
    assert_eq!(emit_document(&Document::new()), prelude());
}

#[test]
fn a_list_is_set_by_the_engine_s_own_list_element() {
    let list = Block::List(List::new(
        ListKind::Ordered,
        vec![
            ListItem::new(vec![paragraph("one")]),
            ListItem::new(vec![paragraph("first"), paragraph("second")]),
        ],
    ));
    assert_eq!(
        emit_blocks(vec![list]),
        format!(
            "{}#enum(\nenum.item(1, \"one\"),\nenum.item(2, [\n#(\"first\")\n#par(\"second\")\n]),\n)\n",
            prelude()
        )
    );
}

#[test]
fn a_description_item_leads_with_its_term() {
    let list = Block::List(List::new(
        ListKind::Description,
        vec![
            ListItem::new(vec![paragraph("Described.")]).with_term(InlineText::new("Term")),
            ListItem::new(vec![paragraph("Untermed.")]),
        ],
    ));
    assert_eq!(
        emit_blocks(vec![list]),
        format!(
            "{}#terms(\nterms.item(\"Term\", \"Described.\"),\nterms.item(\"\", \"Untermed.\"),\n)\n",
            prelude()
        )
    );
}

#[test]
fn an_admonition_carries_its_label_and_its_body() {
    let block = Block::Admonition(Admonition::new(AdmonitionKind::Note, vec![paragraph("Mind.")]));
    assert_eq!(
        emit_blocks(vec![block]),
        format!(
            "{}#block(width: 100%, inset: (left: 11pt, top: {}, bottom: {}), stroke: (left: 2pt + gray), \
             text(weight: \"bold\", \"NOTE\") + linebreak() + [\n#par(\"Mind.\")\n])\n",
            prelude(),
            points(11.0 * 0.4),
            points(11.0 * 0.4)
        )
    );
}

#[test]
fn a_verse_keeps_its_leading_and_is_attributed() {
    let block = Block::Quotation(
        Quotation::new(QuotationKind::Verse, vec![paragraph("A line.")])
            .with_attribution(InlineText::new("A Poet"))
            .with_citation(InlineText::new("A Book")),
    );
    assert_eq!(
        emit_blocks(vec![block]),
        format!(
            "{}#block(width: 100%, inset: (left: {q}, right: {q}), [\n#set par(leading: {});\n#par(\"A line.\")\n\
             #block(above: {}, text(style: \"italic\", \"\\u{{2014}} \" + \"A Poet\" + \", \" + \"A Book\"))\n])\n",
            prelude(),
            points(11.0 * 0.4),
            points(11.0 * 0.5),
            q = points(11.0 * 2.0),
        )
    );
}

#[test]
fn a_quotation_with_no_attribution_has_no_line_under_it() {
    let block = Block::Quotation(Quotation::new(QuotationKind::Quote, vec![paragraph("Said.")]));
    let markup = emit_blocks(vec![block]);
    assert!(!markup.contains("above:"), "got:\n{markup}");
    assert!(!markup.contains("#set par(leading: 4"), "prose keeps the body leading, got:\n{markup}");
}

#[test]
fn each_break_is_its_own_instruction() {
    assert_eq!(
        emit_blocks(vec![Block::Break(BreakKind::Page), Block::Break(BreakKind::Thematic)]),
        format!(
            "{}#pagebreak(weak: true)\n#align(center, block(above: 11pt, below: 11pt, line(length: 30%)))\n",
            prelude()
        )
    );
}

#[test]
fn a_theme_change_sets_its_own_type_and_only_a_new_geometry_sets_the_page() {
    let restyled = emit_document(&Document::new().with_block(themed_section("restyled")));
    assert!(restyled.contains("#set text(font: \"DejaVu Sans\", size: 13pt,"), "got:\n{restyled}");
    assert!(restyled.contains("#set par(leading: 18pt,"), "got:\n{restyled}");
    let wide = emit_document(&Document::new().with_block(themed_section("wide")));
    let second_page = wide.lines().filter(|line| line.starts_with("#set page(")).nth(1).unwrap();
    assert!(second_page.starts_with(&format!("#set page(width: {}, ", points(420.0 / 25.4 * 72.0))), "got:\n{wide}");
}

/// A paragraph that the two line breakers lay out differently.
fn paragraph_that_distinguishes_the_breakers() -> String {
    let document = Document::new().with_block(Block::Paragraph(Paragraph::new(InlineText::new(
        "antidisestablishmentarianism and typesetting counterrevolutionaries a and \
         measure dog a typesetting incomprehensibilities dog layout \
         uncharacteristically is dog typesetting and is layout internationalization and \
         renderer extraordinarily a and layout dog a renderer notwithstanding dog engine \
         pneumonoultramicroscopicsilicovolcanoconiosis is dog renderer and is engine.",
    ))));
    let plan = plan_document(&document, &ThemeSet::default()).expect("a paragraph plans");
    emit(&plan, &book())
}

#[test]
fn the_emitter_asks_for_optimal_line_breaking() {
    assert!(paragraph_that_distinguishes_the_breakers().contains(r#"linebreaks: "optimized""#));
}

#[test]
fn the_emitter_leaves_text_ragged_right_by_default() {
    assert!(paragraph_that_distinguishes_the_breakers().contains("justify: false"));
}

#[test]
fn widow_and_orphan_avoidance_is_emitted() {
    assert!(paragraph_that_distinguishes_the_breakers().contains("costs: (orphan: 100%, widow: 100%)"));
}

#[test]
fn no_language_is_named_unless_the_theme_names_one() {
    assert!(!paragraph_that_distinguishes_the_breakers().contains("lang:"));
    let mut named = book();
    named.default_type.language = Some("en".to_string());
    named.types[0].language = Some("en".to_string());
    let plan = plan_document(&Document::new(), &ThemeSet::default()).unwrap();
    assert!(emit(&plan, &named).contains(", lang: \"en\", costs:"));
}

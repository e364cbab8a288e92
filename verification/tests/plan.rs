use adocpdf::document::{
    Admonition, AdmonitionKind, Block, Document, HeadingLevel, InlineText, List, ListItem, ListKind,
    Paragraph, Section,
};
use adocpdf::error::DomainError;
use adocpdf::plan::{plan_document, GroupKind, LayoutPlan, PlanItem};
use adocpdf::theme::{Theme, ThemeId, ThemeSet, ThemeTransition};

fn text(value: &str) -> InlineText {
    InlineText::new(value)
}

fn paragraph(value: &str) -> Block {
    Block::Paragraph(Paragraph::new(text(value)))
}

fn section(heading: &str) -> Section {
    Section::new(text(heading), HeadingLevel::new(1).unwrap())
}

fn default_theme() -> Theme {
    Theme::new(0, 0)
}

fn wide_theme() -> Theme {
    Theme::new(1, 0)
}

fn restyled_theme() -> Theme {
    Theme::new(0, 1)
}

fn themes() -> ThemeSet {
    ThemeSet::new(default_theme())
        .with(ThemeId::new("wide").unwrap(), wide_theme())
        .with(ThemeId::new("restyled").unwrap(), restyled_theme())
        .with(ThemeId::new("same").unwrap(), default_theme())
}

fn transitions(plan: &LayoutPlan) -> Vec<ThemeTransition> {
    plan.items()
        .iter()
        .filter_map(|item| match item {
            PlanItem::ThemeChange { transition, .. } => Some(*transition),
            _ => None,
        })
        .collect()
}

#[test]
fn an_unthemed_document_uses_the_default_throughout() {
    let document = Document::new().with_title(text("Report")).with_block(paragraph("Body."));

    let plan = plan_document(&document, &themes()).unwrap();

    assert_eq!(plan.initial_theme(), default_theme());
    assert!(transitions(&plan).is_empty(), "nothing overrides the default, so nothing should change");
}

#[test]
fn a_section_theme_applies_to_its_nested_content() {
    let inner = section("Details").with_block(paragraph("Nested body."));
    let outer = section("Overview").with_theme(ThemeId::new("wide").unwrap()).with_block(Block::Section(inner));
    let document = Document::new().with_block(Block::Section(outer));

    let plan = plan_document(&document, &themes()).unwrap();

    let PlanItem::ThemeChange { theme, .. } = &plan.items()[0] else {
        panic!("expected the theme change to come before the heading");
    };
    assert_eq!(theme, &wide_theme());
    assert_eq!(transitions(&plan).len(), 1, "the nested section inherits, so it must not cause a second change");
}

#[test]
fn a_nested_override_wins_over_its_parent() {
    let inner = section("Details").with_theme(ThemeId::new("restyled").unwrap()).with_block(paragraph("Nested body."));
    let outer = section("Overview").with_theme(ThemeId::new("wide").unwrap()).with_block(Block::Section(inner));
    let document = Document::new().with_block(Block::Section(outer));

    let plan = plan_document(&document, &themes()).unwrap();
    let changed: Vec<&Theme> = plan
        .items()
        .iter()
        .filter_map(|item| match item {
            PlanItem::ThemeChange { theme, .. } => Some(theme),
            _ => None,
        })
        .collect();

    assert_eq!(changed, vec![&wide_theme(), &restyled_theme()]);
}

#[test]
fn leaving_a_themed_section_restores_the_outer_theme() {
    let themed = section("Aside").with_theme(ThemeId::new("wide").unwrap()).with_block(paragraph("Aside body."));
    let document = Document::new().with_block(Block::Section(themed)).with_block(paragraph("Back to normal."));

    let plan = plan_document(&document, &themes()).unwrap();

    let last_change = plan
        .items()
        .iter()
        .rev()
        .find_map(|item| match item {
            PlanItem::ThemeChange { theme, .. } => Some(theme),
            _ => None,
        })
        .expect("the outer theme must be restored");

    assert_eq!(last_change, &default_theme());
}

#[test]
fn a_themed_section_at_the_end_does_not_emit_a_trailing_change() {
    let themed = section("Appendix").with_theme(ThemeId::new("wide").unwrap()).with_block(paragraph("Last words."));
    let document = Document::new().with_block(Block::Section(themed));

    let plan = plan_document(&document, &themes()).unwrap();

    assert_eq!(transitions(&plan).len(), 1, "restoring a theme with no content after it would leave a blank page");
}

#[test]
fn a_geometry_change_is_planned_as_a_page_break() {
    let themed = section("Wide").with_theme(ThemeId::new("wide").unwrap()).with_block(paragraph("Wide body."));
    let document = Document::new().with_block(Block::Section(themed));

    let plan = plan_document(&document, &themes()).unwrap();

    assert_eq!(transitions(&plan), vec![ThemeTransition::PageGeometry]);
    assert_eq!(plan.forced_page_breaks(), 1);
}

#[test]
fn a_typography_change_is_planned_without_a_page_break() {
    let themed = section("Restyled").with_theme(ThemeId::new("restyled").unwrap()).with_block(paragraph("Restyled body."));
    let document = Document::new().with_block(Block::Section(themed));

    let plan = plan_document(&document, &themes()).unwrap();

    assert_eq!(transitions(&plan), vec![ThemeTransition::TypographyOnly]);
    assert_eq!(plan.forced_page_breaks(), 0);
}

#[test]
fn declaring_the_theme_already_in_effect_changes_nothing() {
    let themed = section("Same").with_theme(ThemeId::new("same").unwrap()).with_block(paragraph("Body."));
    let plain = section("Plain").with_block(paragraph("Body."));

    let with_redundant = plan_document(&Document::new().with_block(Block::Section(themed)), &themes()).unwrap();
    let without = plan_document(&Document::new().with_block(Block::Section(plain)), &themes()).unwrap();

    assert_eq!(
        with_redundant.items().len(),
        without.items().len(),
        "a redundant declaration must not reach the output at all"
    );
    assert!(transitions(&with_redundant).is_empty());
}

#[test]
fn a_section_naming_an_undefined_theme_is_rejected() {
    let themed = section("Appendix").with_theme(ThemeId::new("absent").unwrap());
    let document = Document::new().with_block(Block::Section(themed));

    let error = plan_document(&document, &themes()).unwrap_err();

    assert_eq!(error, DomainError::UnknownTheme { id: "absent".to_owned(), section: "Appendix".to_owned() });
}

#[test]
fn the_plan_keeps_the_document_in_order() {
    let document = Document::new()
        .with_title(text("Report"))
        .with_block(paragraph("Intro."))
        .with_block(Block::Section(section("Body").with_block(paragraph("Detail."))));

    let plan = plan_document(&document, &themes()).unwrap();

    assert_eq!(
        plan.items(),
        &[
            PlanItem::Title(text("Report")),
            PlanItem::Paragraph(text("Intro.")),
            PlanItem::Heading { text: text("Body"), level: HeadingLevel::new(1).unwrap() },
            PlanItem::Paragraph(text("Detail.")),
        ]
    );
}

#[test]
fn a_change_pending_before_a_group_is_made_with_the_groups_first_content() {
    let themed = section("Wide").with_theme(ThemeId::new("wide").unwrap()).with_block(paragraph("Wide."));
    let note = Block::Admonition(Admonition::new(AdmonitionKind::Note, vec![paragraph("Careful.")]));
    let document = Document::new().with_block(Block::Section(themed)).with_block(note);

    let plan = plan_document(&document, &themes()).unwrap();
    let items = plan.items();

    let PlanItem::Group { kind: GroupKind::Admonition(AdmonitionKind::Note), children } = &items[items.len() - 1] else {
        panic!("expected the admonition last, got {items:?}");
    };
    assert!(matches!(items[items.len() - 2], PlanItem::Paragraph(_)), "no change waits outside the group: {items:?}");
    assert!(matches!(children[0], PlanItem::ThemeChange { theme, .. } if theme == default_theme()));
    assert_eq!(children[1], PlanItem::Paragraph(text("Careful.")));
}

fn changes_are_followed(items: &[PlanItem]) -> bool {
    items.iter().enumerate().all(|(i, item)| match item {
        PlanItem::ThemeChange { .. } => matches!(items.get(i + 1), Some(next) if !matches!(next, PlanItem::ThemeChange { .. })),
        PlanItem::Group { children, .. } => changes_are_followed(children),
        _ => true,
    })
}

#[test]
fn a_group_holding_a_themed_section_after_a_themed_section_makes_no_change_without_content() {
    let first = section("Wide").with_theme(ThemeId::new("wide").unwrap()).with_block(paragraph("Wide."));
    let inner = section("Restyled").with_theme(ThemeId::new("restyled").unwrap()).with_block(paragraph("Inside."));
    let note = Block::Admonition(Admonition::new(AdmonitionKind::Note, vec![Block::Section(inner)]));
    let document = Document::new().with_block(Block::Section(first)).with_block(note).with_block(paragraph("After."));

    let plan = plan_document(&document, &themes()).unwrap();

    assert!(changes_are_followed(plan.items()), "every change must be followed by content: {:?}", plan.items());
}

#[test]
fn list_items_are_numbered_from_one() {
    let list = List::new(
        ListKind::Ordered,
        vec![ListItem::new(vec![paragraph("one")]), ListItem::new(vec![paragraph("two")])],
    );
    let plan = plan_document(&Document::new().with_block(Block::List(list)), &themes()).unwrap();

    let PlanItem::Group { kind: GroupKind::List(ListKind::Ordered), children } = &plan.items()[0] else {
        panic!("expected a list group");
    };
    let positions: Vec<usize> = children
        .iter()
        .map(|child| match child {
            PlanItem::Group { kind: GroupKind::ListItem { position, .. }, .. } => *position,
            _ => 0,
        })
        .collect();
    assert_eq!(positions, [1, 2]);
}

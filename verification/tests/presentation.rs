use adocpdf::presentation::{
    Alignment, ListForm, ListMarker, ListPresentation, ListStart, ParagraphPresentation,
};

#[test]
fn the_alignment_roles_are_the_four_the_language_names() {
    assert_eq!(Alignment::from_role("text-left"), Some(Alignment::Left));
    assert_eq!(Alignment::from_role("text-center"), Some(Alignment::Center));
    assert_eq!(Alignment::from_role("text-right"), Some(Alignment::Right));
    assert_eq!(Alignment::from_role("text-justify"), Some(Alignment::Justify));
}

#[test]
fn a_role_that_names_no_alignment_yields_none() {
    assert_eq!(Alignment::from_role("centre"), None);
    assert_eq!(Alignment::from_role("lead"), None);
}

#[test]
fn presentation_a_paragraph_that_declares_nothing_is_body_text() {
    let presentation = ParagraphPresentation::body();

    assert!(presentation.is_body());
    assert_eq!(presentation.alignment(), None);
    assert!(!presentation.is_lead());
}

#[test]
fn a_paragraph_remembers_what_it_declared() {
    let presentation = ParagraphPresentation::body().with_alignment(Alignment::Center).as_lead();

    assert_eq!(presentation.alignment(), Some(Alignment::Center));
    assert!(presentation.is_lead());
    assert!(!presentation.is_body());
}

#[test]
fn each_marker_shape_has_a_glyph_of_its_own() {
    let glyphs = [ListMarker::Disc.glyph(), ListMarker::Circle.glyph(), ListMarker::Square.glyph()];

    assert_eq!(
        glyphs.iter().collect::<std::collections::HashSet<_>>().len(),
        glyphs.len(),
        "two shapes drawn the same are one shape"
    );
}

#[test]
fn the_marker_styles_are_the_three_the_language_names() {
    assert_eq!(ListMarker::from_style("disc"), Some(ListMarker::Disc));
    assert_eq!(ListMarker::from_style("circle"), Some(ListMarker::Circle));
    assert_eq!(ListMarker::from_style("square"), Some(ListMarker::Square));
    assert_eq!(ListMarker::from_style("triangle"), None);
}

#[test]
fn a_list_counts_from_one_unless_it_says_otherwise() {
    assert_eq!(ListStart::default(), ListStart::first());
    assert_eq!(ListStart::first().position_of(0), 1);
    assert_eq!(ListStart::first().position_of(2), 3);
}

#[test]
fn a_declared_start_is_the_number_the_first_item_carries() {
    let start = ListStart::parse("4").unwrap();

    assert_eq!(start.get(), 4);
    assert_eq!(start.position_of(0), 4);
    assert_eq!(start.position_of(1), 5);
}

#[test]
fn a_start_that_is_not_a_number_is_rejected() {
    let error = ListStart::parse("two").unwrap_err();

    assert!(
        error.message().contains("two"),
        "the message must report what was declared, got: {}",
        error.message()
    );
}

#[test]
fn a_negative_start_is_rejected() {
    assert!(ListStart::parse("-1").is_err());
}

#[test]
fn a_start_at_the_top_of_the_range_saturates_rather_than_wrapping() {
    let start = ListStart::parse(&usize::MAX.to_string()).unwrap();

    assert_eq!(start.position_of(1), usize::MAX);
}

#[test]
fn the_list_forms_are_the_two_an_attribute_can_declare() {
    assert_eq!(ListForm::from_style("horizontal"), Some(ListForm::Horizontal));
    assert_eq!(ListForm::from_style("qanda"), Some(ListForm::QuestionsAndAnswers));
    assert_eq!(
        ListForm::from_style("checklist"),
        None,
        "a checklist is read from the items, not from an attribute"
    );
}

#[test]
fn a_list_that_declares_nothing_is_stacked_and_counts_from_one() {
    let presentation = ListPresentation::stacked();

    assert_eq!(presentation.marker(), None);
    assert_eq!(presentation.start(), ListStart::first());
    assert_eq!(presentation.form(), ListForm::Stacked);
}

#[test]
fn a_list_remembers_what_it_declared() {
    let presentation = ListPresentation::stacked()
        .with_marker(ListMarker::Square)
        .with_start(ListStart::parse("7").unwrap())
        .with_form(ListForm::Horizontal);

    assert_eq!(presentation.marker(), Some(ListMarker::Square));
    assert_eq!(presentation.start().get(), 7);
    assert_eq!(presentation.form(), ListForm::Horizontal);
}

#[test]
fn a_start_with_surrounding_spaces_is_read() {
    assert_eq!(ListStart::parse(" 3 ").unwrap().get(), 3);
    assert!(ListStart::parse("").is_err());
}

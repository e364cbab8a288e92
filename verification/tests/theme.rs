use adocpdf::ports::ThemeRepository;
use adocpdf::theme::{
    built_in_default_theme, BuiltInThemes, InvalidThemeId, Theme, ThemeId, ThemeSet, ThemeTransition, BODY_FAMILY,
    DEFAULT_FONT_FAMILY, DEFAULT_GEOMETRY, DEFAULT_TYPOGRAPHY, LARGE_PRINT,
    LARGE_PRINT_TYPOGRAPHY, WIDE, WIDE_GEOMETRY,
};

#[test]
fn a_transition_describes_its_own_consequence() {
    assert!(ThemeTransition::PageGeometry.description().contains("new page"));
    assert!(ThemeTransition::TypographyOnly.description().contains("same page"));
}

#[test]
fn a_well_formed_identifier_is_accepted() {
    assert_eq!(ThemeId::new("chapter-2").unwrap().as_str(), "chapter-2");
}

#[test]
fn an_empty_identifier_is_rejected() {
    assert_eq!(ThemeId::new(""), Err(InvalidThemeId::Empty));
}

#[test]
fn an_identifier_with_uppercase_or_markup_is_rejected() {
    for id in ["Chapter", "chapter 2", "chapter#", "chapter/../etc"] {
        assert!(
            matches!(ThemeId::new(id), Err(InvalidThemeId::ForbiddenCharacter { .. })),
            "{id:?} must not be accepted as a theme id"
        );
    }
}

#[test]
fn an_overlong_identifier_is_rejected() {
    let id = "a".repeat(ThemeId::MAX_LENGTH + 1);

    assert!(matches!(ThemeId::new(&id), Err(InvalidThemeId::TooLong { .. })));
}

#[test]
fn an_identifier_refusal_names_the_character() {
    let error = ThemeId::new("chapter#").unwrap_err();
    assert_eq!(
        error.message(),
        "theme id must contain only lowercase letters, digits and hyphens, but contains '#'"
    );
    assert_eq!(
        InvalidThemeId::TooLong { length: 65 }.message(),
        "theme id must be at most 64 characters, got 65"
    );
}

#[test]
fn the_embedded_family_matches_the_default_theme() {
    assert_eq!(
        BODY_FAMILY, DEFAULT_FONT_FAMILY,
        "a theme naming a family no embedded font provides would silently fall back"
    );
}

#[test]
fn a_change_of_geometry_forces_a_page_break_and_a_change_of_type_does_not() {
    let a4 = Theme::new(0, 0);
    let landscape = Theme::new(1, 0);
    let large = Theme::new(0, 1);

    assert_eq!(ThemeTransition::classify(&a4, &a4), ThemeTransition::Unchanged);
    assert_eq!(ThemeTransition::classify(&a4, &landscape), ThemeTransition::PageGeometry);
    assert_eq!(ThemeTransition::classify(&a4, &large), ThemeTransition::TypographyOnly);
    assert_eq!(ThemeTransition::classify(&large, &landscape), ThemeTransition::PageGeometry);
    assert!(ThemeTransition::PageGeometry.forces_page_break());
    assert!(!ThemeTransition::TypographyOnly.forces_page_break());
    assert!(!ThemeTransition::Unchanged.requires_emission());
    assert!(ThemeTransition::TypographyOnly.requires_emission());
}

#[test]
fn a_theme_set_finds_what_it_was_given_and_nothing_else() {
    let set = ThemeSet::new(Theme::new(0, 0))
        .with(ThemeId::new("wide").unwrap(), Theme::new(1, 0))
        .with(ThemeId::new("wide").unwrap(), Theme::new(2, 0));

    assert_eq!(set.default_theme(), Theme::new(0, 0));
    assert_eq!(set.get(&ThemeId::new("wide").unwrap()), Some(Theme::new(2, 0)));
    assert_eq!(set.get(&ThemeId::new("narrow").unwrap()), None);
    assert_eq!(set.ids().len(), 1, "naming a theme twice replaces it");
}

#[test]
fn the_built_in_themes_are_the_default_wide_and_large_print() {
    let set = BuiltInThemes::new().load().unwrap();

    assert_eq!(set.default_theme(), Theme::new(DEFAULT_GEOMETRY, DEFAULT_TYPOGRAPHY));
    assert_eq!(
        set.get(&ThemeId::new(WIDE).unwrap()),
        Some(Theme::new(WIDE_GEOMETRY, DEFAULT_TYPOGRAPHY))
    );
    assert_eq!(
        set.get(&ThemeId::new(LARGE_PRINT).unwrap()),
        Some(Theme::new(DEFAULT_GEOMETRY, LARGE_PRINT_TYPOGRAPHY))
    );
    for id in set.ids() {
        assert!(set.get(&id).is_some(), "every listed theme resolves: {}", id.as_str());
    }
}

#[test]
fn the_listing_order_depends_on_the_identifiers_alone() {
    let names = |set: &ThemeSet| -> Vec<String> { set.ids().iter().map(|id| id.as_str().to_string()).collect() };
    let one = ThemeSet::new(Theme::new(0, 0))
        .with(ThemeId::new("wide").unwrap(), Theme::new(1, 0))
        .with(ThemeId::new("large-print").unwrap(), Theme::new(0, 1))
        .with(ThemeId::new("a4").unwrap(), Theme::new(0, 0));
    let other = ThemeSet::new(Theme::new(0, 0))
        .with(ThemeId::new("a4").unwrap(), Theme::new(0, 0))
        .with(ThemeId::new("large-print").unwrap(), Theme::new(0, 1))
        .with(ThemeId::new("wide").unwrap(), Theme::new(1, 0));
    assert_eq!(names(&one), ["a4", "large-print", "wide"]);
    assert_eq!(names(&one), names(&other));
    let prefixed = ThemeSet::new(Theme::new(0, 0))
        .with(ThemeId::new("wide-2").unwrap(), Theme::new(0, 0))
        .with(ThemeId::new("wide").unwrap(), Theme::new(0, 0));
    assert_eq!(names(&prefixed), ["wide", "wide-2"], "a proper prefix sorts first");
}

/// A theme whose page is `width` millimeters wide, the geometry standing for
/// the page by its width.
fn theme_with_width(width: u64) -> Theme {
    Theme::new(width, DEFAULT_TYPOGRAPHY)
}

#[test]
fn a_new_set_falls_back_on_the_built_in_default() {
    let set = ThemeSet::default();

    assert_eq!(set.default_theme(), built_in_default_theme());
}

#[test]
fn a_named_theme_can_be_looked_up() {
    let id = ThemeId::new("wide").unwrap();
    let set = ThemeSet::default().with(id.clone(), theme_with_width(420));

    let found = set.get(&id).expect("the theme was just added");

    assert_eq!(found.geometry(), 420);
}

#[test]
fn looking_up_an_unknown_theme_finds_nothing() {
    let set = ThemeSet::default();

    assert!(set.get(&ThemeId::new("absent").unwrap()).is_none());
}

#[test]
fn adding_a_theme_twice_keeps_the_later_one() {
    let id = ThemeId::new("body").unwrap();

    let set = ThemeSet::default()
        .with(id.clone(), theme_with_width(300))
        .with(id.clone(), theme_with_width(400));

    assert_eq!(set.get(&id).unwrap().geometry(), 400);
}

#[test]
fn identifiers_are_listed_in_a_stable_order() {
    let set = ThemeSet::default()
        .with(ThemeId::new("zebra").unwrap(), theme_with_width(300))
        .with(ThemeId::new("alpha").unwrap(), theme_with_width(300))
        .with(ThemeId::new("middle").unwrap(), theme_with_width(300));

    let ids: Vec<String> = set.ids().iter().map(|id| id.as_str().to_string()).collect();

    assert_eq!(ids, ["alpha", "middle", "zebra"]);
}

#[test]
fn changing_the_page_size_forces_a_page_break() {
    let transition = ThemeTransition::classify(&theme_with_width(210), &theme_with_width(420));

    assert_eq!(transition, ThemeTransition::PageGeometry);
    assert!(transition.forces_page_break());
}

#[test]
fn changing_only_the_typography_does_not_force_a_page_break() {
    let base = theme_with_width(210);
    let restyled = Theme::new(base.geometry(), 13);

    let transition = ThemeTransition::classify(&base, &restyled);

    assert_eq!(transition, ThemeTransition::TypographyOnly);
    assert!(!transition.forces_page_break());
    assert!(transition.requires_emission());
}

#[test]
fn a_transition_between_identical_themes_changes_nothing() {
    let transition = ThemeTransition::classify(&theme_with_width(210), &theme_with_width(210));

    assert_eq!(transition, ThemeTransition::Unchanged);
    assert!(!transition.forces_page_break());
    assert!(!transition.requires_emission());
}

#[test]
fn a_geometry_change_outranks_a_simultaneous_typography_change() {
    let base = theme_with_width(210);
    let both = Theme::new(theme_with_width(420).geometry(), 13);

    assert_eq!(ThemeTransition::classify(&base, &both), ThemeTransition::PageGeometry);
}

fn themes() -> ThemeSet {
    BuiltInThemes::new().load().expect("built-in themes are valid")
}

#[test]
fn the_default_theme_is_available_without_naming_it() {
    assert_eq!(themes().default_theme(), built_in_default_theme());
}

#[test]
fn both_named_themes_can_be_looked_up() {
    let set = themes();

    assert!(set.get(&ThemeId::new(WIDE).unwrap()).is_some());
    assert!(set.get(&ThemeId::new(LARGE_PRINT).unwrap()).is_some());
}

#[test]
fn the_wide_theme_changes_page_geometry() {
    let set = themes();

    let transition = ThemeTransition::classify(&set.default_theme(), &set.get(&ThemeId::new(WIDE).unwrap()).unwrap());

    assert_eq!(transition, ThemeTransition::PageGeometry);
    assert!(transition.forces_page_break());
}

#[test]
fn the_large_print_theme_changes_only_typography() {
    let set = themes();

    let transition =
        ThemeTransition::classify(&set.default_theme(), &set.get(&ThemeId::new(LARGE_PRINT).unwrap()).unwrap());

    assert_eq!(transition, ThemeTransition::TypographyOnly);
    assert!(!transition.forces_page_break());
}

#[test]
fn loading_twice_produces_the_same_themes() {
    assert_eq!(themes(), themes());
}

use adocpdf::typography::{
    Avoidance, FontFamily, InvalidAvoidance, InvalidFontFamily, InvalidLanguageTag, LanguageTag,
    DEFAULT_MONOSPACE_FAMILY,
};

#[test]
fn the_default_monospace_family_is_well_formed() {
    assert!(FontFamily::new(DEFAULT_MONOSPACE_FAMILY).is_ok());
}

#[test]
fn an_ordinary_family_name_is_accepted() {
    let family = FontFamily::new("DejaVu Sans").unwrap();

    assert_eq!(family.as_str(), "DejaVu Sans");
}

#[test]
fn a_hyphenated_family_name_is_accepted() {
    assert!(FontFamily::new("Noto-Serif").is_ok());
}

#[test]
fn surrounding_whitespace_is_trimmed() {
    let family = FontFamily::new("  Libertinus Serif  ").unwrap();

    assert_eq!(family.as_str(), "Libertinus Serif");
}

#[test]
fn an_empty_family_name_is_rejected() {
    assert_eq!(FontFamily::new(""), Err(InvalidFontFamily::Empty));
    assert_eq!(FontFamily::new("   "), Err(InvalidFontFamily::Empty));
}

#[test]
fn a_family_name_with_markup_characters_is_rejected() {
    for name in ["Sans\"; #set page(width: 1cm); \"", "Sans#", "Sans$x$"] {
        assert!(
            matches!(FontFamily::new(name), Err(InvalidFontFamily::ForbiddenCharacter { .. })),
            "{name:?} must not be accepted as a family name"
        );
    }
}

#[test]
fn a_family_name_with_a_newline_is_rejected() {
    assert!(matches!(
        FontFamily::new("Sans\nSerif"),
        Err(InvalidFontFamily::ForbiddenCharacter { character: '\n' })
    ));
}

#[test]
fn an_overlong_family_name_is_rejected() {
    let name = "a".repeat(FontFamily::MAX_LENGTH + 1);

    assert_eq!(
        FontFamily::new(&name),
        Err(InvalidFontFamily::TooLong { length: FontFamily::MAX_LENGTH + 1 })
    );
}

#[test]
fn rejection_names_the_offending_character() {
    let error = FontFamily::new("Sans#").unwrap_err();

    assert!(
        error.message().contains('#'),
        "message must show the offending character, got: {}",
        error.message()
    );
}

#[test]
fn an_ordinary_language_tag_is_accepted() {
    assert_eq!(LanguageTag::new("en").unwrap().as_str(), "en");
    assert_eq!(LanguageTag::new("pt-BR").unwrap().as_str(), "pt-br");
}

#[test]
fn a_language_tag_is_normalised_to_lower_case() {
    assert_eq!(LanguageTag::new("EN-GB").unwrap(), LanguageTag::new("en-gb").unwrap());
}

#[test]
fn surrounding_whitespace_is_trimmed_from_a_language_tag() {
    assert_eq!(LanguageTag::new("  de  ").unwrap().as_str(), "de");
}

#[test]
fn an_empty_language_tag_is_rejected() {
    assert_eq!(LanguageTag::new("   "), Err(InvalidLanguageTag::Empty));
}

#[test]
fn an_overlong_language_tag_is_rejected() {
    let error = LanguageTag::new(&"a".repeat(LanguageTag::MAX_LENGTH + 1)).unwrap_err();

    assert!(
        error.message().contains(&LanguageTag::MAX_LENGTH.to_string()),
        "the message must state the bound, got: {}",
        error.message()
    );
}

#[test]
fn a_language_tag_with_markup_characters_is_rejected() {
    for tag in ["en\"", "en)", "en 1", "en_gb"] {
        assert!(LanguageTag::new(tag).is_err(), "{tag:?} must not be accepted");
    }
}

#[test]
fn language_tag_rejection_names_the_offending_character() {
    let error = LanguageTag::new("en_gb").unwrap_err();

    assert_eq!(error, InvalidLanguageTag::ForbiddenCharacter { character: '_' });
    assert!(error.message().contains('_'), "got: {}", error.message());
}

#[test]
fn avoidance_defaults_to_weighing_the_avoidance_normally() {
    assert_eq!(Avoidance::default().percent(), 100);
}

#[test]
fn avoidance_accepts_the_whole_permitted_range() {
    for percent in [0, 1, 100, Avoidance::MAX_PERCENT] {
        assert_eq!(Avoidance::from_percent(percent).unwrap().percent(), percent);
    }
}

#[test]
fn an_avoidance_beyond_the_bound_is_rejected() {
    let error = Avoidance::from_percent(Avoidance::MAX_PERCENT + 1).unwrap_err();

    assert_eq!(error, InvalidAvoidance { percent: Avoidance::MAX_PERCENT + 1 });
    assert!(
        error.message().contains(&Avoidance::MAX_PERCENT.to_string()),
        "the message must state the bound, got: {}",
        error.message()
    );
}

#[test]
fn the_default_weight_is_the_default() {
    assert_eq!(Avoidance::default_weight(), Avoidance::default());
}

#[test]
fn a_refused_character_is_shown_as_a_debug_rendering_shows_it() {
    let shown = |name: &str| FontFamily::new(name).unwrap_err().message();

    assert!(shown("Sans\nSerif").ends_with("but contains '\\n'"));
    assert!(shown("Sans\"Serif").ends_with("but contains '\"'"));
    assert!(shown("Sans'Serif").ends_with("but contains '\\''"));
    assert!(shown("Sans\u{301}").ends_with("but contains '\\u{301}'"));
    assert!(shown("Sans\u{ad}").ends_with("but contains '\\u{ad}'"));
}

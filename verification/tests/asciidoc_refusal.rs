use adocpdf::asciidoc::{clamp_level, location_of_offset, AsciidocParser};
use adocpdf::error::DomainError;

fn parse(source: &str) -> Result<(), DomainError> {
    AsciidocParser::new().check_source(source, "boundary.adoc")
}

fn is_refused(source: &str) -> bool {
    AsciidocParser::new().check_source(source, "sweep.adoc").is_err()
}

fn holds_the_pattern(source: &str) -> bool {
    let characters: Vec<char> = source.chars().collect();
    characters.windows(2).any(|pair| pair[0] == '\r' && pair[1].is_whitespace() && pair[1] != '\n')
}

#[test]
fn parser_refusal_a_whitespace_only_document_containing_a_form_feed_is_refused() {
    let error = parse("\u{c}").expect_err("this input cannot be parsed without hanging");

    assert!(matches!(error, DomainError::ParseFailed { .. }), "expected a parse failure, got {error:?}");
    assert!(error.message().contains("U+000C"), "the error must name the character, got: {}", error.message());
}

#[test]
fn parser_refusal_a_whitespace_only_document_containing_a_vertical_tab_is_refused() {
    let error = parse("  \u{b}\n").expect_err("this input cannot be parsed without hanging");

    assert!(error.message().contains("U+000B"), "the error must name the character, got: {}", error.message());
}

#[test]
fn a_vertical_tab_or_form_feed_is_refused_wherever_it_appears() {
    for source in [
        "Hello\u{c}world",
        "a\u{c}",
        "\u{c}a",
        "\u{b}text",
        "[;;\n\u{b}",
        "= T\n\n\u{b}",
        ";toc::  \u{c}",
        "a\n\u{c}",
    ] {
        assert!(parse(source).is_err(), "a vertical tab or form feed must be refused wherever it sits: {source:?}");
    }
}

#[test]
fn the_refusal_is_bounded_to_those_two_characters() {
    for source in ["a\tb", "a\u{7}b", "a\u{1b}b", "a\u{85}b", "ordinary text"] {
        assert!(parse(source).is_ok(), "this document must still parse: {source:?}");
    }
}

#[test]
fn parser_refusal_ordinary_empty_documents_are_still_accepted() {
    for source in ["", "   ", "\n", "\n\n  \t "] {
        assert!(parse(source).is_ok(), "{source:?} contains no offending character and must be accepted");
    }
}

#[test]
fn parser_refusal_the_refusal_names_the_document_it_refused() {
    let error = parse("\u{c}").expect_err("refused");

    assert!(error.message().contains("boundary.adoc"), "the error must name the document, got: {}", error.message());
}

#[test]
fn parser_refusal_the_refusal_is_distinguishable_from_a_syntax_error() {
    let error = parse("\u{c}").expect_err("refused");
    let message = error.message();

    assert!(message.contains("asciidoc-parser"), "the message must say what could not handle it, got: {message}");
    assert!(message.contains("terminate"), "the message must say why it was declined, got: {message}");
}

#[test]
fn a_document_containing_a_structural_marker_is_refused() {
    let error = parse("Ordinary text \u{fdd0} more text\n").expect_err("a marker character is refused");

    assert!(matches!(error, DomainError::ParseFailed { .. }), "expected a parse failure, got {error:?}");
    assert!(error.message().contains("U+FDD0"), "the error must name the code point, got: {}", error.message());
}

#[test]
fn the_refusal_explains_why_the_character_is_not_allowed() {
    let error = parse("\u{fdef}").expect_err("a marker character is refused");
    let message = error.message();

    assert!(message.contains("noncharacter"), "the message must say what the character is, got: {message}");
    assert!(message.contains("forge"), "the message must say what accepting it would allow, got: {message}");
    assert!(!message.contains("does not terminate"), "this must not be confused with the hang refusal, got: {message}");
}

#[test]
fn every_character_in_the_reserved_range_is_refused() {
    for code_point in 0xFDD0..=0xFDEF_u32 {
        let character = char::from_u32(code_point).expect("a noncharacter is still a char");
        let source = format!("text {character} text");

        assert!(parse(&source).is_err(), "U+{code_point:04X} must be refused; a gap in the range is a gap in the guard");
    }
}

#[test]
fn a_marker_inside_a_passthrough_is_refused_too() {
    let error = parse("pass:[\u{fdd1}] and +++\u{fdd2}+++\n").expect_err("a marker in a passthrough is still a marker");

    assert!(matches!(error, DomainError::ParseFailed { .. }));
}

#[test]
fn ordinary_documents_are_unaffected_by_the_marker_guard() {
    for source in [
        "Plain text.\n",
        "Arabic presentation forms: \u{fdcf} and \u{fdf0}\n",
        "Emoji \u{1f600}, CJK \u{4e2d}\u{6587}, private use \u{f8ff}\n",
        "= Title\n\nBody with *bold* and _italic_.\n",
    ] {
        assert!(parse(source).is_ok(), "this document must still parse: {source:?}");
    }
}

#[test]
fn the_refusal_reports_where_the_character_was_found() {
    let error = parse("line one\nline two \u{fdd0}\n").expect_err("a marker character is refused");

    let DomainError::ParseFailed { location, .. } = error else {
        panic!("expected a parse failure");
    };
    assert_eq!(location.line, 2, "the marker is on the second line");
    assert_eq!(location.column, 10, "and after nine characters of it");
}

#[test]
fn a_carriage_return_followed_by_whitespace_is_refused() {
    let error = parse("\n\r\r\r").expect_err("this input cannot be parsed without hanging");

    assert!(matches!(error, DomainError::ParseFailed { .. }), "expected a parse failure, got {error:?}");
    assert!(error.message().contains("carriage return"), "the error must say what it found, got: {}", error.message());
}

#[test]
fn every_demonstrated_hang_of_this_family_is_refused() {
    for source in ["\r\r", "\r\t", "\r ", "\n\r\r", "\t\r\r", "\r \r", "= T\n\n\r\r"] {
        assert!(parse(source).is_err(), "this input does not terminate upstream and must be refused: {source:?}");
    }
}

#[test]
fn a_document_with_real_content_is_refused_too_when_it_holds_such_a_line() {
    let error = parse("= T\n\n\r\r").expect_err("a titled document can hang too");

    assert!(matches!(error, DomainError::ParseFailed { .. }));
}

#[test]
fn the_carriage_return_refusal_reports_where_it_found_it() {
    let error = parse("= T\n\n\r\r").expect_err("a titled document can hang too");

    let DomainError::ParseFailed { location, .. } = error else {
        panic!("expected a parse failure");
    };
    assert_eq!(location.line, 3, "the offending carriage return is on line 3");
}

#[test]
fn windows_line_endings_are_not_refused() {
    for source in ["= Title\r\n\r\nA paragraph.\r\n", "\r\n\r\n\r\n", "One line.\r\n", "* one\r\n* two\r\n"] {
        assert!(parse(source).is_ok(), "this document must still parse: {source:?}");
    }
}

#[test]
fn the_refusal_is_wider_than_the_defect_and_says_so() {
    for source in ["\r\ra", "a\r\r\r", "a\n\r\r"] {
        assert!(parse(source).is_err(), "the guard is deliberately conservative here: {source:?}");
    }
}

#[test]
fn a_carriage_return_that_is_not_followed_by_whitespace_is_accepted() {
    for source in ["\ra", "a\rb", "\r", "line\r"] {
        assert!(parse(source).is_ok(), "this document must still parse: {source:?}");
    }
}

#[test]
fn a_parser_sentinel_in_source_is_refused() {
    for source in ["*\u{e000}<<>>", "text \u{e001} more", "\u{e002}", "a\u{e003}b"] {
        let error = parse(source).expect_err("a parser sentinel must be refused");

        assert!(error.message().contains("asciidoc-parser"), "the message must say whose sentinel it is, got: {}", error.message());
    }
}

#[test]
fn ordinary_private_use_characters_are_still_accepted() {
    for source in ["icon \u{f8ff} here", "\u{e004}", "\u{efff}"] {
        assert!(parse(source).is_ok(), "this document must still parse: {source:?}");
    }
}

#[test]
fn every_input_that_holds_the_pattern_is_refused() {
    let alphabet = ['\r', '\n', '\t', ' ', 'a'];
    let mut checked = 0_u32;
    let mut refused = 0_u32;

    for length in 1..=4 {
        let mut indices = vec![0_usize; length];
        loop {
            let source: String = indices.iter().map(|&i| alphabet[i]).collect();
            checked += 1;

            if holds_the_pattern(&source) {
                refused += 1;
                assert!(is_refused(&source), "{source:?} holds the pattern and must be refused");
            }

            let mut position = length;
            loop {
                if position == 0 {
                    break;
                }
                position -= 1;
                indices[position] += 1;
                if indices[position] < alphabet.len() {
                    break;
                }
                indices[position] = 0;
                if position == 0 {
                    break;
                }
            }
            if indices.iter().all(|&i| i == 0) {
                break;
            }
        }
    }

    assert_eq!(checked, 780, "the sweep covers 5^1 + 5^2 + 5^3 + 5^4 inputs");
    assert!(refused > 130, "the pattern should cover every one of the 138 measured hangs, got {refused}");
}

#[test]
fn no_input_without_the_pattern_is_refused_for_this_reason() {
    for source in ["a", "a\nb", "\r", "\ra", "a\r", "\r\n", "\r\na", "a\r\nb\r\n"] {
        assert!(!holds_the_pattern(source), "the test's own premise is wrong for {source:?}");
        assert!(!is_refused(source), "{source:?} does not hold the pattern and must render");
    }
}

#[test]
fn every_input_holding_a_vertical_tab_or_form_feed_is_refused() {
    let alphabet = ['\u{b}', '\n', '\t', ' ', 'a'];
    let mut refused = 0_u32;

    for length in 1..=3 {
        let mut indices = vec![0_usize; length];
        loop {
            let source: String = indices.iter().map(|&i| alphabet[i]).collect();

            if source.contains('\u{b}') || source.contains('\u{c}') {
                refused += 1;
                assert!(is_refused(&source), "{source:?} holds a character the parser cannot be trusted with");
            }

            let mut position = length;
            let mut carried = true;
            while carried && position > 0 {
                position -= 1;
                indices[position] += 1;
                carried = indices[position] >= alphabet.len();
                if carried {
                    indices[position] = 0;
                }
            }
            if carried {
                break;
            }
        }
    }

    assert!(refused > 60, "expected many refusals, got {refused}");
}

#[test]
fn the_shapes_that_defeated_the_narrower_rules_are_all_refused() {
    for source in ["\u{c}", "[;;\n\u{b}", ";toc::  \u{c}"] {
        assert!(is_refused(source), "{source:?} must be refused");
    }
}

#[test]
fn a_windows_document_of_any_size_is_unaffected() {
    let mut document = String::new();
    for index in 0..200 {
        document.push_str(&format!("Line {index} with *bold* text.\r\n\r\n"));
    }

    assert!(!holds_the_pattern(&document), "CRLF text puts a line feed after every carriage return");
    assert!(!is_refused(&document), "a Windows document must render");
}

#[test]
fn a_refusal_message_is_exact() {
    let error = parse("ab\u{b}").unwrap_err();
    assert_eq!(
        error,
        DomainError::ParseFailed {
            path: "boundary.adoc".to_owned(),
            location: adocpdf::error::SourceLocation::new(1, 3),
            reason: "the document contains U+000B; asciidoc-parser 0.29.19 does not reliably terminate on a document containing that character, so it is refused rather than rendered".to_owned(),
        }
    );
    let error = parse("x\r\t").unwrap_err();
    assert!(error.message().contains("followed by U+0009 rather than by a line feed"), "{}", error.message());
}

#[test]
fn a_position_counts_lines_and_columns_from_one() {
    let source: Vec<char> = "ab\ncd\n\nef".chars().collect();
    assert_eq!(location_of_offset(&source, 0), adocpdf::error::SourceLocation::new(1, 1));
    assert_eq!(location_of_offset(&source, 4), adocpdf::error::SourceLocation::new(2, 2));
    assert_eq!(location_of_offset(&source, 7), adocpdf::error::SourceLocation::new(4, 1));
}

#[test]
fn a_heading_level_is_clamped_into_range() {
    assert_eq!(clamp_level(0).get(), 1);
    assert_eq!(clamp_level(3).get(), 3);
    assert_eq!(clamp_level(9).get(), 6);
}

use adocpdf::markup::string_literal;

fn interior_has_no_unescaped_quote(literal: &str) -> bool {
    let body = &literal[1..literal.len() - 1];
    let mut characters = body.chars();

    while let Some(character) = characters.next() {
        match character {
            '\\' => {
                characters.next();
            }
            '"' => return false,
            _ => {}
        }
    }
    true
}

#[test]
fn ordinary_text_is_quoted_and_otherwise_untouched() {
    assert_eq!(string_literal("Hello, world."), "\"Hello, world.\"");
}

#[test]
fn every_markup_metacharacter_survives_as_content() {
    for character in [
        '*', '_', '`', '$', '#', '@', '<', '>', '~', '-', '+', '=', '/', '[', ']', '(', ')', '\'',
        ':', ';', '.', ',', '!', '?', '%', '^', '&', '|', '{', '}',
    ] {
        let literal = string_literal(&character.to_string());

        assert_eq!(literal, format!("\"{character}\""), "{character:?} must pass through as content, not as markup");
    }
}

#[test]
fn a_quote_cannot_terminate_the_literal() {
    assert_eq!(string_literal("say \"hi\""), r#""say \"hi\"""#);
}

#[test]
fn a_backslash_cannot_escape_the_closing_quote() {
    assert_eq!(string_literal("a\\"), r#""a\\""#);
}

#[test]
fn a_newline_cannot_break_out_of_the_literal() {
    assert_eq!(string_literal("one\ntwo"), r#""one\ntwo""#);
}

#[test]
fn carriage_returns_and_tabs_are_escaped() {
    assert_eq!(string_literal("a\rb\tc"), r#""a\rb\tc""#);
}

#[test]
fn other_control_characters_are_escaped_rather_than_emitted() {
    assert_eq!(string_literal("a\u{0}b"), r#""a\u{0}b""#);
    assert_eq!(string_literal("a\u{7}b"), r#""a\u{7}b""#);
}

#[test]
fn an_attempt_to_close_the_literal_and_inject_an_instruction_fails() {
    let attack = r#"", 1) #set page(width: 1cm) #("#;

    let literal = string_literal(attack);

    assert!(literal.starts_with('"') && literal.ends_with('"'), "the result must be one literal, got: {literal}");
    assert!(interior_has_no_unescaped_quote(&literal), "the payload must not be able to close the literal, got: {literal}");
}

#[test]
fn text_is_preserved_exactly_when_read_back() {
    for source in [
        "plain",
        "with \"quotes\"",
        "with \\ backslash",
        "multi\nline",
        "unicode: é ü 中文 🙂",
        "#set page(width: 1cm)",
    ] {
        let literal = string_literal(source);

        assert!(literal.len() >= source.len() + 2, "escaping never shortens text, got: {literal}");
    }
}

#[test]
fn unicode_passes_through_without_escaping() {
    assert_eq!(string_literal("café 中文 🙂"), "\"café 中文 🙂\"");
}

#[test]
fn empty_text_is_an_empty_literal() {
    assert_eq!(string_literal(""), "\"\"");
}

#[test]
fn a_control_character_is_named_by_its_code_point_in_lower_case() {
    assert_eq!(string_literal("\u{1b}"), r#""\u{1b}""#);
    assert_eq!(string_literal("\u{9f}"), r#""\u{9f}""#);
}

/// Reads a literal back the way the typesetting language does.
fn read_back(literal: &str) -> Option<String> {
    let body: Vec<char> = literal.chars().collect();
    if body.len() < 2 || body[0] != '"' || body[body.len() - 1] != '"' {
        return None;
    }
    let inner = &body[1..body.len() - 1];
    let mut out = String::new();
    let mut i = 0;
    while i < inner.len() {
        match inner[i] {
            '"' => return None,
            '\\' => {
                let escaped = *inner.get(i + 1)?;
                match escaped {
                    '"' => out.push('"'),
                    '\\' => out.push('\\'),
                    'n' => out.push('\n'),
                    'r' => out.push('\r'),
                    't' => out.push('\t'),
                    'u' => {
                        if inner.get(i + 2) != Some(&'{') {
                            return None;
                        }
                        let digits: String =
                            inner[i + 3..].iter().take_while(|c| c.is_ascii_hexdigit()).collect();
                        if inner.get(i + 3 + digits.len()) != Some(&'}') {
                            return None;
                        }
                        out.push(char::from_u32(u32::from_str_radix(&digits, 16).ok()?)?);
                        i += 2 + digits.len();
                    }
                    _ => return None,
                }
                i += 2;
            }
            other => {
                out.push(other);
                i += 1;
            }
        }
    }
    Some(out)
}

#[test]
fn every_text_reads_back_from_its_literal_unchanged() {
    for source in [
        "plain",
        "with \"quotes\"",
        "with \\ backslash",
        "multi\nline",
        "a\rb\tc",
        "a\u{0}b\u{7}c\u{1f}d\u{9f}",
        "unicode: é ü 中文 🙂",
        "#set page(width: 1cm)",
        r#"", 1) #set page(width: 1cm) #("#,
        "",
    ] {
        assert_eq!(read_back(&string_literal(source)).as_deref(), Some(source), "for {source:?}");
    }
}

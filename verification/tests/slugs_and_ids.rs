use pmd::parser_util::{generate_id, get_citation, is_valid_id};
use pmd::structs::Element;
use pmd::text::char_is_space;

#[test]
fn slug_joins_words_with_dashes() {
    assert_eq!(generate_id(&"Hello  big   world".to_string()), Some("Hello-big-world".to_string()));
}

#[test]
fn slug_of_white_space_is_none() {
    assert_eq!(generate_id(&"  \t\n".to_string()), None);
    assert_eq!(generate_id(&String::new()), None);
}

#[test]
fn slug_is_cut_to_the_limit() {
    let long = "a".repeat(40);
    assert_eq!(generate_id(&long), Some("a".repeat(32)));
}

#[test]
fn slug_restarts_with_the_word_that_does_not_fit() {
    // 30 characters and a dash are gathered; the next word does not fit, takes
    // the place of what was gathered, and loses its last character.
    let text = format!("{} {}", "a".repeat(30), "bcd");
    assert_eq!(generate_id(&text), Some("bc".to_string()));
}

#[test]
fn valid_ids_hold_more_than_white_space() {
    assert!(is_valid_id(&"a".to_string()));
    assert!(!is_valid_id(&"   ".to_string()));
    assert!(!is_valid_id(&String::new()));
}

#[test]
fn citation_targets() {
    assert_eq!(get_citation(&"£abc".to_string()), Some(Element::Citation("abc".into())));
    assert_eq!(get_citation(&"£-x".to_string()), Some(Element::Citation("-x".into())));
    assert_eq!(get_citation(&"^7".to_string()), Some(Element::Note("7".into())));
    assert_eq!(get_citation(&"£{x}".to_string()), None);
    assert_eq!(get_citation(&"^".to_string()), None);
    assert_eq!(get_citation(&"plain".to_string()), None);
}

#[test]
fn white_space_is_the_unicode_property() {
    for code in 0..=0x10ffffu32 {
        if let Some(c) = char::from_u32(code) {
            assert_eq!(char_is_space(c), c.is_whitespace(), "U+{:04X}", code);
        }
    }
}

#[test]
fn every_slug_can_serve_as_a_slug() {
    for text in ["a", " a b ", "-", "x\u{3000}y", &"w ".repeat(40), &format!("{} b", "a".repeat(31))] {
        let slug = generate_id(&text.to_string()).unwrap();
        assert!(slug.is_empty() || is_valid_id(&slug), "{:?}", slug);
        assert!(slug.chars().count() <= 32);
    }
    // a word of one character that does not fit leaves nothing
    assert_eq!(generate_id(&format!("{} b", "a".repeat(31))), Some(String::new()));
}

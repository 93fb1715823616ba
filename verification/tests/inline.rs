use pmd::error::ParseError;
use pmd::inline::parse_inline;
use pmd::structs::{Alternative, Element, Span};

fn text(s: &str) -> Element {
    Element::Text(s.into())
}

fn boxed(s: &str) -> Box<Element> {
    Box::new(text(s))
}

#[test]
fn test_parse_remove_escaped() {
    let text: String = "\\[]".into();
    let result = parse_inline(&text);
    assert!(result.is_ok());
    let inner = *result.unwrap().0;
    assert!(inner == Element::Text("[]".into()));
}

#[test]
fn test_parse_remove_escaped_embedding() {
    let text: String = "\\%[]".into();
    let result = parse_inline(&text);
    assert!(result.is_ok());
    let inner = *result.unwrap().0;
    assert!(inner == Element::Text("%[]".into()));
}

#[test]
fn test_parse_hover() {
    let text: String = "%[abc](def)".into();
    let result = parse_inline(&text);
    assert!(result.is_ok());
    let inner = *result.unwrap().0;
    assert!(
        inner
            == Element::Hoverable(Alternative {
                base: Box::new(Element::Text("abc".into())),
                alt: Box::new(Element::Text("def".into()))
            })
    );
}

#[test]
fn test_parse_styling() {
    let text: String = "£{abc}(def)".into();
    let result = parse_inline(&text);
    assert!(result.is_ok());
    let inner = *result.unwrap().0;
    assert!(
        inner
            == Element::Styled(Alternative {
                base: Box::new(Element::Text("abc".into())),
                alt: Box::new(Element::Text("def".into()))
            })
    );
}

#[test]
fn test_parse_hover_with_inner_styling_left() {
    let text: String = "%[£{style}(text)](alternative)".into();
    let result = parse_inline(&text);
    assert!(result.is_ok());
    let inner = *result.unwrap().0;
    assert!(
        inner
            == Element::Hoverable(Alternative {
                base: Box::new(Element::Styled(Alternative {
                    base: Box::new(Element::Text("style".into())),
                    alt: Box::new(Element::Text("text".into()))
                })),
                alt: Box::new(Element::Text("alternative".into()))
            })
    );
}

#[test]
fn test_parse_hover_with_inner_styling_right() {
    let text: String = "%[base](£{style}(text))".into();
    let result = parse_inline(&text);
    assert!(result.is_ok());
    let inner = *result.unwrap().0;
    assert!(
        inner
            == Element::Hoverable(Alternative {
                base: Box::new(Element::Text("base".into())),
                alt: Box::new(Element::Styled(Alternative {
                    base: Box::new(Element::Text("style".into())),
                    alt: Box::new(Element::Text("text".into()))
                })),
            })
    );
}

#[test]
fn test_parse_link() {
    let text: String = "[abc](def)".into();
    let result = parse_inline(&text);
    assert!(result.is_ok());
    let inner = *result.unwrap().0;
    assert!(
        inner
            == Element::Link(Alternative {
                base: Box::new(Element::Text("abc".into())),
                alt: Box::new(Element::Text("def".into()))
            })
    );
}

#[test]
fn test_parse_link_with_styling() {
    let text: String = "[link](£{style}(text))".into();
    let result = parse_inline(&text);
    assert!(result.is_ok());
    let inner = *result.unwrap().0;
    assert!(
        inner
            == Element::Link(Alternative {
                base: Box::new(Element::Text("link".into())),
                alt: Box::new(Element::Styled(Alternative {
                    base: Box::new(Element::Text("style".into())),
                    alt: Box::new(Element::Text("text".into()))
                })),
            })
    );
}

#[test]
fn test_parse_inline_code() {
    let text: String = "`here's some code`".into();
    let result = parse_inline(&text);
    assert!(result.is_ok());
    let inner = *result.unwrap().0;
    assert!(inner == Element::InlineCode("here's some code".into()))
}

#[test]
fn test_parse_italics() {
    let text: String = "*italics*".into();
    let result = parse_inline(&text);
    assert!(result.is_ok());
    let inner = *result.unwrap().0;
    assert!(inner == Element::Italics(Box::new(Element::Text("italics".into()))))
}

#[test]
fn test_parse_bold() {
    let text: String = "**bold**".into();
    let result = parse_inline(&text);
    assert!(result.is_ok());
    let inner = *result.unwrap().0;
    assert!(inner == Element::Bold(Box::new(Element::Text("bold".into()))))
}

#[test]
fn test_parse_bold_and_italics() {
    let text: String = "***italics and bold***".into();
    let result = parse_inline(&text);
    assert!(result.is_ok());
    let inner = *result.unwrap().0;
    assert!(
        inner
            == Element::Bold(Box::new(Element::Italics(Box::new(Element::Text(
                "italics and bold".into()
            )))))
    )
}

#[test]
fn test_parse_bold_with_inner_italics() {
    let text: String = "**bold*italics*bold**".into();
    let result = parse_inline(&text);
    assert!(result.is_ok());
    let inner = *result.unwrap().0;
    assert!(
        inner
            == Element::Bold(Box::new(Element::Span(Span {
                elements: vec![
                    Element::Text("bold".into()),
                    Element::Italics(Box::new(Element::Text("italics".into()))),
                    Element::Text("bold".into()),
                ]
            })))
    )
}

#[test]
fn test_parse_inline_note() {
    let text: String = "[^0]".into();
    let result = parse_inline(&text);
    assert!(result.is_ok());
    let inner = *result.unwrap().0;
    assert!(inner == Element::Note("0".into()))
}

#[test]
fn test_parse_citation_alphabetic() {
    let text: String = "[£example]".into();
    let result = parse_inline(&text);
    assert!(result.is_ok());
    let inner = *result.unwrap().0;
    assert!(inner == Element::Citation("example".into()))
}

#[test]
fn test_parse_citation_dash() {
    let text: String = "[£-other-example]".into();
    let result = parse_inline(&text);
    assert!(result.is_ok());
    let inner = *result.unwrap().0;
    assert!(inner == Element::Citation("-other-example".into()))
}

#[test]
fn plain_text_parses_to_itself() {
    let input: String = "just some plain words".into();
    let (element, slug) = parse_inline(&input).unwrap();
    assert_eq!(*element, text("just some plain words"));
    assert_eq!(slug, "just-some-plain-words");
}

#[test]
fn empty_text_parses_to_empty_span() {
    let (element, slug) = parse_inline(&String::new()).unwrap();
    assert_eq!(*element, Element::Span(Span { elements: vec![] }));
    assert_eq!(slug, "");
}

#[test]
fn unclosed_delimiters_fail() {
    assert_eq!(parse_inline(&"[abc".to_string()), Err(ParseError::MissingCloser(']')));
    assert_eq!(parse_inline(&"%[abc".to_string()), Err(ParseError::MissingCloser(']')));
    assert_eq!(parse_inline(&"£{abc".to_string()), Err(ParseError::MissingCloser('}')));
    assert_eq!(parse_inline(&"[abc](def".to_string()), Err(ParseError::MissingCloser(')')));
    assert_eq!(parse_inline(&"`abc".to_string()), Err(ParseError::MissingCloser('`')));
}

#[test]
fn unclosed_stars_run_to_the_end() {
    assert_eq!(*parse_inline(&"*abc".to_string()).unwrap().0, Element::Italics(boxed("abc")));
    assert_eq!(*parse_inline(&"**abc".to_string()).unwrap().0, Element::Bold(boxed("abc")));
}

#[test]
fn sigil_without_bracket_is_text() {
    let (element, _) = parse_inline(&"a%b".to_string()).unwrap();
    assert_eq!(*element, Element::Span(Span { elements: vec![text("a"), text("%b")] }));
}

#[test]
fn backslash_at_the_end_stands_for_itself() {
    let (element, _) = parse_inline(&"ab\\".to_string()).unwrap();
    assert_eq!(*element, text("ab\\"));
}

#[test]
fn link_to_a_note_keeps_the_reference() {
    let (element, _) = parse_inline(&"[see](^1)".to_string()).unwrap();
    assert_eq!(
        *element,
        Element::Link(Alternative { base: boxed("see"), alt: Box::new(Element::Note("1".into())) })
    );
}

#[test]
fn nested_brackets_balance() {
    let (element, _) = parse_inline(&"%[a[b]c](d(e)f)".to_string()).unwrap();
    match *element {
        Element::Hoverable(pair) => {
            assert_eq!(*pair.alt, text("d(e)f"));
        }
        other => panic!("no hover: {:?}", other),
    }
}

#[test]
fn escaped_stars_do_not_end_bold() {
    assert_eq!(*parse_inline(&"**a\\*b**".to_string()).unwrap().0, Element::Bold(boxed("a*b")));
    assert_eq!(
        *parse_inline(&"**a\\*\\*b** c".to_string()).unwrap().0,
        Element::Span(Span { elements: vec![Element::Bold(boxed("a**b")), text(" c")] })
    );
    // the escaped star is passed over, the star behind it opens italics, and
    // the two stars at the end close the italics and open another
    assert_eq!(
        *parse_inline(&"**a\\**b**".to_string()).unwrap().0,
        Element::Bold(Box::new(Element::Span(Span {
            elements: vec![
                text("a*"),
                Element::Italics(boxed("b")),
                Element::Italics(Box::new(Element::Span(Span { elements: vec![] }))),
            ]
        })))
    );
}

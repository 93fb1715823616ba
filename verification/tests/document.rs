use pmd::error::{Diagnostic, ParseError};
use pmd::paws_markdown::{parse, parse_with_diagnostics};
use pmd::reference::PmdDate;
use pmd::structs::{
    AssDownDocument, Element, FactBox, Image, ImageSize, ListItem, ParseUnitError, Unit,
};

fn doc(text: &str) -> AssDownDocument {
    parse(&text.to_string(), None).unwrap()
}

fn slugs(document: &AssDownDocument) -> Vec<String> {
    let mut all = vec![];
    for (element, slug) in &document.body {
        all.push(slug.clone());
        if let Element::FactBox(inner) = element {
            for (_, slug) in &inner.body {
                all.push(slug.clone());
            }
        }
    }
    all
}

fn plain(s: &str) -> Box<Element> {
    Box::new(Element::Text(s.into()))
}

#[test]
fn paragraphs_and_headings() {
    let document = doc("# A title\n\nsome words\n\n## A title\n");
    assert_eq!(
        document.body,
        vec![
            (Element::Header(plain("A title"), 1), "A-title".to_string()),
            (Element::Paragraph(plain("some words\n")), "some-words".to_string()),
            (Element::Header(plain("A title"), 2), "A-title-2".to_string()),
        ]
    );
}

#[test]
fn slugs_are_unique() {
    let document = doc(
        "same\n\nsame\n\nsame\n\n---\n\n---\n\n```\na\n```\n\n```\nb\n```\n\n[[fact] same\nsame\n\nsame\n]\n\n[[fact] same\nsame\n]\n\nsame-same\n",
    );
    let all: Vec<String> = slugs(&document).into_iter().filter(|s| !s.trim().is_empty()).collect();
    let mut sorted = all.clone();
    sorted.sort();
    sorted.dedup();
    assert_eq!(sorted.len(), all.len(), "{:?}", all);
    assert_eq!(
        all,
        vec![
            "same",
            "same-1",
            "same-2",
            "codeblock",
            "codeblock-1",
            "same-7",
            "same-same",
            "same-same-1",
            "same-8",
            "same-same-8",
            "same-same-9",
        ]
    );
}

#[test]
fn default_slugs_count_up() {
    let document = doc("- a\n\n- b\n\n> q\n\n[[p]]\n\n[[fact]\n]\n\n[[fact]\n]\n");
    let all = slugs(&document);
    assert_eq!(all, vec!["list-0", "list-1", "quote-0", "image-0", "Fact-Box", "Fact-Box-5"]);
}

#[test]
fn fact_box_is_a_document_of_its_own() {
    let document = doc("[[fact] Box\n# Head\n[^1]: note\nwords [^1]\n£ref {\n  title: T\n}\n]\n");
    assert_eq!(document.body.len(), 1);
    let (element, slug) = &document.body[0];
    assert_eq!(slug, "Box");
    match element {
        Element::FactBox(FactBox { title, notes, body }) => {
            assert_eq!(title, " Box");
            assert_eq!(
                notes.entries,
                vec![("1".to_string(), (Element::Text("note".into()), "Box-1".to_string()))]
            );
            assert_eq!(body.len(), 2);
            assert_eq!(body[0], (Element::Header(plain("Head"), 1), "Box-Head".to_string()));
            assert_eq!(body[1].1, "Box-words");
        }
        other => panic!("no fact box: {:?}", other),
    }
    assert_eq!(document.references.entries.len(), 1);
    assert_eq!(document.references.entries[0].0, "ref");
    assert!(document.notes.is_empty());
}

#[test]
fn nested_fact_box_is_dropped() {
    let text = "[[fact] Outer\nbefore\n\n[[fact] Inner\ninside\n] \n\nafter\n]\n".to_string();
    let (document, diagnostics) = parse_with_diagnostics(&text, None).unwrap();
    assert_eq!(diagnostics, vec![Diagnostic::NestedFactBox]);
    assert_eq!(document.body.len(), 1);
    match &document.body[0].0 {
        Element::FactBox(outer) => {
            assert_eq!(
                outer.body,
                vec![
                    (Element::Paragraph(plain("before\n")), "Outer-before".to_string()),
                    (Element::Paragraph(plain("after\n")), "Outer-after".to_string()),
                ]
            );
        }
        other => panic!("no fact box: {:?}", other),
    }
}

#[test]
fn header_in_fact_box_is_dropped() {
    let text = "[[fact] Outer\n---\ntitle: no\n---\nwords\n]\n".to_string();
    let (document, diagnostics) = parse_with_diagnostics(&text, None).unwrap();
    assert_eq!(diagnostics, vec![Diagnostic::FrontmatterInFactBox]);
    assert_eq!(document.meta.title, "");
    assert!(document.meta.frontmatter.is_none());
}

#[test]
fn notes_section_keeps_its_slug() {
    let document = doc("# Notes\n\nwords [^1]\n\n[^1]: the note\n");
    assert_eq!(document.notes_id, "Notes");
    assert_eq!(
        slugs(&document),
        vec!["Notes-disass".to_string(), "words".to_string()]
    );
    assert_eq!(document.notes.entries, vec![("1".to_string(), Element::Text("the note".into()))]);
}

#[test]
fn configured_sections_keep_their_slugs() {
    let text = "---\nnotes-title: My notes\nsources title: Read more\n---\n# My notes\n\n[[fact] Read\n# more\n]\n\n[^n]: x\n£r {\n}\n";
    let document = doc(text);
    assert_eq!(document.meta.notes_title, "My notes");
    assert_eq!(document.meta.bibliography_title, "Read more");
    assert_eq!(document.notes_id, "My-notes");
    assert_eq!(document.bibliography_id, "Read-more");
    assert_eq!(slugs(&document), vec!["My-notes-disass", "Read", "Read-more-disass"]);
}

#[test]
fn section_without_entries_renames_nothing() {
    let document = doc("# Notes\n\n# Bibliography\n");
    assert_eq!(slugs(&document), vec!["Notes", "Bibliography"]);
}

#[test]
fn metadata_from_the_header() {
    let text = "---\ntitle: The title\nsubtitle: Sub\nbanner: b.png\ndate written: 2024-01-02\nlast_updated: yesterday\nbase url: https://x.y\ndata-dir: d\nblog: b\nhide notes: true\n---\nwords\n";
    let (document, diagnostics) =
        parse_with_diagnostics(&text.to_string(), Some(&"file.pmd".to_string())).unwrap();
    assert_eq!(diagnostics, vec![]);
    let meta = &document.meta;
    assert_eq!(meta.title, "The title");
    assert_eq!(meta.subtitle, "Sub");
    assert_eq!(meta.banner, "b.png");
    assert_eq!(meta.date_written, PmdDate::Text("2024-01-02".into()));
    assert_eq!(meta.last_update, PmdDate::Text("yesterday".into()));
    assert_eq!(meta.url, "https://x.y");
    assert_eq!(meta.data_dir, "d");
    assert_eq!(meta.blog_dir, "b");
    assert!(meta.hide_notes);
    assert!(!meta.hide_references);
    assert!(!meta.hide_contacts);
    assert_eq!(meta.notes_title, "Notes");
    assert_eq!(meta.bibliography_title, "Bibliography");
    assert!(meta.frontmatter.is_some());
    assert!(meta.toc.is_none());
}

#[test]
fn missing_metadata_is_noted() {
    let path = "file.pmd".to_string();
    let (document, diagnostics) =
        parse_with_diagnostics(&"words\n".to_string(), Some(&path)).unwrap();
    assert_eq!(diagnostics, vec![Diagnostic::MissingFrontmatter]);
    assert_eq!(document.meta.title, "");
    assert_eq!(document.meta.data_dir, "data");
    assert_eq!(document.meta.blog_dir, "blog");
    assert_eq!(document.meta.date_written, PmdDate::Unset);
    let (_, diagnostics) =
        parse_with_diagnostics(&"---\nx: y\n---\n".to_string(), Some(&path)).unwrap();
    assert_eq!(diagnostics, vec![Diagnostic::MissingTitle, Diagnostic::MissingDate]);
    let (_, diagnostics) = parse_with_diagnostics(&"---\nx: y\n---\n".to_string(), None).unwrap();
    assert_eq!(diagnostics, vec![]);
    let (document, diagnostics) =
        parse_with_diagnostics(&"---\n- [\n---\nwords\n".to_string(), None).unwrap();
    assert_eq!(diagnostics, vec![Diagnostic::MalformedFrontmatter]);
    assert_eq!(document.body.len(), 1);
}

#[test]
fn table_of_contents() {
    let text = "# Before\n\n#[toc] Contents\n\n# One\n\n### Deep\n\n[[fact] Box\n# Inside\n]\n\n#[toc] Again\n\n[^1]: n\n";
    let document = doc(text);
    assert_eq!(document.body[1], (Element::TOCLocationMarker, "".to_string()));
    assert_eq!(document.body.len(), 5);
    let toc = document.meta.toc.as_ref().unwrap();
    assert_eq!(toc.title, "Contents");
    assert_eq!(toc.index, 1);
    assert_eq!(toc.max_depth, 3);
    let entries: Vec<(usize, String)> = toc.headers.iter().map(|h| (h.1, h.2.clone())).collect();
    assert_eq!(
        entries,
        vec![
            (1, "One".to_string()),
            (3, "Deep".to_string()),
            (2, "Box".to_string()),
            (1, "Notes".to_string()),
        ]
    );
    assert_eq!(*toc.headers[0].0, Element::Text("One".into()));
    assert_eq!(*toc.headers[3].0, Element::Text("Notes".into()));
    assert!(matches!(*toc.headers[2].0, Element::FactBox(_)));
}

#[test]
fn lists_and_quotes_are_parsed_inline() {
    let document = doc("- *a*\n  1. b\n\n> **q**\n> r\n");
    assert_eq!(
        document.body[0].0,
        Element::List(vec![
            ListItem::Unordered(Box::new(Element::Italics(plain("a")))),
            ListItem::List(vec![ListItem::Numbered(1, plain("b"))]),
        ])
    );
    assert_eq!(
        document.body[1].0,
        Element::Quote(vec![Element::Bold(plain("q")), Element::Text("r".into())])
    );
}

#[test]
fn images_in_a_document() {
    let (document, diagnostics) =
        parse_with_diagnostics(&"[[a.png|10emx20%] An *alt*]\n\n[[b.png]]\n".to_string(), None)
            .unwrap();
    assert_eq!(diagnostics, vec![Diagnostic::ImageSizeIgnored]);
    match &document.body[0] {
        (Element::Image(Image { src, alt: _, size }), slug) => {
            assert_eq!(src, "a.png");
            assert_eq!(*size, ImageSize::Double(Unit::Em(10), Unit::Percentage(20)));
            assert_eq!(slug, "An-alt");
        }
        other => panic!("no image: {:?}", other),
    }
    assert_eq!(document.body[1].1, "image-1");
}

#[test]
fn errors() {
    assert_eq!(parse(&"words [open\n".to_string(), None), Err(ParseError::MissingCloser(']')));
    assert_eq!(parse(&"# `code\n".to_string(), None), Err(ParseError::MissingCloser('`')));
    assert_eq!(parse(&"[^1]: £{x\n".to_string(), None), Err(ParseError::MissingCloser('}')));
    assert_eq!(parse(&"- a\n- %[b](c\n".to_string(), None), Err(ParseError::MissingCloser(')')));
    assert_eq!(
        parse(&"[[fact] t\n> [x\n]\n".to_string(), None),
        Err(ParseError::MissingCloser(']'))
    );
    assert_eq!(
        parse(&"[[a.png|12]]\n".to_string(), None),
        Err(ParseError::BadImageSize(ParseUnitError::NotAUnit))
    );
    assert_eq!(
        parse(&"[[a.png|wxh]]\n".to_string(), None),
        Err(ParseError::BadImageSize(ParseUnitError::NotANumber))
    );
}

#[test]
fn a_reference_that_comes_twice_keeps_its_place() {
    let document = doc("£a {\n  title: one\n}\n\n£b {\n}\n\n£a {\n  title: two\n}\n");
    let ids: Vec<&str> = document.references.entries.iter().map(|e| e.0.as_str()).collect();
    assert_eq!(ids, vec!["a", "b"]);
    assert_eq!(
        document.references.entries[0].1.fields,
        vec![("title".to_string(), "two".to_string())]
    );
}

#[test]
fn empty_document() {
    let document = doc("");
    assert!(document.body.is_empty());
    assert!(document.notes.is_empty());
    assert!(document.references.is_empty());
    assert_eq!(document.notes_id, "Notes");
    assert_eq!(document.bibliography_id, "Bibliography");
}

#[test]
fn long_document() {
    let mut source = String::from("---\ntitle: Long\ndate: today\n---\n");
    for i in 0..400 {
        source.push_str(&format!("# Section {}\n\nsame words *here* and %[there](t)\n\n", i % 7));
        if i % 50 == 0 {
            source.push_str("[[fact] Section 1\nsame words\n\n- a\n  - b\n]\n\n");
        }
    }
    let document = doc(&source);
    assert_eq!(document.body.len(), 808);
    let all: Vec<String> = slugs(&document).into_iter().filter(|s| !s.trim().is_empty()).collect();
    let mut sorted = all.clone();
    sorted.sort();
    sorted.dedup();
    assert_eq!(sorted.len(), all.len());
}

#[test]
fn text_that_is_no_ascii() {
    let document = doc("# Überschrift – Größe\n\n»Zitat« mit £{rot}(Farbe) und [£müller]\n[^ä]: Fußnote ✓\n");
    assert_eq!(document.body[0].1, "Überschrift-–-Größe");
    assert_eq!(document.notes.entries[0].0, "ä");
    assert_eq!(document.notes.entries[0].1, Element::Text("Fußnote ✓".into()));
    match &document.body[1].0 {
        Element::Paragraph(inner) => match &**inner {
            Element::Span(span) => {
                assert_eq!(span.elements[0], Element::Text("»Zitat« mit ".into()));
                assert_eq!(span.elements[3], Element::Citation("müller".into()));
            }
            other => panic!("no span: {:?}", other),
        },
        other => panic!("no paragraph: {:?}", other),
    }
}

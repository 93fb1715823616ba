use pmd::error::{Diagnostic, ParseError};
use pmd::factbox::{parse_factbox_body, parse_factbox_element, plain_block};
use pmd::frontmatter::{Frontmatter, YamlValue};
use pmd::ordered_map::OrderedMap;
use pmd::parser::{
    check_id, counted, parse_codeblock_element, parse_frontmatter_element, parse_heading_element,
    parse_image_element, parse_list_element, parse_list_element_inner, parse_pagebreak_element,
    parse_paragraph_element, parse_quote_element, MaybeElement,
};
use pmd::parser_util::{
    check_frontmatter, get_bibliography_title, get_blog_dir, get_data_dir, get_date,
    get_frontmatter_text, get_last_update, get_url, ParserInfo,
};
use pmd::paws_markdown::assemble;
use pmd::slugs::{contains_slug, dedup};
use pmd::structs::{Element, ListItem, MetaData};
use pmd::toplevel::structs as toplevel;
use pmd::toplevel::structs::TopLevelSyntax;

fn plain(s: &str) -> Box<Element> {
    Box::new(Element::Text(s.into()))
}

fn header(entries: &[(&str, &str)]) -> Frontmatter {
    Frontmatter::new_raw(
        String::new(),
        entries.iter().map(|(k, v)| (k.to_string(), YamlValue::Text(v.to_string()))).collect(),
    )
}

#[test]
fn each_block_gives_its_element() {
    let mut info = ParserInfo::new();
    assert_eq!(
        parse_pagebreak_element(&mut info, &TopLevelSyntax::PageBreak),
        Ok(MaybeElement::Yes((Element::PageBreak, String::new())))
    );
    assert_eq!(
        parse_frontmatter_element(&mut info, &TopLevelSyntax::FrontMatter(Frontmatter::new())),
        Ok(MaybeElement::Yes((Element::PageBreak, String::new())))
    );
    assert_eq!(
        parse_codeblock_element(&mut info, &TopLevelSyntax::CodeBlock("x".into())),
        Ok(MaybeElement::Yes((Element::CodeBlock("x".into()), "codeblock".to_string())))
    );
    assert_eq!(
        parse_codeblock_element(&mut info, &TopLevelSyntax::CodeBlock("y".into())),
        Ok(MaybeElement::Yes((Element::CodeBlock("y".into()), "codeblock-1".to_string())))
    );
    assert_eq!(info.num_codeblocks, 2);
    assert_eq!(
        parse_heading_element(&mut info, &TopLevelSyntax::Heading("A *b*".into(), 2)),
        Ok(MaybeElement::Yes((
            Element::Header(
                Box::new(Element::Span(pmd::structs::Span {
                    elements: vec![
                        Element::Text("A ".into()),
                        Element::Italics(plain("b"))
                    ]
                })),
                2
            ),
            "A-b".to_string()
        )))
    );
    assert_eq!(
        parse_paragraph_element(&mut info, &TopLevelSyntax::Paragraph("words\n".into())),
        Ok(MaybeElement::Yes((Element::Paragraph(plain("words\n")), "words".to_string())))
    );
    assert_eq!(
        parse_quote_element(&mut info, &TopLevelSyntax::Quote(vec!["a".into(), "b".into()])),
        Ok(MaybeElement::Yes((
            Element::Quote(vec![Element::Text("a".into()), Element::Text("b".into())]),
            "quote-0".to_string()
        )))
    );
    assert_eq!(
        parse_list_element(
            &mut info,
            &TopLevelSyntax::List(vec![toplevel::ListItem::NumberedRounded(4, "x".into())])
        ),
        Ok(MaybeElement::Yes((
            Element::List(vec![ListItem::NumberedRounded(4, plain("x"))]),
            "list-0".to_string()
        )))
    );
    assert_eq!(
        parse_image_element(
            &mut info,
            &TopLevelSyntax::Image(toplevel::Image::new_with_alt("p".into(), "the alt".into()))
        ),
        Ok(MaybeElement::Yes((
            Element::Image(pmd::structs::Image {
                src: "p".into(),
                alt: plain("the alt"),
                size: pmd::structs::ImageSize::Unset
            }),
            "the-alt".to_string()
        )))
    );
    assert_eq!(info.num_quotes, 1);
    assert_eq!(info.num_lists, 1);
    assert_eq!(info.num_image, 1);
    assert!(info.body.is_empty());
}

#[test]
fn a_block_of_another_kind_gives_nothing() {
    let mut info = ParserInfo::new();
    let block = TopLevelSyntax::Paragraph("p".into());
    assert_eq!(parse_pagebreak_element(&mut info, &block), Ok(MaybeElement::No));
    assert_eq!(parse_frontmatter_element(&mut info, &block), Ok(MaybeElement::No));
    assert_eq!(parse_codeblock_element(&mut info, &block), Ok(MaybeElement::No));
    assert_eq!(parse_heading_element(&mut info, &block), Ok(MaybeElement::No));
    assert_eq!(parse_quote_element(&mut info, &block), Ok(MaybeElement::No));
    assert_eq!(parse_list_element(&mut info, &block), Ok(MaybeElement::No));
    assert_eq!(parse_image_element(&mut info, &block), Ok(MaybeElement::No));
    assert_eq!(parse_factbox_element(&mut info, &block), Ok(MaybeElement::No));
    assert_eq!(parse_paragraph_element(&mut info, &TopLevelSyntax::PageBreak), Ok(MaybeElement::No));
    assert_eq!(info.num_codeblocks + info.num_quotes + info.num_lists + info.num_image, 0);
}

#[test]
fn nested_list_items() {
    let items = vec![
        toplevel::ListItem::Unordered("a".into()),
        toplevel::ListItem::InnerList(vec![toplevel::ListItem::Alphabetical(
            "b".into(),
            "c".into(),
        )]),
    ];
    assert_eq!(
        parse_list_element_inner(&items),
        Ok(ListItem::List(vec![
            ListItem::Unordered(plain("a")),
            ListItem::List(vec![ListItem::Alphabetical("b".into(), plain("c"))]),
        ]))
    );
    let broken = vec![toplevel::ListItem::Unordered("[x".into())];
    assert_eq!(parse_list_element_inner(&broken), Err(ParseError::MissingCloser(']')));
}

#[test]
fn check_id_makes_the_last_slug_free() {
    let mut info = ParserInfo::new();
    info.ids = vec!["a".to_string(), "a-0".to_string()];
    info.body.push((Element::PageBreak, "a".to_string()));
    check_id(&mut info, 0);
    assert_eq!(info.body[0].1, "a-0-0");
    assert_eq!(info.ids, vec!["a", "a-0", "a-0-0"]);
    // nothing happens where the body did not grow, or the slug is white space
    check_id(&mut info, 1);
    assert_eq!(info.ids.len(), 3);
    info.body.push((Element::PageBreak, "  ".to_string()));
    check_id(&mut info, 1);
    assert_eq!(info.body[1].1, "  ");
    assert_eq!(info.ids.len(), 3);
}

#[test]
fn free_slugs() {
    let ids = vec!["x".to_string(), "x-1".to_string()];
    let suffix: Vec<char> = "-1".chars().collect();
    assert!(contains_slug(&ids, &"x".to_string()));
    assert!(!contains_slug(&ids, &"y".to_string()));
    assert_eq!(dedup("x".to_string(), &ids, &suffix), "x-1-1");
    assert_eq!(dedup("y".to_string(), &ids, &suffix), "y");
    assert_eq!(counted("list", 12), "list-12");
    assert_eq!(counted("quote", 0), "quote-0");
}

#[test]
fn blocks_join_the_assembly() {
    let mut info = ParserInfo::new();
    assert_eq!(plain_block(&mut info, &TopLevelSyntax::Paragraph("p".into())), Ok(true));
    assert_eq!(plain_block(&mut info, &TopLevelSyntax::TOC("t".into())), Ok(true));
    assert_eq!(plain_block(&mut info, &TopLevelSyntax::TOC("again".into())), Ok(true));
    assert_eq!(
        plain_block(
            &mut info,
            &TopLevelSyntax::NoteDefinition { id: "n".into(), text: "*x*".into() }
        ),
        Ok(true)
    );
    assert_eq!(plain_block(&mut info, &TopLevelSyntax::FrontMatter(Frontmatter::new())), Ok(false));
    assert_eq!(
        plain_block(&mut info, &TopLevelSyntax::FactBox { title: "t".into(), body: vec![] }),
        Ok(false)
    );
    assert_eq!(
        plain_block(&mut info, &TopLevelSyntax::Paragraph("`x".into())),
        Err(ParseError::MissingCloser('`'))
    );
    assert_eq!(info.body.len(), 2);
    assert_eq!(info.body[1], (Element::TOCLocationMarker, String::new()));
    assert_eq!(info.metadata.toc.as_ref().unwrap().title, "t");
    assert_eq!(info.metadata.toc.as_ref().unwrap().index, 1);
    assert_eq!(info.notes.entries, vec![("n".to_string(), Element::Italics(plain("x")))]);
    assert_eq!(info.ids, vec!["p"]);
}

#[test]
fn body_of_a_fact_box() {
    let blocks = vec![
        TopLevelSyntax::Heading("h".into(), 1),
        TopLevelSyntax::FactBox { title: "inner".into(), body: vec![] },
        TopLevelSyntax::FrontMatter(Frontmatter::new()),
        TopLevelSyntax::Heading("h".into(), 2),
    ];
    let info = parse_factbox_body(&blocks).ok().unwrap();
    assert_eq!(
        info.diagnostics,
        vec![Diagnostic::NestedFactBox, Diagnostic::FrontmatterInFactBox]
    );
    let slugs: Vec<&str> = info.body.iter().map(|e| e.1.as_str()).collect();
    assert_eq!(slugs, vec!["h", "h-1"]);
    let top = assemble(&blocks).ok().unwrap();
    assert_eq!(top.body.len(), 3);
    assert!(top.metadata.frontmatter.is_some());
    assert!(top.diagnostics.is_empty());
}

#[test]
fn ordered_map_keeps_the_first_place() {
    let mut map: OrderedMap<u8> = OrderedMap::new();
    assert!(map.is_empty());
    map.insert("b".into(), 1);
    map.insert("a".into(), 2);
    map.insert("b".into(), 3);
    assert_eq!(map.len(), 2);
    assert_eq!(map.entries, vec![("b".to_string(), 3), ("a".to_string(), 2)]);
    assert_eq!(map.get(&"a".to_string()), Some(&2));
    assert_eq!(map.get(&"c".to_string()), None);
    assert!(map.contains_key(&"b".to_string()));
    assert!(!map.contains_key(&"c".to_string()));
    assert_eq!(map.position(&"a".to_string()), Some(1));
}

#[test]
fn header_entries_by_their_names() {
    let fm = header(&[
        ("base url", "u2"),
        ("blog_dir", "b"),
        ("data dir", "d"),
        ("date_written", "w"),
        ("last update", "l"),
        ("references_title", "r"),
        ("hide notes", "yes"),
    ]);
    assert_eq!(get_url(&fm), Some("u2".to_string()));
    assert_eq!(get_blog_dir(&fm), Some("b".to_string()));
    assert_eq!(get_data_dir(&fm), Some("d".to_string()));
    assert_eq!(get_date(&fm), Some("w".to_string()));
    assert_eq!(get_last_update(&fm), Some("l".to_string()));
    assert_eq!(get_bibliography_title(&fm), Some("r".to_string()));
    assert!(check_frontmatter(&fm, &vec!["hide-notes"]));
    assert!(check_frontmatter(&fm, &vec!["hide-contacts", "hide-notes"]));
    assert!(!check_frontmatter(&fm, &vec!["hide-contacts"]));
    assert!(!check_frontmatter(&fm, &vec![]));
    assert_eq!(get_frontmatter_text(&fm, &vec!["nothing", "data-dir"]), "d");
    assert_eq!(get_frontmatter_text(&fm, &vec!["nothing"]), "");
    let empty = Frontmatter::new();
    assert_eq!(get_url(&empty), None);
    assert_eq!(get_date(&empty), None);
    let first = header(&[("url", "u1"), ("base-url", "u4"), ("date", "d1"), ("date-written", "d2")]);
    assert_eq!(get_url(&first), Some("u1".to_string()));
    assert_eq!(get_date(&first), Some("d1".to_string()));
}

#[test]
fn default_metadata() {
    let meta = MetaData::default();
    assert_eq!(meta.title, "");
    assert_eq!(meta.url, "");
    assert_eq!(meta.data_dir, "data");
    assert_eq!(meta.blog_dir, "blog");
    assert_eq!(meta.notes_title, "Notes");
    assert_eq!(meta.bibliography_title, "Bibliography");
    assert!(meta.toc.is_none());
    assert!(meta.frontmatter.is_none());
    assert!(!meta.hide_notes && !meta.hide_references && !meta.hide_contacts);
}

#[test]
fn copies_are_equal() {
    let text = "# H\n\n[[fact] B\n- *a*\n  1. b\n[^n]: x\n]\n\n[[i|1emx2em] alt]\n\n%[a](b)£{c}(d)[e](f)`g`\n";
    let document = pmd::parse(&text.to_string(), None).unwrap();
    for (element, _) in &document.body {
        assert_eq!(&element.clone(), element);
    }
}

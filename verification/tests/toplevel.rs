use pmd::toplevel::parser::{
    find_end_balanced, is_meta, parse_citation, parse_codeblock, parse_embedding, parse_factbox,
    parse_heading, parse_note, parse_pagebreak, parse_quote, parse_table_of_contents,
    skip_comment, string_has_delimeter, toplevel_parse, trim_delimeter_start,
};
use pmd::toplevel::parser_object::ParseObject;
use pmd::toplevel::structs::{Image, ImageSize, ListItem, TopLevelSyntax};

#[test]
fn skipping_comment() {
    let mut obj = ParseObject::new("%% a single line comment%%");
    let result = skip_comment(&mut obj);
    assert_eq!(result, true);
    assert_eq!(obj.has_text(), false);
}

#[test]
fn skipping_comment_with_starting_whitespace() {
    let mut obj = ParseObject::new("         %% a single line comment%%");
    let result = skip_comment(&mut obj);
    assert_eq!(result, true);
    assert_eq!(obj.has_text(), false);
}

#[test]
fn skipping_comment_spanning_multiple_lines() {
    let mut obj = ParseObject::new("%% a comment\nover mulitple\nlines%%");
    let result = skip_comment(&mut obj);
    assert_eq!(result, true);
    assert_eq!(obj.has_text(), false);
}

#[test]
fn skipping_comment_with_text_after() {
    let mut obj = ParseObject::new("%% a comment %%this should not be deleted");
    let result = skip_comment(&mut obj);
    assert_eq!(result, true);
    assert_eq!(obj.has_text(), true);
    assert_eq!(obj.text(), "this should not be deleted");
}

#[test]
fn comment_that_never_ends_is_no_comment() {
    let mut obj = ParseObject::new("%% a comment\nnever closed");
    assert_eq!(skip_comment(&mut obj), false);
    assert_eq!(obj.text(), "%% a comment\nnever closed");
}

#[test]
fn test_string_has_delimeter() {
    assert_eq!(string_has_delimeter("last-update"), Some('-'));
    assert_eq!(string_has_delimeter("last.update"), Some('.'));
    assert_eq!(string_has_delimeter("last update"), Some(' '));
    assert_eq!(string_has_delimeter("a.b-c"), Some('.'));
    assert_eq!(string_has_delimeter("toc"), None);
    assert_eq!(string_has_delimeter(""), None);
}

#[test]
fn test_trim_delimeter_start() {
    assert_eq!(trim_delimeter_start("- .update"), "update");
    assert_eq!(trim_delimeter_start("update"), "update");
    assert_eq!(trim_delimeter_start("up-date"), "up-date");
    assert_eq!(trim_delimeter_start("..."), "");
    assert_eq!(trim_delimeter_start(""), "");
}

#[test]
fn test_is_meta() {
    assert_eq!(is_meta("#[title] text", "title"), Some(8));
    assert_eq!(is_meta("#[   title  ] text", "title"), Some(13));
    assert_eq!(is_meta("#[last-update]", "last-update"), Some(14));
    assert_eq!(is_meta("#[last update]", "last-update"), Some(14));
    assert_eq!(is_meta("#[last.update]", "last-update"), Some(14));
    assert_eq!(is_meta("#[table of contents]", "table-of-contents"), Some(20));
    // one delimiter between two words, and the same one everywhere
    assert_eq!(is_meta("#[last--update]", "last-update"), None);
    assert_eq!(is_meta("#[table-of contents]", "table-of-contents"), None);
    assert_eq!(is_meta("#[title", "title"), None);
    assert_eq!(is_meta("[title]", "title"), None);
    assert_eq!(is_meta("#[titles]", "title"), None);
    assert_eq!(is_meta("#[subtitle]", "title"), None);
}

#[test]
fn test_find_end_balanced() {
    assert_eq!(find_end_balanced("abc]", ('[', ']')), Some(3));
    assert_eq!(find_end_balanced("a[b]c]d", ('[', ']')), Some(5));
    assert_eq!(find_end_balanced("a[[b]]]", ('[', ']')), Some(6));
    assert_eq!(find_end_balanced("]", ('[', ']')), Some(0));
    assert_eq!(find_end_balanced("a[b]", ('[', ']')), None);
    assert_eq!(find_end_balanced("", ('[', ']')), None);
    assert_eq!(find_end_balanced("(a)b)", ('(', ')')), Some(4));
}

#[test]
fn quote_lines() {
    let mut obj = ParseObject::new("> one\n>two\n>  three\nrest");
    assert_eq!(
        parse_quote(&mut obj),
        Some(TopLevelSyntax::Quote(vec!["one".into(), "two".into(), " three".into()]))
    );
    assert_eq!(obj.text(), "rest");
    let mut obj = ParseObject::new("no quote");
    assert_eq!(parse_quote(&mut obj), None);
}

#[test]
fn page_breaks() {
    assert_eq!(parse_pagebreak(&mut ParseObject::new("---")), Some(TopLevelSyntax::PageBreak));
    assert_eq!(parse_pagebreak(&mut ParseObject::new("-----")), Some(TopLevelSyntax::PageBreak));
    assert_eq!(parse_pagebreak(&mut ParseObject::new("------\nx")), Some(TopLevelSyntax::PageBreak));
    assert_eq!(parse_pagebreak(&mut ParseObject::new(" ---")), Some(TopLevelSyntax::PageBreak));
    assert_eq!(parse_pagebreak(&mut ParseObject::new(" --- ")), Some(TopLevelSyntax::PageBreak));
    assert_eq!(parse_pagebreak(&mut ParseObject::new("\t----\u{a0}\nx")), Some(TopLevelSyntax::PageBreak));
    assert_eq!(parse_pagebreak(&mut ParseObject::new("--")), None);
    assert_eq!(parse_pagebreak(&mut ParseObject::new(" -- ")), None);
    assert_eq!(parse_pagebreak(&mut ParseObject::new("--- ---")), None);
    assert_eq!(parse_pagebreak(&mut ParseObject::new("--- x ---")), None);
    assert_eq!(parse_pagebreak(&mut ParseObject::new("---a---")), None);
    assert_eq!(parse_pagebreak(&mut ParseObject::new("- - -")), None);
    assert_eq!(parse_pagebreak(&mut ParseObject::new("   ")), None);
    assert_eq!(parse_pagebreak(&mut ParseObject::new("")), None);
}

#[test]
fn page_break_leaves_the_cursor_as_it_is() {
    let mut obj = ParseObject::new(" --- \nrest");
    assert_eq!(parse_pagebreak(&mut obj), Some(TopLevelSyntax::PageBreak));
    assert_eq!(obj, ParseObject::new(" --- \nrest"));
    let blocks = toplevel_parse(&"a\n  ----  \nb\n".to_string()).unwrap();
    assert_eq!(
        blocks,
        vec![
            TopLevelSyntax::Paragraph("a\n".into()),
            TopLevelSyntax::PageBreak,
            TopLevelSyntax::Paragraph("b\n".into()),
        ]
    );
}

#[test]
fn code_blocks() {
    let mut obj = ParseObject::new("```rust\nlet x = 1;\n``` tail\nnext");
    assert_eq!(
        parse_codeblock(&mut obj),
        Some(TopLevelSyntax::CodeBlock("rust\nlet x = 1;\n```".into()))
    );
    assert_eq!(obj.text(), " tail\nnext");
    let mut obj = ParseObject::new("```never closed");
    assert_eq!(parse_codeblock(&mut obj), None);
    assert_eq!(obj.text(), "```never closed");
}

#[test]
fn table_of_contents_markers() {
    assert_eq!(
        parse_table_of_contents(&mut ParseObject::new("#[toc]   Contents\nx")),
        Some(TopLevelSyntax::TOC("Contents".into()))
    );
    assert_eq!(
        parse_table_of_contents(&mut ParseObject::new("#[table-of-content] A")),
        Some(TopLevelSyntax::TOC("A".into()))
    );
    assert_eq!(
        parse_table_of_contents(&mut ParseObject::new("#[table of contents]")),
        Some(TopLevelSyntax::TOC("".into()))
    );
    assert_eq!(parse_table_of_contents(&mut ParseObject::new("#[title] x")), None);
}

#[test]
fn headings() {
    assert_eq!(
        parse_heading(&mut ParseObject::new("#  A level 1 header")),
        Some(TopLevelSyntax::Heading("A level 1 header".into(), 1))
    );
    assert_eq!(
        parse_heading(&mut ParseObject::new("### deep\nx")),
        Some(TopLevelSyntax::Heading("deep".into(), 3))
    );
    assert_eq!(parse_heading(&mut ParseObject::new("##")), Some(TopLevelSyntax::Heading("".into(), 2)));
    assert_eq!(parse_heading(&mut ParseObject::new(" # no")), None);
}

#[test]
fn note_definitions() {
    assert_eq!(
        parse_note(&mut ParseObject::new("[^1]: the note ")),
        Some(TopLevelSyntax::NoteDefinition { id: "1".into(), text: "the note".into() })
    );
    assert_eq!(
        parse_note(&mut ParseObject::new("[ ^ a b ]:x")),
        Some(TopLevelSyntax::NoteDefinition { id: "a b".into(), text: "x".into() })
    );
    assert_eq!(
        parse_note(&mut ParseObject::new("[^a\\]b]: x")),
        Some(TopLevelSyntax::NoteDefinition { id: "a\\]b".into(), text: "x".into() })
    );
    assert_eq!(parse_note(&mut ParseObject::new("[^1] no colon")), None);
    assert_eq!(parse_note(&mut ParseObject::new("[^]: empty id")), None);
    assert_eq!(parse_note(&mut ParseObject::new("[1]: no caret")), None);
    assert_eq!(parse_note(&mut ParseObject::new("[^1")), None);
}

#[test]
fn images() {
    assert_eq!(
        parse_embedding(&mut ParseObject::new("[[path/to/image.png] an image, with alt text]")),
        Some(TopLevelSyntax::Image(Image::new_with_alt(
            "path/to/image.png".into(),
            "an image, with alt text".into()
        )))
    );
    assert_eq!(
        parse_embedding(&mut ParseObject::new("![[a.png]]")),
        Some(TopLevelSyntax::Image(Image::new("a.png".into())))
    );
    assert_eq!(
        parse_embedding(&mut ParseObject::new("[[a.png]")),
        Some(TopLevelSyntax::Image(Image::new("a.png".into())))
    );
    assert_eq!(
        parse_embedding(&mut ParseObject::new("[[a.png|10x20] alt]")),
        Some(TopLevelSyntax::Image(Image::new_with_alt_and_size(
            "a.png".into(),
            "alt".into(),
            ImageSize::Double("10".into(), "20".into())
        )))
    );
    assert_eq!(
        parse_embedding(&mut ParseObject::new("[[a.png|300]]")),
        Some(TopLevelSyntax::Image(Image::new_with_size(
            "a.png".into(),
            ImageSize::Single("300".into())
        )))
    );
    assert_eq!(
        parse_embedding(&mut ParseObject::new("[[a.png|wide]]")),
        Some(TopLevelSyntax::Image(Image::new("a.png".into())))
    );
    assert_eq!(parse_embedding(&mut ParseObject::new("[[never closed")), None);
    assert_eq!(parse_embedding(&mut ParseObject::new("[one bracket]")), None);
}

#[test]
fn image_with_alt_over_lines() {
    let mut obj = ParseObject::new("[[a.png] first\nsecond [x] third] tail\nnext");
    assert_eq!(
        parse_embedding(&mut obj),
        Some(TopLevelSyntax::Image(Image::new_with_alt(
            "a.png".into(),
            "first\nsecond [x] third".into()
        )))
    );
    assert_eq!(obj.text(), "] tail\nnext");
}

#[test]
fn size_from_width_and_height() {
    assert_eq!(
        ImageSize::from_width_and_height(Some("1".into()), Some("2".into())),
        ImageSize::Double("1".into(), "2".into())
    );
    assert_eq!(
        ImageSize::from_width_and_height(None, Some("2".into())),
        ImageSize::Double("0".into(), "2".into())
    );
    assert_eq!(ImageSize::from_width_and_height(Some("1".into()), None), ImageSize::Single("1".into()));
    assert_eq!(ImageSize::from_width_and_height(None, None), ImageSize::Unset);
}

#[test]
fn fact_boxes() {
    let mut obj = ParseObject::new("[[fact] A title\n  # Head\n  text [x]\n] tail\nnext");
    assert_eq!(
        parse_factbox(&mut obj),
        Some(TopLevelSyntax::FactBox {
            title: " A title".into(),
            body: vec![
                TopLevelSyntax::Heading("Head".into(), 1),
                TopLevelSyntax::Paragraph("text [x]\n".into()),
            ]
        })
    );
    assert_eq!(obj.text(), "] tail\nnext");
    let mut obj = ParseObject::new("[[factbox]\nbody\n]");
    assert_eq!(
        parse_factbox(&mut obj),
        Some(TopLevelSyntax::FactBox {
            title: "Fact Box".into(),
            body: vec![TopLevelSyntax::Paragraph("body\n".into())]
        })
    );
    assert_eq!(parse_factbox(&mut ParseObject::new("[[fact] never closed")), None);
    assert_eq!(parse_factbox(&mut ParseObject::new("[[facts]]")), None);
}

#[test]
fn reference_definitions() {
    let mut obj = ParseObject::new("£baudrillard {\n    title: Simulacra and Simulation,\n    year: 1994,\n}\nnext");
    let result = parse_citation(&mut obj);
    match result {
        Some(TopLevelSyntax::ReferenceDefinition(r)) => {
            assert_eq!(r.id, "baudrillard");
            assert_eq!(
                r.fields,
                vec![
                    ("title".to_string(), "Simulacra and Simulation".to_string()),
                    ("year".to_string(), "1994".to_string()),
                ]
            );
        }
        other => panic!("no reference: {:?}", other),
    }
    assert_eq!(obj.text(), "}\nnext");
    assert_eq!(parse_citation(&mut ParseObject::new("£1 {}")), None);
    assert_eq!(parse_citation(&mut ParseObject::new("£abc no braces")), None);
    assert_eq!(parse_citation(&mut ParseObject::new("£abc {\n no colon\n}")), None);
}

#[test]
fn walk_through_a_document() {
    let text = "# Title\n\nfirst line\nsecond line\n\n%% gone %%\n- a\n- b\n\n> said\n\n---\n\n```\ncode\n```\n\nlast";
    let blocks = toplevel_parse(&text.to_string()).unwrap();
    assert_eq!(
        blocks,
        vec![
            TopLevelSyntax::Heading("Title".into(), 1),
            TopLevelSyntax::Paragraph("first line\nsecond line\n".into()),
            TopLevelSyntax::List(vec![
                ListItem::Unordered("a".into()),
                ListItem::Unordered("b".into())
            ]),
            TopLevelSyntax::Quote(vec!["said".into()]),
            TopLevelSyntax::PageBreak,
            TopLevelSyntax::CodeBlock("\ncode\n```".into()),
            TopLevelSyntax::Paragraph("last\n".into()),
        ]
    );
}

#[test]
fn a_block_ends_the_paragraph() {
    let blocks = toplevel_parse(&"text\n# Head\n".to_string()).unwrap();
    assert_eq!(
        blocks,
        vec![
            TopLevelSyntax::Paragraph("text\n".into()),
            TopLevelSyntax::Heading("Head".into(), 1),
        ]
    );
}

#[test]
fn empty_document_has_no_blocks() {
    assert_eq!(toplevel_parse(&String::new()).unwrap(), vec![]);
    assert_eq!(toplevel_parse(&"\n\n  \n".to_string()).unwrap(), vec![]);
}

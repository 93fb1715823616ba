use pmd::frontmatter::{
    escape_percent, frontmatter_from_decoded, parse_frontmatter, replace_percentage,
    unescape_percent, Frontmatter, FrontmatterHelper, YamlValue,
};

fn chars(s: &str) -> Vec<char> {
    s.chars().collect()
}

#[test]
fn basic_parsing() {
    let (fm, remaining) = parse_frontmatter("---\n---");
    assert_eq!(fm, Some(Frontmatter::new_raw("".into(), vec![])));
    assert_eq!(remaining, "");
}

#[test]
fn actual_results_parsing() {
    let text = r##"---
this: is an element
another : element
---and this would be the remaining text
"##;
    let (fm, remaining) = parse_frontmatter(text);
    assert_eq!(
        fm,
        Some(Frontmatter::new_raw(
            "this: is an element\nanother : element".into(),
            vec![
                ("this".into(), YamlValue::Text("is an element".into())),
                ("another".into(), YamlValue::Text("element".into())),
            ]
        ))
    );
    assert_eq!(remaining, "and this would be the remaining text\n");
}

#[test]
fn parsing_with_percentage() {
    let text = r##"---
this: %p is a penis
and-a-list: 
    - %p
    - last
another : element
---and this would be the remaining text
"##;

    let (fm, remaining) = parse_frontmatter(text);
    assert_eq!(
        fm,
        Some(Frontmatter::new_raw(
            "this: %p is a penis\nand-a-list: \n    - %p\n    - last\nanother : element".into(),
            vec![
                ("this".into(), YamlValue::Text("%p is a penis".into())),
                (
                    "and-a-list".into(),
                    YamlValue::Sequence(vec![
                        YamlValue::Text("%p".into()),
                        YamlValue::Text("last".into()),
                    ])
                ),
                ("another".into(), YamlValue::Text("element".into())),
            ]
        ))
    );
    assert_eq!(remaining, "and this would be the remaining text\n");
}

#[test]
fn text_without_header_stays_whole() {
    let (fm, remaining) = parse_frontmatter("no header\n---\n");
    assert_eq!(fm, None);
    assert_eq!(remaining, "no header\n---\n");
    let (fm, remaining) = parse_frontmatter("---\nnever: closed\n");
    assert_eq!(fm, None);
    assert_eq!(remaining, "---\nnever: closed\n");
}

#[test]
fn header_that_does_not_decode_is_taken_off() {
    let (fm, remaining) = parse_frontmatter("---\n: : :\n- [\n---\nbody");
    assert_eq!(fm, None);
    assert_eq!(remaining, "\nbody");
}

#[test]
fn header_with_windows_line_ends() {
    let (fm, remaining) = parse_frontmatter("---\r\ntitle: T\r\n---\r\nbody");
    assert_eq!(
        fm,
        Some(Frontmatter::new_raw("title: T".into(), vec![("title".into(), YamlValue::Text("T".into()))]))
    );
    assert_eq!(remaining, "\r\nbody");
}

#[test]
fn decoded_values_of_every_kind() {
    let text = "---\na: true\nb: 12\nc: 1.5\nd: ~\ne: {x: y}\nf: !tag v\n---\n";
    let (fm, _) = parse_frontmatter(text);
    let fm = fm.unwrap();
    assert_eq!(fm.index("a"), Some(&YamlValue::Bool(true)));
    assert_eq!(fm.index("b"), Some(&YamlValue::Number("12".into())));
    assert_eq!(fm.index("c"), Some(&YamlValue::Number("1.5".into())));
    assert_eq!(fm.index("d"), Some(&YamlValue::Null));
    assert_eq!(
        fm.index("e"),
        Some(&YamlValue::Mapping(vec![(YamlValue::Text("x".into()), YamlValue::Text("y".into()))]))
    );
    assert_eq!(
        fm.index("f"),
        Some(&YamlValue::Tagged("!tag".into(), Box::new(YamlValue::Text("v".into()))))
    );
    assert_eq!(fm.index("missing"), None);
    assert_eq!(fm.keys(), vec!["a", "b", "c", "d", "e", "f"]);
}

#[test]
fn escaping_round_trips() {
    for text in ["", "%", "_%", "a%b%%c", "__%_", "100% _% of it", "%_%_"] {
        let escaped = escape_percent(&chars(text));
        assert!(!escaped.windows(2).any(|w| w[0] != '_' && w[1] == '%'));
        assert_eq!(unescape_percent(&escaped), chars(text));
    }
    assert_eq!(escape_percent(&chars("a%b")), chars("a_%b"));
    assert_eq!(unescape_percent(&chars("a_%b__%")), chars("a%b_%"));
}

#[test]
fn escapes_leave_every_text_of_a_value() {
    let value = YamlValue::Mapping(vec![(
        YamlValue::Text("k_%".into()),
        YamlValue::Sequence(vec![
            YamlValue::Text("_%p".into()),
            YamlValue::Tagged("!t".into(), Box::new(YamlValue::Text("x_%".into()))),
            YamlValue::Number("1".into()),
        ]),
    )]);
    assert_eq!(
        replace_percentage(&value),
        YamlValue::Mapping(vec![(
            YamlValue::Text("k%".into()),
            YamlValue::Sequence(vec![
                YamlValue::Text("%p".into()),
                YamlValue::Tagged("!t".into(), Box::new(YamlValue::Text("x%".into()))),
                YamlValue::Number("1".into()),
            ]),
        )])
    );
}

#[test]
fn header_from_what_the_decoder_gave() {
    assert_eq!(
        frontmatter_from_decoded(
            "a: _%".into(),
            Some(vec![("a".into(), YamlValue::Text("_%".into()))])
        ),
        Some(Frontmatter::new_raw("a: _%".into(), vec![("a".into(), YamlValue::Text("%".into()))]))
    );
    assert_eq!(frontmatter_from_decoded("".into(), None), Some(Frontmatter::new()));
    assert_eq!(frontmatter_from_decoded("broken".into(), None), None);
}

#[test]
fn joined_keys() {
    let fm = Frontmatter::new_raw(
        "".into(),
        vec![
            ("data dir".into(), YamlValue::Text("one".into())),
            (" data_dir ".into(), YamlValue::Text("two".into())),
            ("other".into(), YamlValue::Null),
        ],
    );
    assert!(fm.has("data dir"));
    assert!(!fm.has("data-dir"));
    assert!(fm.has_joined_key("data-dir"));
    assert!(!fm.has_joined_key("data_dir"));
    // the keys are in order, and the key with the space in front comes first
    assert_eq!(fm.keys(), vec![" data_dir ", "data dir", "other"]);
    assert_eq!(fm.get_with_joined_key("data-dir"), Some(&YamlValue::Text("two".into())));
    assert_eq!(fm.get_with_joined_key("nothing"), None);
    assert_eq!(fm.text_at_joined("data-dir"), Some("two".to_string()));
    assert_eq!(fm.text_at("other"), None);
}

#[test]
fn values_as_text() {
    assert_eq!(YamlValue::Text("t".into()).as_string(), Some("t".to_string()));
    assert_eq!(YamlValue::Bool(true).as_string(), Some("true".to_string()));
    assert_eq!(YamlValue::Bool(false).as_string(), Some("false".to_string()));
    assert_eq!(YamlValue::Number("7".into()).as_string(), Some("7".to_string()));
    assert_eq!(YamlValue::Null.as_string(), None);
    assert_eq!(YamlValue::Sequence(vec![]).as_string(), None);
}

#[test]
fn entries_are_kept_in_the_order_of_their_keys() {
    let mut fm = Frontmatter::new_raw(
        "".into(),
        vec![
            ("b".into(), YamlValue::Bool(true)),
            ("a".into(), YamlValue::Null),
            ("ab".into(), YamlValue::Null),
            ("b".into(), YamlValue::Bool(false)),
            ("\u{e9}".into(), YamlValue::Null),
            ("B".into(), YamlValue::Null),
            ("".into(), YamlValue::Null),
        ],
    );
    assert_eq!(fm.keys(), vec!["", "B", "a", "ab", "b", "\u{e9}"]);
    assert_eq!(fm.index("b"), Some(&YamlValue::Bool(false)));
    fm.insert("aa".into(), YamlValue::Number("1".into()));
    fm.insert("a".into(), YamlValue::Number("2".into()));
    assert_eq!(fm.keys(), vec!["", "B", "a", "aa", "ab", "b", "\u{e9}"]);
    assert_eq!(fm.index("a"), Some(&YamlValue::Number("2".into())));
    let mut keys = fm.keys();
    keys.sort();
    assert_eq!(keys, fm.keys());
}

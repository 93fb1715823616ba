use pmd::toplevel::list_parser::parse_list;
use pmd::toplevel::parser_object::ParseObject;
use pmd::toplevel::structs::{ListItem, TopLevelSyntax};

fn parse(input: &str) -> Option<TopLevelSyntax> {
    let mut obj = ParseObject::new(input);
    parse_list(&mut obj)
}

#[test]
fn list_parser_basic() {
    let result = parse("- a\n\n\n");
    assert!(result.is_some());
    if let Some(list) = result {
        assert_eq!(list, TopLevelSyntax::List(vec![ListItem::Unordered("a".into())]))
    }

    let result = parse("1. a\n\n\n");
    assert!(result.is_some());
    if let Some(list) = result {
        assert_eq!(list, TopLevelSyntax::List(vec![ListItem::Numbered(1, "a".into())]))
    }

    let result = parse("a. a\n\n\n");
    assert!(result.is_some());
    if let Some(list) = result {
        assert_eq!(
            list,
            TopLevelSyntax::List(vec![ListItem::Alphabetical("a".into(), "a".into())])
        )
    }
}

#[test]
fn list_parser_basic_multiple_items() {
    let result = parse("- a\n- b\n- c\n");
    assert!(result.is_some());
    if let Some(list) = result {
        assert_eq!(
            list,
            TopLevelSyntax::List(vec![
                ListItem::Unordered("a".into()),
                ListItem::Unordered("b".into()),
                ListItem::Unordered("c".into()),
            ])
        )
    }

    let result = parse("1. a\n5. b\n3. c\n");
    assert!(result.is_some());
    if let Some(list) = result {
        assert_eq!(
            list,
            TopLevelSyntax::List(vec![
                ListItem::Numbered(1, "a".into()),
                ListItem::Numbered(5, "b".into()),
                ListItem::Numbered(3, "c".into()),
            ])
        )
    }

    let result = parse("a. a\nb. b\nc. c\n");
    assert!(result.is_some());
    if let Some(list) = result {
        assert_eq!(
            list,
            TopLevelSyntax::List(vec![
                ListItem::Alphabetical("a".into(), "a".into()),
                ListItem::Alphabetical("b".into(), "b".into()),
                ListItem::Alphabetical("c".into(), "c".into()),
            ])
        )
    }
}

#[test]
fn list_parser_with_single_space() {
    let result = parse("- a\n - b\n - c\n");
    assert!(result.is_some());
    if let Some(list) = result {
        assert_eq!(
            list,
            TopLevelSyntax::List(vec![
                ListItem::Unordered("a".into()),
                ListItem::Unordered("b".into()),
                ListItem::Unordered("c".into()),
            ])
        )
    }

    let result = parse("1. a\n 2. b\n 3. c\n");
    assert!(result.is_some());
    if let Some(list) = result {
        assert_eq!(
            list,
            TopLevelSyntax::List(vec![
                ListItem::Numbered(1, "a".into()),
                ListItem::Numbered(2, "b".into()),
                ListItem::Numbered(3, "c".into()),
            ])
        )
    }

    let result = parse("a. a\n b. b\n c. c\n");
    assert!(result.is_some());
    if let Some(list) = result {
        assert_eq!(
            list,
            TopLevelSyntax::List(vec![
                ListItem::Alphabetical("a".into(), "a".into()),
                ListItem::Alphabetical("b".into(), "b".into()),
                ListItem::Alphabetical("c".into(), "c".into()),
            ])
        )
    }
}

#[test]
fn list_parser_with_inner_list() {
    let result = parse("- a\n  - b\n  - c\n");
    assert!(result.is_some());
    if let Some(list) = result {
        assert_eq!(
            list,
            TopLevelSyntax::List(vec![
                ListItem::Unordered("a".into()),
                ListItem::InnerList(vec![
                    ListItem::Unordered("b".into()),
                    ListItem::Unordered("c".into()),
                ]),
            ])
        )
    }

    let result = parse("1. a\n  1. b\n  2. c\n");
    assert!(result.is_some());
    if let Some(list) = result {
        assert_eq!(
            list,
            TopLevelSyntax::List(vec![
                ListItem::Numbered(1, "a".into()),
                ListItem::InnerList(vec![
                    ListItem::Numbered(1, "b".into()),
                    ListItem::Numbered(2, "c".into()),
                ]),
            ])
        )
    }

    let result = parse("a. a\n  b. b\n  c. c\n");
    assert!(result.is_some());
    if let Some(list) = result {
        assert_eq!(
            list,
            TopLevelSyntax::List(vec![
                ListItem::Alphabetical("a".into(), "a".into()),
                ListItem::InnerList(vec![
                    ListItem::Alphabetical("b".into(), "b".into()),
                    ListItem::Alphabetical("c".into(), "c".into()),
                ]),
            ])
        )
    }
}

#[test]
fn list_parser_with_two_inner_list() {
    let result = parse(
        "- zero level\n  - first indent\n    - second indent\n  - first indent\n- zero level\n\n",
    );
    assert!(result.is_some());
    if let Some(list) = result {
        assert_eq!(
            list,
            TopLevelSyntax::List(vec![
                ListItem::Unordered("zero level".into()),
                ListItem::InnerList(vec![
                    ListItem::Unordered("first indent".into()),
                    ListItem::InnerList(vec![ListItem::Unordered("second indent".into()),]),
                    ListItem::Unordered("first indent".into()),
                ]),
                ListItem::Unordered("zero level".into()),
            ])
        )
    }

    let result = parse(
        "1. zero level\n  1. first indent\n    1. second indent\n  2. first indent\n2. zero level\n\n",
    );
    assert!(result.is_some());
    if let Some(list) = result {
        assert_eq!(
            list,
            TopLevelSyntax::List(vec![
                ListItem::Numbered(1, "zero level".into()),
                ListItem::InnerList(vec![
                    ListItem::Numbered(1, "first indent".into()),
                    ListItem::InnerList(vec![ListItem::Numbered(1, "second indent".into()),]),
                    ListItem::Numbered(2, "first indent".into()),
                ]),
                ListItem::Numbered(2, "zero level".into()),
            ])
        )
    }

    let result = parse(
        "a. zero level\n  a. first indent\n    a. second indent\n  b. first indent\nc. zero level\n\n",
    );
    assert!(result.is_some());
    if let Some(list) = result {
        assert_eq!(
            list,
            TopLevelSyntax::List(vec![
                ListItem::Alphabetical("a".into(), "zero level".into()),
                ListItem::InnerList(vec![
                    ListItem::Alphabetical("a".into(), "first indent".into()),
                    ListItem::InnerList(vec![ListItem::Alphabetical(
                        "a".into(),
                        "second indent".into()
                    ),]),
                    ListItem::Alphabetical("b".into(), "first indent".into()),
                ]),
                ListItem::Alphabetical("c".into(), "zero level".into()),
            ])
        )
    }
}

#[test]
fn list_parser_with_two_sepperate_lists() {
    let result = parse("- zero level\n    - second indent\n  - first indent\n\n");
    assert!(result.is_some());
    if let Some(list) = result {
        assert_eq!(
            list,
            TopLevelSyntax::List(vec![
                ListItem::Unordered("zero level".into()),
                ListItem::InnerList(vec![
                    ListItem::InnerList(vec![ListItem::Unordered("second indent".into()),]),
                    ListItem::Unordered("first indent".into()),
                ]),
            ])
        )
    }

    let result = parse("1. zero level\n    1. second indent\n  1. first indent\n\n");
    assert!(result.is_some());
    if let Some(list) = result {
        assert_eq!(
            list,
            TopLevelSyntax::List(vec![
                ListItem::Numbered(1, "zero level".into()),
                ListItem::InnerList(vec![
                    ListItem::InnerList(vec![ListItem::Numbered(1, "second indent".into()),]),
                    ListItem::Numbered(1, "first indent".into()),
                ]),
            ])
        )
    }

    let result = parse("a. zero level\n    a. second indent\n  a. first indent\n\n");
    assert!(result.is_some());
    if let Some(list) = result {
        assert_eq!(
            list,
            TopLevelSyntax::List(vec![
                ListItem::Alphabetical("a".into(), "zero level".into()),
                ListItem::InnerList(vec![
                    ListItem::InnerList(vec![ListItem::Alphabetical(
                        "a".into(),
                        "second indent".into()
                    ),]),
                    ListItem::Alphabetical("a".into(), "first indent".into()),
                ]),
            ])
        )
    }
}

#[test]
fn different_list_type_inside() {
    let result = parse("- zero level\n    1. second indent\n  - first indent\n\n");
    assert!(result.is_some());
    if let Some(list) = result {
        assert_eq!(
            list,
            TopLevelSyntax::List(vec![
                ListItem::Unordered("zero level".into()),
                ListItem::InnerList(vec![
                    ListItem::InnerList(vec![ListItem::Numbered(1, "second indent".into()),]),
                    ListItem::Unordered("first indent".into()),
                ]),
            ])
        )
    }
}

#[test]
fn list_of_all_the_things() {
    let result =
        parse("- zero level\n1. zero level\nb. zero level\n3) zero level\nd) zero level\n\n");
    assert!(result.is_some());
    if let Some(list) = result {
        assert_eq!(
            list,
            TopLevelSyntax::List(vec![
                ListItem::Unordered("zero level".into()),
                ListItem::Numbered(1, "zero level".into()),
                ListItem::Alphabetical("b".into(), "zero level".into()),
                ListItem::NumberedRounded(3, "zero level".into()),
                ListItem::AlphabeticalRounded("d".into(), "zero level".into()),
            ])
        )
    }
}

#[test]
fn list_leaves_the_text_behind_it() {
    let mut obj = ParseObject::new("- a\n- b\nplain\n");
    let result = parse_list(&mut obj);
    assert!(result.is_some());
    assert_eq!(obj.text(), "plain\n");
}

#[test]
fn no_list_without_a_marker() {
    let mut obj = ParseObject::new("plain\n- a\n");
    assert_eq!(parse_list(&mut obj), None);
    assert_eq!(obj.text(), "plain\n- a\n");
}

#[test]
fn depth_buckets() {
    // three and four spaces fall into the same depth
    let result = parse("- a\n   - b\n    - c\n");
    assert_eq!(
        result,
        Some(TopLevelSyntax::List(vec![
            ListItem::Unordered("a".into()),
            ListItem::InnerList(vec![
                ListItem::Unordered("b".into()),
                ListItem::InnerList(vec![ListItem::Unordered("c".into())]),
            ]),
        ]))
    );
}

#[test]
fn number_too_large_is_zero() {
    let result = parse("99999999999999999999999999. a\n");
    assert_eq!(result, Some(TopLevelSyntax::List(vec![ListItem::Numbered(0, "a".into())])));
}

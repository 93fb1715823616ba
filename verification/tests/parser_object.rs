use pmd::toplevel::parser_object::{ParseObject, TrimmedStartsWith};
use pmd::toplevel::structs::TopLevelSyntax;

fn chars(s: &str) -> Vec<char> {
    s.chars().collect()
}

#[test]
fn creation() {
    let obj = ParseObject::new("");
    assert_eq!(
        obj,
        ParseObject { is_eating: false, text: chars(""), paragraph_buffer: chars(""), syntax: vec![] }
    )
}

#[test]
fn has_text_none() {
    let empty = ParseObject::new("");
    assert_eq!(empty.has_text(), false);
}

#[test]
fn has_text_some() {
    let with_content = ParseObject::new("Scream into the void please, thanks");
    assert_eq!(with_content.has_text(), true);
}

#[test]
fn current_empty() {
    let empty = ParseObject::new("");
    assert_eq!(empty.current(), "");
}

#[test]
fn current_single_line() {
    let single_line = ParseObject::new("Scream into the void please, thanks");
    assert_eq!(single_line.current(), "Scream into the void please, thanks");
}

#[test]
fn current_multiple_lines() {
    let multiple_lines =
        ParseObject::new("Scream into the void please, thanks\nNow stare into the abyss please");
    assert_eq!(multiple_lines.current(), "Scream into the void please, thanks");
}

#[test]
fn find_trimmed_line_no_offset_empty() {
    let empty = ParseObject::new("");
    assert_eq!(empty.trimmed_line_find("hi", 0), None);
}

#[test]
fn find_trimmed_line_no_offset_single_line() {
    let single_line = ParseObject::new("hi hello goodbye");
    assert_eq!(single_line.trimmed_line_find("hi", 0), Some(0));
    assert_eq!(single_line.trimmed_line_find("hello", 0), Some(3));
    assert_eq!(single_line.trimmed_line_find("goodbye", 0), Some(9));
}

#[test]
fn find_trimmed_line_no_offset_whitespaced_single_line() {
    let witespaced_single_line = ParseObject::new("   hi hello goodbye   ");
    assert_eq!(witespaced_single_line.trimmed_line_find("hi", 0), Some(3));
    assert_eq!(witespaced_single_line.trimmed_line_find("hello", 0), Some(6));
    assert_eq!(witespaced_single_line.trimmed_line_find("goodbye", 0), Some(12));
}

#[test]
fn find_trimmed_line_no_offset_multiple_lines() {
    let multiple_lines = ParseObject::new("hi hello\ngoodbye");
    assert_eq!(multiple_lines.trimmed_line_find("hi", 0), Some(0));
    assert_eq!(multiple_lines.trimmed_line_find("hello", 0), Some(3));
    assert_eq!(multiple_lines.trimmed_line_find("goodbye", 0), None);
}

#[test]
fn find_trimmed_line_no_offset_whitespaced_multiple_lines() {
    let witespaced_single_line = ParseObject::new("   hi hello\ngoodbye   ");
    assert_eq!(witespaced_single_line.trimmed_line_find("hi", 0), Some(3));
    assert_eq!(witespaced_single_line.trimmed_line_find("hello", 0), Some(6));
    assert_eq!(witespaced_single_line.trimmed_line_find("goodbye", 0), None);
}

#[test]
fn find_trimmed_line_valid_offset() {
    let witespaced_single_line = ParseObject::new("   hi hi goodbye   ");
    assert_eq!(witespaced_single_line.trimmed_line_find("hi", 2), Some(6));
}

#[test]
fn find_trimmed_line_invalid_offset() {
    let witespaced_single_line = ParseObject::new("   hi hi goodbye   ");
    assert_eq!(witespaced_single_line.trimmed_line_find("hi", 800), None);
}

#[test]
fn find_trimmed() {
    let obj = ParseObject::new("  \n  hi there\nhi again");
    assert_eq!(obj.trimmed_find("hi", 0), Some(5));
    assert_eq!(obj.trimmed_find("hi", 1), Some(14));
    assert_eq!(obj.trimmed_find("again", 0), Some(17));
    assert_eq!(obj.trimmed_find("nothing", 0), None);
    assert_eq!(obj.trimmed_find("hi", 800), None);
}

#[test]
fn find_next() {
    let mut obj = ParseObject::new("first\nsecond\r\nthird");
    obj.next();
    assert_eq!(obj.text(), "second\r\nthird");
    assert_eq!(obj.current(), "second");
    obj.next();
    // the carriage return is no part of the line, so the line feed stays
    assert_eq!(obj.text(), "\nthird");
    obj.next();
    assert_eq!(obj.text(), "third");
    obj.next();
    assert_eq!(obj.text(), "");
    assert_eq!(obj.has_text(), false);
}

#[test]
fn find_skip() {
    let mut obj = ParseObject::new("hi hello\ngoodbye");
    assert_eq!(obj.find("hello", 0), Some(3));
    assert_eq!(obj.find("goodbye", 4), Some(9));
    assert_eq!(obj.find("hi", 1), None);
    assert_eq!(obj.find("hi", 800), None);
    obj.skip(3);
    assert_eq!(obj.text(), "hello\ngoodbye");
    obj.skip(800);
    assert_eq!(obj.text(), "");
}

#[test]
fn eat() {
    let mut obj = ParseObject::new("");
    obj.eat("text");
    assert_eq!(
        obj,
        ParseObject {
            is_eating: true,
            text: chars(""),
            paragraph_buffer: chars("text\n"),
            syntax: vec![]
        }
    );
}

#[test]
fn consume_none() {
    let mut obj = ParseObject::new("");
    obj.consume();
    assert_eq!(
        obj,
        ParseObject { is_eating: false, text: chars(""), paragraph_buffer: chars(""), syntax: vec![] }
    );
}

#[test]
fn consume_some() {
    let mut obj = ParseObject::new("");
    obj.eat("text");
    obj.consume();
    assert_eq!(
        obj,
        ParseObject {
            is_eating: false,
            text: chars(""),
            paragraph_buffer: chars(""),
            syntax: vec![TopLevelSyntax::Paragraph("text\n".to_string())]
        }
    );
}

#[test]
fn consume_without_eating() {
    let mut obj = ParseObject::new("");
    obj.push(TopLevelSyntax::PageBreak);
    assert_eq!(
        obj,
        ParseObject {
            is_eating: false,
            text: chars(""),
            paragraph_buffer: chars(""),
            syntax: vec![TopLevelSyntax::PageBreak]
        }
    );
}

#[test]
fn consume_after_eating() {
    let mut obj = ParseObject::new("");
    obj.eat("text");
    obj.push(TopLevelSyntax::PageBreak);
    assert_eq!(
        obj,
        ParseObject {
            is_eating: false,
            text: chars(""),
            paragraph_buffer: chars(""),
            syntax: vec![TopLevelSyntax::Paragraph("text\n".to_string()), TopLevelSyntax::PageBreak]
        }
    );
}

#[test]
fn eat_line_moves_the_line() {
    let mut obj = ParseObject::new("one\ntwo");
    obj.eat_line();
    assert_eq!(obj.text(), "two");
    obj.eat_line();
    assert_eq!(obj.text(), "");
    obj.consume();
    assert_eq!(obj.syntax, vec![TopLevelSyntax::Paragraph("one\ntwo\n".to_string())]);
}

#[test]
fn consume_drops_white_space() {
    let mut obj = ParseObject::new("");
    obj.eat("   ");
    obj.consume();
    assert_eq!(obj.syntax, vec![]);
    assert_eq!(obj.is_eating, false);
}

#[test]
fn yoink_takes_a_range() {
    let mut obj = ParseObject::new("abcdef");
    assert_eq!(obj.yoink(1, 3), "bc");
    assert_eq!(obj.text(), "adef");
}

#[test]
fn starts_with_looks_at_the_line() {
    let obj = ParseObject::new("# head\n> quote");
    assert!(obj.starts_with("#"));
    assert!(!obj.starts_with(">"));
    assert!(!obj.starts_with("# head\n"));
}

#[test]
fn on_empty_str() {
    let text = "";
    assert_eq!(text.trimmed_starts_with("hi"), false)
}

#[test]
fn on_empty_string() {
    let text = "".to_string();
    assert_eq!(text.trimmed_starts_with("hi"), false)
}

#[test]
fn on_empty_string_ref() {
    let text = &"".to_string();
    assert_eq!(text.trimmed_starts_with("hi"), false)
}

#[test]
fn on_wrong_str() {
    let text = "this string does not have what we are looking for";
    assert_eq!(text.trimmed_starts_with("hi"), false)
}

#[test]
fn on_wrong_string() {
    let text = "this string does not have what we are looking for".to_string();
    assert_eq!(text.trimmed_starts_with("hi"), false)
}

#[test]
fn on_wrong_string_ref() {
    let text = &"this string does not have what we are looking for".to_string();
    assert_eq!(text.trimmed_starts_with("hi"), false)
}

#[test]
fn on_basic_str() {
    let text = "hi is the first two characters of this string";
    assert_eq!(text.trimmed_starts_with("hi"), true)
}

#[test]
fn on_basic_string() {
    let text = "hi is the first two characters of this string".to_string();
    assert_eq!(text.trimmed_starts_with("hi"), true)
}

#[test]
fn on_basic_string_ref() {
    let text = &"hi is the first two characters of this string".to_string();
    assert_eq!(text.trimmed_starts_with("hi"), true)
}

#[test]
fn no_inner_whitespace_str() {
    let text = "hiisthefirsttwocharactersofthisstring";
    assert_eq!(text.trimmed_starts_with("hi"), true)
}

#[test]
fn no_inner_whitespace_string() {
    let text = "hiisthefirsttwocharactersofthisstring".to_string();
    assert_eq!(text.trimmed_starts_with("hi"), true)
}

#[test]
fn no_inner_whitespace_string_ref() {
    let text = &"hiisthefirsttwocharactersofthisstring".to_string();
    assert_eq!(text.trimmed_starts_with("hi"), true)
}

#[test]
fn with_outer_whitespace_str() {
    let text = "             hi is the first two characters of this string";
    assert_eq!(text.trimmed_starts_with("hi"), true)
}

#[test]
fn with_outer_whitespace_string() {
    let text = "             hi is the first two characters of this string".to_string();
    assert_eq!(text.trimmed_starts_with("hi"), true)
}

#[test]
fn with_outer_whitespace_string_ref() {
    let text = &"             hi is the first two characters of this string".to_string();
    assert_eq!(text.trimmed_starts_with("hi"), true);
}

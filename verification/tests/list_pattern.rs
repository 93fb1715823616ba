use pmd::toplevel::list_parser::get_pattern;
use pmd::toplevel::list_pattern::{
    split_inclusive_first, starts_with_pattern, ListPattern, ListPatternSearcher, SearchStep,
};

#[test]
fn starts_with_unordered() {
    let result = starts_with_pattern("- bla bla bla", ListPattern::Unordered);
    assert_eq!(result, true);
}

#[test]
fn basic_numbered() {
    let result = starts_with_pattern("1. bla bla bla", ListPattern::Numbered);
    assert_eq!(result, true);
}

#[test]
fn get_marker_unordered() {
    let result = split_inclusive_first("- bla bla bla", ListPattern::Unordered);
    assert_eq!(result.as_deref(), Some("- "));
}

#[test]
fn get_marker_single_char_numbered() {
    let result = split_inclusive_first("1. bla bla bla", ListPattern::Numbered);
    assert_eq!(result.as_deref(), Some("1. "));
}

#[test]
fn get_marker_large_numbered() {
    let result = split_inclusive_first("4917. bla bla bla", ListPattern::Numbered);
    assert_eq!(result.as_deref(), Some("4917. "));
}

#[test]
fn searcher_steps() {
    let mut searcher = ListPatternSearcher::new("ab- c", ListPattern::Unordered);
    assert_eq!(searcher.haystack(), "ab- c");
    assert_eq!(searcher.next(), SearchStep::Reject(0, 1));
    assert_eq!(searcher.next(), SearchStep::Reject(1, 2));
    assert_eq!(searcher.next(), SearchStep::Match(2, 4));
    assert_eq!(searcher.next(), SearchStep::Reject(4, 5));
    assert_eq!(searcher.next(), SearchStep::Done);
}

#[test]
fn labelled_markers() {
    assert!(starts_with_pattern("12) x", ListPattern::NumberedRounded));
    assert!(!starts_with_pattern("12) x", ListPattern::Numbered));
    assert!(starts_with_pattern("a) x", ListPattern::AlphabeticalRounded));
    assert!(starts_with_pattern("ab. x", ListPattern::Alphabetical));
    assert!(starts_with_pattern("ab12. x", ListPattern::Alphabetical));
    assert!(!starts_with_pattern("abc. x", ListPattern::Alphabetical));
    assert!(!starts_with_pattern("1.x", ListPattern::Numbered));
    assert!(!starts_with_pattern("-x", ListPattern::Unordered));
    assert!(!starts_with_pattern("", ListPattern::Unordered));
}

#[test]
fn first_piece_without_a_match_is_the_text() {
    assert_eq!(split_inclusive_first("plain", ListPattern::Unordered).as_deref(), Some("plain"));
    assert_eq!(split_inclusive_first("", ListPattern::Unordered), None);
    assert_eq!(split_inclusive_first("x - y", ListPattern::Unordered).as_deref(), Some("x - "));
}

#[test]
fn pattern_of_a_line() {
    assert_eq!(get_pattern("- a"), Some(ListPattern::Unordered));
    assert_eq!(get_pattern("1. a"), Some(ListPattern::Numbered));
    assert_eq!(get_pattern("1) a"), Some(ListPattern::NumberedRounded));
    assert_eq!(get_pattern("a. a"), Some(ListPattern::Alphabetical));
    assert_eq!(get_pattern("a) a"), Some(ListPattern::AlphabeticalRounded));
    assert_eq!(get_pattern("plain"), None);
}

use fsort::comparator::{lex_compare, Comparator};
use fsort::driver::{check_lines, Driver, Step};
use fsort::line::{is_sorted_by, line_is_sorted, sort_fields, sort_line, tokenize};
use fsort::options::Options;
use fsort::text::{chars_of, string_of};
use fsort::tokenizer::{join_fields, split_on_delim, split_on_white_space};
use std::cmp::Ordering;

fn chars(s: &str) -> Vec<char> {
    s.chars().collect()
}

fn texts(fields: &[Vec<char>]) -> Vec<String> {
    fields.iter().map(|f| f.iter().collect()).collect()
}

fn field_vec(items: &[&str]) -> Vec<Vec<char>> {
    items.iter().map(|s| chars(s)).collect()
}

fn opts(delim: char, white_space: bool, fold_case: bool, reverse: bool, check: bool) -> Options {
    Options::new(delim, white_space, fold_case, false, reverse, check)
}

fn lines(items: &[&str]) -> Vec<String> {
    items.iter().map(|s| s.to_string()).collect()
}

#[test]
fn delimiter_split_keeps_empty_fields() {
    let fields = split_on_delim(&chars("a::b"), ':');
    assert_eq!(texts(&fields), vec!["a", "", "b"]);
}

#[test]
fn delimiter_split_of_edges_and_empty_line() {
    assert_eq!(texts(&split_on_delim(&chars(":a:"), ':')), vec!["", "a", ""]);
    assert_eq!(texts(&split_on_delim(&chars(""), ':')), vec![""]);
    assert_eq!(texts(&split_on_delim(&chars("abc"), ':')), vec!["abc"]);
}

#[test]
fn white_space_split_collapses_and_trims() {
    let fields = split_on_white_space(&chars("  a   b c  "));
    assert_eq!(texts(&fields), vec!["a", "b", "c"]);
}

#[test]
fn white_space_split_of_blank_lines_is_empty() {
    assert!(split_on_white_space(&chars("")).is_empty());
    assert!(split_on_white_space(&chars(" \t \n ")).is_empty());
}

#[test]
fn white_space_split_uses_unicode_white_space() {
    let fields = split_on_white_space(&chars("x\u{3000}y\u{a0}z"));
    assert_eq!(texts(&fields), vec!["x", "y", "z"]);
    let fields = split_on_white_space(&chars("x\u{200b}y"));
    assert_eq!(texts(&fields), vec!["x\u{200b}y"]);
}

#[test]
fn tokenize_follows_the_mode() {
    let o = opts(':', false, false, false, false);
    assert_eq!(texts(&tokenize(&o, &chars("a: b"))), vec!["a", " b"]);
    let o = opts(':', true, false, false, false);
    assert_eq!(texts(&tokenize(&o, &chars("a: b"))), vec!["a:", "b"]);
}

#[test]
fn join_after_split_gives_the_line_back() {
    for (line, d) in [("a::b", ':'), ("", ','), (",x,,y,", ','), ("one\ttwo", '\t')] {
        let fields = split_on_delim(&chars(line), d);
        let joined: String = join_fields(&fields, d).iter().collect();
        assert_eq!(joined, line);
    }
}

#[test]
fn join_puts_the_delimiter_between_fields() {
    let joined: String = join_fields(&field_vec(&["a", "b", "c"]), '-').iter().collect();
    assert_eq!(joined, "a-b-c");
    assert!(join_fields(&Vec::new(), '-').is_empty());
}

#[test]
fn lex_compare_is_code_point_order() {
    assert_eq!(lex_compare(&chars("abc"), &chars("abd")), Ordering::Less);
    assert_eq!(lex_compare(&chars("ab"), &chars("abc")), Ordering::Less);
    assert_eq!(lex_compare(&chars("b"), &chars("abc")), Ordering::Greater);
    assert_eq!(lex_compare(&chars(""), &chars("")), Ordering::Equal);
    assert_eq!(lex_compare(&chars("xy"), &chars("xy")), Ordering::Equal);
    assert_eq!(lex_compare(&chars("\u{e9}"), &chars("z")), Ordering::Greater);
    assert_eq!(lex_compare(&chars("A"), &chars("b")), Ordering::Less);
}

#[test]
fn fold_case_compares_upper_case_forms() {
    let folded = Comparator::new(true, false);
    assert_eq!(folded.compare(&chars("b"), &chars("A")), Ordering::Greater);
    assert_eq!(folded.compare(&chars("a"), &chars("B")), Ordering::Less);
    assert_eq!(folded.compare(&chars("abc"), &chars("ABC")), Ordering::Equal);
    let plain = Comparator::new(false, false);
    assert_eq!(plain.compare(&chars("a"), &chars("B")), Ordering::Greater);
}

#[test]
fn fold_case_sorts_ignoring_case() {
    let o = opts('\t', false, true, false, false);
    assert_eq!(sort_line(&o, "b\tA"), "A\tb");
    assert_eq!(sort_line(&o, "b\tC\ta"), "a\tb\tC");
    let plain = opts('\t', false, false, false, false);
    assert_eq!(sort_line(&plain, "b\tC\ta"), "C\ta\tb");
}

#[test]
fn without_fold_case_upper_case_comes_first() {
    let o = opts('\t', false, false, false, true);
    assert!(line_is_sorted(&o, "A\tb"));
    assert!(!line_is_sorted(&o, "b\tA"));
    assert_eq!(sort_line(&o, "b\tA"), "A\tb");
}

#[test]
fn reverse_sorts_descending() {
    let o = opts('\t', false, false, true, false);
    assert_eq!(sort_line(&o, "a\tc\tb"), "c\tb\ta");
    let c = Comparator::new(false, true);
    let sorted = sort_fields(field_vec(&["a", "c", "b"]), &c);
    assert_eq!(texts(&sorted), vec!["c", "b", "a"]);
}

#[test]
fn reverse_with_fold_case() {
    let o = opts(',', false, true, true, false);
    assert_eq!(sort_line(&o, "a,C,b"), "C,b,a");
}

#[test]
fn sort_keeps_empty_fields_and_duplicates() {
    let o = opts(':', false, false, false, false);
    assert_eq!(sort_line(&o, "b::a:b"), ":a:b:b");
    assert_eq!(sort_line(&o, "b:::a"), "::a:b");
    assert_eq!(sort_line(&o, ""), "");
}

#[test]
fn white_space_mode_joins_with_the_delimiter() {
    let o = opts('\t', true, false, false, false);
    assert_eq!(sort_line(&o, "  c b   a "), "a\tb\tc");
    assert_eq!(sort_line(&o, "   "), "");
    let o = opts(',', true, false, false, false);
    assert_eq!(sort_line(&o, "z y"), "y,z");
}

#[test]
fn sorted_output_splits_into_sorted_fields() {
    let cases = [
        opts('\t', false, false, false, false),
        opts(':', false, true, true, false),
        opts('\t', true, false, true, false),
        opts(',', true, true, false, false),
    ];
    for o in cases {
        let out = sort_line(&o, "d:b\tC a\t:a  B");
        assert!(line_is_sorted(&o, &out), "{:?} gave {:?}", o, out);
    }
}

#[test]
fn is_sorted_by_checks_adjacent_pairs() {
    let c = Comparator::new(false, false);
    assert!(is_sorted_by(&field_vec(&[]), &c));
    assert!(is_sorted_by(&field_vec(&["x"]), &c));
    assert!(is_sorted_by(&field_vec(&["a", "a", "b"]), &c));
    assert!(!is_sorted_by(&field_vec(&["a", "c", "b"]), &c));
    let r = Comparator::new(false, true);
    assert!(is_sorted_by(&field_vec(&["c", "b", "b", "a"]), &r));
}

#[test]
fn check_reports_the_failing_line() {
    let o = opts('\t', false, false, false, true);
    assert_eq!(check_lines(&o, &lines(&["a\tb\tc", "c\ta\tb"])), Some(2));
}

#[test]
fn check_reports_the_first_failing_line() {
    let o = opts(',', false, false, false, true);
    let input = lines(&["a,b", "x", "", "b,a", "c,a", "a,b"]);
    assert_eq!(check_lines(&o, &input), Some(4));
}

#[test]
fn check_passes_sorted_input() {
    let o = opts('\t', false, false, false, true);
    assert_eq!(check_lines(&o, &lines(&["a\tb\tc", "", "x", "a\ta"])), None);
    assert_eq!(check_lines(&o, &lines(&[])), None);
    let r = opts('\t', false, true, true, true);
    assert_eq!(check_lines(&r, &lines(&["c\tB\ta", "Z\tz"])), None);
}

#[test]
fn driver_checks_and_stops() {
    let o = opts('\t', false, false, false, true);
    let mut d = Driver::new(o);
    assert_eq!(d.feed("a\tb\tc"), Step::Pass);
    assert_eq!(d.feed("c\ta\tb"), Step::Fail(2));
    assert_eq!(d.lines_read(), 2);
}

#[test]
fn driver_writes_sorted_lines() {
    let o = Options::default();
    let mut d = Driver::new(o);
    assert_eq!(d.feed("b\ta"), Step::Write("a\tb".to_string()));
    assert_eq!(d.feed(""), Step::Write("".to_string()));
    assert_eq!(d.feed("z\ty\tx"), Step::Write("x\ty\tz".to_string()));
    assert_eq!(d.lines_read(), 3);
}

#[test]
fn default_options_use_tab() {
    let o = Options::default();
    assert_eq!(o.delim, '\t');
    assert!(!o.white_space && !o.fold_case && !o.numeric && !o.reverse && !o.check);
    let c = o.comparator();
    assert!(!c.fold_case && !c.reverse);
}

#[test]
fn numeric_flag_changes_nothing() {
    let with = Options::new('\t', false, false, true, false, false);
    let without = Options::new('\t', false, false, false, false, false);
    assert_eq!(sort_line(&with, "10\t9\t1"), "1\t10\t9");
    assert_eq!(sort_line(&with, "10\t9\t1"), sort_line(&without, "10\t9\t1"));
}

#[test]
fn text_conversions_round_trip() {
    let v = chars_of("h\u{e9}llo");
    assert_eq!(v, vec!['h', '\u{e9}', 'l', 'l', 'o']);
    assert_eq!(string_of(&v), "h\u{e9}llo");
    assert_eq!(string_of(&Vec::new()), "");
}

use class_filter::filter::{
    filter_chars, filter_config, is_all_classes_header, keep_lines, opens_section, push_lines,
};
use class_filter::labels::{class_id, find_class, trimmed_equals};
use class_filter::text::{is_space_char, push_decimal, push_digits, push_str, split_lines, trim_bounds};

fn chars(s: &str) -> Vec<char> {
    s.chars().collect()
}

fn lines_of(ls: &[&str]) -> Vec<Vec<char>> {
    ls.iter().map(|l| chars(l)).collect()
}

const TAIL_2: &str = "\n[class-attrs-2]\npre-cluster-threshold=0.25\n\n[class-attrs-all]\npre-cluster-threshold=1.0\n";

#[test]
fn scenario_all_classes_first() {
    let out = filter_config("[class-attrs-all]\nthreshold=0.3\n[other]\nx=1\n", 2);
    assert_eq!(
        out,
        "[other]\nx=1\n\n[class-attrs-2]\npre-cluster-threshold=0.25\n\n[class-attrs-all]\npre-cluster-threshold=1.0\n"
    );
}

#[test]
fn scenario_no_all_classes_section() {
    let input = "[property]\ngpu-id=0\nnum-detected-classes=80\n\n[class-attrs-0]\nnms-iou-threshold=0.5\n";
    let out = filter_config(input, 0);
    let expected = format!(
        "{}\n[class-attrs-0]\npre-cluster-threshold=0.25\n\n[class-attrs-all]\npre-cluster-threshold=1.0\n",
        input
    );
    assert_eq!(out, expected);
}

#[test]
fn pass_through_keeps_every_line() {
    let input = "a=1\n[s]\nb=2\n";
    assert_eq!(filter_config(input, 2), format!("{}{}", input, TAIL_2));
}

#[test]
fn empty_input_gets_only_the_new_sections() {
    assert_eq!(filter_config("", 2), TAIL_2);
}

#[test]
fn last_line_without_line_feed_gets_one() {
    assert_eq!(filter_config("a=1\nb=2", 2), format!("a=1\nb=2\n{}", TAIL_2));
}

#[test]
fn crlf_line_endings_become_line_feeds() {
    assert_eq!(filter_config("a=1\r\nb=2\r\n", 2), format!("a=1\nb=2\n{}", TAIL_2));
}

#[test]
fn single_section_removed_with_its_lines() {
    let input = "[property]\ngpu-id=0\n[class-attrs-all]\npre-cluster-threshold=0.2\ntopk=20\n[class-attrs-1]\nx=1\n";
    assert_eq!(
        filter_config(input, 2),
        format!("[property]\ngpu-id=0\n[class-attrs-1]\nx=1\n{}", TAIL_2)
    );
}

#[test]
fn section_at_end_of_text_removed() {
    let input = "[property]\ngpu-id=0\n[class-attrs-all]\npre-cluster-threshold=0.2\n";
    assert_eq!(filter_config(input, 2), format!("[property]\ngpu-id=0\n{}", TAIL_2));
}

#[test]
fn boundary_line_right_after_header_kept() {
    let input = "[class-attrs-all]\n[next]\nk=v\n";
    assert_eq!(filter_config(input, 2), format!("[next]\nk=v\n{}", TAIL_2));
}

#[test]
fn indented_header_and_boundary_recognised() {
    let input = "  [class-attrs-all]\t\nthreshold=0.3\n   [other]\nx=1\n";
    assert_eq!(filter_config(input, 2), format!("   [other]\nx=1\n{}", TAIL_2));
}

#[test]
fn header_with_trailing_text_is_not_the_all_classes_header() {
    let input = "[class-attrs-all] extra\nthreshold=0.3\n";
    assert_eq!(filter_config(input, 2), format!("{}{}", input, TAIL_2));
}

#[test]
fn header_match_is_case_sensitive() {
    let input = "[Class-Attrs-All]\nthreshold=0.3\n";
    assert_eq!(filter_config(input, 2), format!("{}{}", input, TAIL_2));
}

#[test]
fn two_all_classes_sections_both_removed() {
    let input = "[class-attrs-all]\nt=1\n[a]\nx=1\n[class-attrs-all]\nt=2\n[b]\ny=2\n";
    assert_eq!(filter_config(input, 2), format!("[a]\nx=1\n[b]\ny=2\n{}", TAIL_2));
}

#[test]
fn repeated_header_inside_section_stays_dropped() {
    let input = "[class-attrs-all]\nt=1\n[class-attrs-all]\nt=2\n[b]\n";
    assert_eq!(filter_config(input, 2), format!("[b]\n{}", TAIL_2));
}

#[test]
fn refiltering_keeps_the_threshold() {
    let once = filter_config("[class-attrs-all]\nthreshold=0.3\n[other]\nx=1\n", 2);
    let twice = filter_config(&once, 2);
    assert_eq!(
        twice,
        "[other]\nx=1\n\n[class-attrs-2]\npre-cluster-threshold=0.25\n\n\n[class-attrs-2]\npre-cluster-threshold=0.25\n\n[class-attrs-all]\npre-cluster-threshold=1.0\n"
    );
    assert!(!twice.contains("pre-cluster-threshold=0.3"));
}

#[test]
fn class_section_comes_before_all_classes_section() {
    let out = filter_config("[class-attrs-all]\nthreshold=0.3\n", 7);
    let class_at = out.find("[class-attrs-7]").unwrap();
    let all_at = out.rfind("[class-attrs-all]").unwrap();
    assert!(class_at < all_at);
    assert!(out.ends_with("[class-attrs-all]\npre-cluster-threshold=1.0\n"));
}

#[test]
fn negative_and_extreme_class_ids() {
    assert!(filter_config("", -5).starts_with("\n[class-attrs--5]\n"));
    assert!(filter_config("", i32::MIN).starts_with("\n[class-attrs--2147483648]\n"));
    assert!(filter_config("", i32::MAX).starts_with("\n[class-attrs-2147483647]\n"));
    assert!(filter_config("", 10).starts_with("\n[class-attrs-10]\n"));
}

#[test]
fn filter_chars_matches_filter_config() {
    let input = "[class-attrs-all]\nthreshold=0.3\n[other]\nx=1\n";
    let out: String = filter_chars(&chars(input), 2).into_iter().collect();
    assert_eq!(out, filter_config(input, 2));
}

#[test]
fn split_lines_follows_line_endings() {
    assert_eq!(split_lines(&chars("a\nb\r\n\nc")), lines_of(&["a", "b", "", "c"]));
    assert_eq!(split_lines(&chars("a\n")), lines_of(&["a"]));
    assert_eq!(split_lines(&chars("\n")), lines_of(&[""]));
    assert_eq!(split_lines(&chars("")), lines_of(&[]));
    assert_eq!(split_lines(&chars("a\r")), lines_of(&["a\r"]));
    assert_eq!(split_lines(&chars("a\r\r\n")), lines_of(&["a\r"]));
}

#[test]
fn keep_lines_drops_section() {
    let ls = lines_of(&["p", "[class-attrs-all]", "t=1", "[q]", "r"]);
    assert_eq!(keep_lines(&ls), lines_of(&["p", "[q]", "r"]));
}

#[test]
fn push_lines_ends_each_line() {
    let mut out = chars(">");
    push_lines(&mut out, &lines_of(&["a", "", "b"]));
    assert_eq!(out, chars(">a\n\nb\n"));
}

#[test]
fn header_and_section_predicates() {
    assert!(is_all_classes_header(&chars("[class-attrs-all]")));
    assert!(is_all_classes_header(&chars(" \t[class-attrs-all]\r")));
    assert!(!is_all_classes_header(&chars("[class-attrs-al]")));
    assert!(!is_all_classes_header(&chars("")));
    assert!(opens_section(&chars("  [x")));
    assert!(!opens_section(&chars("x=[1]")));
    assert!(!opens_section(&chars("   ")));
}

#[test]
fn trim_bounds_skip_white_space() {
    assert_eq!(trim_bounds(&chars("  ab c \t")), (2, 6));
    assert_eq!(trim_bounds(&chars("\u{3000}x\u{a0}")), (1, 2));
    let (a, b) = trim_bounds(&chars("   "));
    assert_eq!(a, b);
    assert!(is_space_char('\u{2028}'));
    assert!(!is_space_char('['));
}

#[test]
fn decimal_numerals() {
    let mut out = Vec::new();
    push_decimal(&mut out, -120);
    assert_eq!(out, chars("-120"));
    let mut out = chars("#");
    push_digits(&mut out, 0);
    push_str(&mut out, "/");
    push_digits(&mut out, 18446744073709551615);
    assert_eq!(out, chars("#0/18446744073709551615"));
}

#[test]
fn class_found_by_trimmed_label() {
    let labels = "person\nbicycle\n car \ncar\n";
    assert_eq!(class_id(labels, "person"), Some(0));
    assert_eq!(class_id(labels, "car"), Some(2));
    assert_eq!(class_id(labels, "dog"), None);
    assert_eq!(class_id("", "person"), None);
    assert_eq!(find_class(&chars("a\nb"), &chars("b")), Some(1));
    assert!(trimmed_equals(&chars(" b\t"), &chars("b")));
    assert!(!trimmed_equals(&chars("bb"), &chars("b")));
}

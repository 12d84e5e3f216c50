use easylist_parser::domains::DomainSet;
use easylist_parser::text::{
    chars_of, copy_text, find_char, slice, split_text, text_eq, text_is, text_rank, trimmed, Rank,
};

fn t(s: &str) -> Vec<char> {
    s.chars().collect()
}

fn text(v: &Vec<char>) -> String {
    v.iter().collect()
}

fn set(list: &[&str]) -> DomainSet {
    let mut s = DomainSet::new();
    for name in list {
        s.insert(t(name));
    }
    s
}

fn names(set: &DomainSet) -> Vec<String> {
    (0..set.len()).map(|i| text(set.name(i))).collect()
}

#[test]
fn reads_characters() {
    assert_eq!(chars_of("aé$"), vec!['a', 'é', '$']);
    assert_eq!(copy_text(&t("abc")), t("abc"));
    assert!(text_is(&t("domain"), "domain"));
    assert!(!text_is(&t("domain"), "domains"));
}

#[test]
fn compares_texts() {
    assert_eq!(text_rank(&t("abc"), &t("abd")), Rank::Before);
    assert_eq!(text_rank(&t("abd"), &t("abc")), Rank::After);
    assert_eq!(text_rank(&t("ab"), &t("abc")), Rank::Before);
    assert_eq!(text_rank(&t("abc"), &t("ab")), Rank::After);
    assert_eq!(text_rank(&t("abc"), &t("abc")), Rank::Same);
    assert_eq!(text_rank(&t(""), &t("")), Rank::Same);
    assert_eq!(text_rank(&t("Z"), &t("a")), Rank::Before);
    assert!(text_eq(&t("x"), &t("x")));
    assert!(!text_eq(&t("x"), &t("xy")));
}

#[test]
fn trims_and_slices() {
    assert_eq!(text(&trimmed(&t("  a b \t\r\n"))), "a b");
    assert_eq!(text(&trimmed(&t("   "))), "");
    assert_eq!(text(&trimmed(&t(""))), "");
    assert_eq!(text(&slice(&t("abcdef"), 2, 4)), "cd");
    assert_eq!(find_char(&t("a=b=c"), '=', 0), 1);
    assert_eq!(find_char(&t("a=b=c"), '=', 2), 3);
    assert_eq!(find_char(&t("abc"), '=', 0), 3);
}

#[test]
fn splits_text() {
    let parts: Vec<String> = split_text(&t("a,b,,c"), ',').iter().map(text).collect();
    assert_eq!(parts, vec!["a", "b", "", "c"]);
    let parts: Vec<String> = split_text(&t(""), ',').iter().map(text).collect();
    assert_eq!(parts, vec![""]);
    let parts: Vec<String> = split_text(&t(","), ',').iter().map(text).collect();
    assert_eq!(parts, vec!["", ""]);
}

#[test]
fn domain_set_is_sorted_and_without_repetition() {
    let mut s = DomainSet::new();
    assert!(s.is_empty());
    assert!(s.insert(t("b.example")));
    assert!(s.insert(t("a.example")));
    assert!(!s.insert(t("b.example")));
    assert!(s.insert(t("c.example")));
    assert_eq!(s.len(), 3);
    assert_eq!(names(&s), vec!["a.example", "b.example", "c.example"]);
    assert!(s.contains(&t("a.example")));
    assert!(!s.contains(&t("d.example")));
    assert_eq!(names(&s.copy()), names(&s));
}

#[test]
fn domain_set_operations() {
    let a = set(&["a", "b", "c"]);
    let b = set(&["d", "b", "c"]);
    assert_eq!(names(&a.union(&b)), vec!["a", "b", "c", "d"]);
    assert_eq!(names(&a.intersection(&b)), vec!["b", "c"]);
    assert_eq!(names(&a.difference(&b)), vec!["a"]);
    assert_eq!(names(&b.difference(&a)), vec!["d"]);
    assert_eq!(names(&a.keep(&b, true)), vec!["b", "c"]);
    assert!(!a.is_disjoint(&b));
    assert!(a.is_disjoint(&set(&["x"])));
    assert!(a.is_disjoint(&DomainSet::new()));
}

#[test]
fn domain_sets_are_compared_as_lists() {
    assert_eq!(set(&["a", "b"]).rank(&set(&["b", "a"])), Rank::Same);
    assert_eq!(set(&["a"]).rank(&set(&["a", "b"])), Rank::Before);
    assert_eq!(set(&["a", "c"]).rank(&set(&["a", "b"])), Rank::After);
    assert_eq!(set(&[]).rank(&set(&[])), Rank::Same);
}

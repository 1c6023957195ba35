use run_uproc::text::{base_name, count_char, decimal, ends_with, find_char, join};

#[test]
fn count_char_counts_every_occurrence() {
    assert_eq!(count_char("", ','), 0);
    assert_eq!(count_char("a,b,,c", ','), 3);
    assert_eq!(count_char("é,ü", ','), 1);
}

#[test]
fn find_char_gives_first_position_or_length() {
    assert_eq!(find_char("ab,cd,e", ','), 2);
    assert_eq!(find_char("abc", ','), 3);
    assert_eq!(find_char("", ','), 0);
    assert_eq!(find_char("é,x", ','), 1);
}

#[test]
fn base_name_is_what_follows_the_last_slash() {
    assert_eq!(base_name("/a/b/c.fa"), "c.fa");
    assert_eq!(base_name("c.fa"), "c.fa");
    assert_eq!(base_name("/a/b/"), "");
    assert_eq!(base_name(""), "");
}

#[test]
fn ends_with_compares_the_tail() {
    assert!(ends_with("x.kegg.counts", ".kegg.counts"));
    assert!(ends_with("abc", ""));
    assert!(!ends_with("counts", ".kegg.counts"));
    assert!(!ends_with("x.kegg.count", ".kegg.counts"));
}

#[test]
fn decimal_writes_numerals() {
    assert_eq!(decimal(0), "0");
    assert_eq!(decimal(7), "7");
    assert_eq!(decimal(10), "10");
    assert_eq!(decimal(1234567890), "1234567890");
    assert_eq!(decimal(4294967295), "4294967295");
    assert_eq!(decimal(u64::MAX), "18446744073709551615");
}

#[test]
fn join_puts_the_separator_between() {
    let parts: Vec<String> = vec!["a".to_string(), "".to_string(), "c".to_string()];
    assert_eq!(join(&parts, "\t"), "a\t\tc");
    assert_eq!(join(&Vec::new(), "\t"), "");
    assert_eq!(join(&vec!["x".to_string()], ", "), "x");
}

#[test]
fn same_text_is_equality() {
    assert!(run_uproc::text::same_text("short", "short"));
    assert!(!run_uproc::text::same_text("short", "shor"));
    assert!(!run_uproc::text::same_text("", "x"));
}

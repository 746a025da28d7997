use reposync::{truncate_summary, SUMMARY_LIMIT};

#[test]
fn short_summaries_pass_through() {
    assert_eq!(truncate_summary("fix the build"), "fix the build");
    assert_eq!(truncate_summary(""), "");
}

#[test]
fn summary_at_the_cap_passes_through() {
    let exactly: String = "x".repeat(SUMMARY_LIMIT);
    assert_eq!(truncate_summary(&exactly), exactly);
}

#[test]
fn long_summaries_are_cut_to_the_cap_plus_marker() {
    let long: String = "y".repeat(SUMMARY_LIMIT + 1);
    let cut = truncate_summary(&long);
    assert_eq!(cut.chars().count(), SUMMARY_LIMIT + 3);
    let head: String = cut.chars().take(SUMMARY_LIMIT).collect();
    let tail: String = cut.chars().skip(SUMMARY_LIMIT).collect();
    assert_eq!(head, "y".repeat(SUMMARY_LIMIT));
    assert_eq!(tail, "...");
}

#[test]
fn truncation_keeps_exactly_the_first_characters() {
    let mut long = String::new();
    for i in 0..60u32 {
        long.push(char::from_u32('a' as u32 + (i % 26)).unwrap());
    }
    let cut = truncate_summary(&long);
    let expected: String = long.chars().take(SUMMARY_LIMIT).collect::<String>() + "...";
    assert_eq!(cut, expected);
}

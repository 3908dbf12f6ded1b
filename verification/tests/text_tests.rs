use treeherder_cli::text::{
    artifact_dir_name, contains_substr, find_substr, job_dir_name, log_file_name, split_lines,
    str_eq, str_starts_with, u64_to_dec,
};

#[test]
fn string_equality_by_characters() {
    assert!(str_eq("abc", "abc"));
    assert!(!str_eq("abc", "abd"));
    assert!(!str_eq("abc", "ab"));
    assert!(str_eq("", ""));
}

#[test]
fn prefix_test() {
    assert!(str_starts_with("http://x", "http"));
    assert!(!str_starts_with("htt", "http"));
    assert!(str_starts_with("anything", ""));
}

#[test]
fn substring_search() {
    assert!(contains_substr("mochitest-browser", "test"));
    assert!(!contains_substr("mochitest", "xpcshell"));
    assert_eq!(find_substr("aababc", "abc"), Some(3));
    assert_eq!(find_substr("aababc", "zzz"), None);
    assert_eq!(find_substr("abc", ""), Some(0));
}

#[test]
fn line_splitting_handles_crlf_and_trailing_newline() {
    let lines = split_lines("one\ntwo\r\nthree");
    assert_eq!(lines, vec!["one".to_string(), "two".to_string(), "three".to_string()]);
    let lines2 = split_lines("a\nb\n");
    assert_eq!(lines2, vec!["a".to_string(), "b".to_string()]);
    let lines3 = split_lines("");
    assert_eq!(lines3.len(), 0);
    let lines4 = split_lines("\n");
    assert_eq!(lines4, vec!["".to_string()]);
}

#[test]
fn decimal_rendering() {
    assert_eq!(u64_to_dec(0), "0");
    assert_eq!(u64_to_dec(7), "7");
    assert_eq!(u64_to_dec(120), "120");
    assert_eq!(u64_to_dec(u64::MAX), "18446744073709551615");
}

#[test]
fn directory_and_file_names() {
    assert_eq!(job_dir_name(42), "job_42");
    assert_eq!(artifact_dir_name(42), "job-42");
    assert_eq!(log_file_name("live_backing"), "live_backing.log");
}

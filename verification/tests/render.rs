use synthlang::render::remove_repeated_chars;

#[test]
fn repeats() {
    let s = "aaa bab cccccc ok".to_string();
    assert_eq!(remove_repeated_chars(&s), "aa bab cc ok".to_string());
}

#[test]
fn collapse_leaves_short_runs_alone() {
    assert_eq!(remove_repeated_chars(""), "");
    assert_eq!(remove_repeated_chars("a"), "a");
    assert_eq!(remove_repeated_chars("aa"), "aa");
    assert_eq!(remove_repeated_chars("aab"), "aab");
    assert_eq!(remove_repeated_chars("abab"), "abab");
}

#[test]
fn collapse_cuts_long_runs_to_two() {
    assert_eq!(remove_repeated_chars("aaa"), "aa");
    assert_eq!(remove_repeated_chars("aaaa"), "aa");
    assert_eq!(remove_repeated_chars("aaabbbb"), "aabb");
    assert_eq!(remove_repeated_chars("xaaaaay"), "xaay");
    assert_eq!(remove_repeated_chars("\u{e6}\u{e6}\u{e6}\u{153}"), "\u{e6}\u{e6}\u{153}");
}

#[test]
fn collapse_treats_a_leading_nul_like_any_character() {
    assert_eq!(remove_repeated_chars("\0\0"), "\0\0");
    assert_eq!(remove_repeated_chars("\0\0\0a"), "\0\0a");
}

#[test]
fn collapse_is_idempotent() {
    for text in ["", "a", "aaa", "aaa bab cccccc ok", "zzzzzzzz", "abcabc", "aabbccddd"] {
        let once = remove_repeated_chars(text);
        let twice = remove_repeated_chars(&once);
        assert_eq!(once, twice);
    }
}

#[test]
fn collapse_output_has_no_run_of_three() {
    for text in ["aaa bab cccccc ok", "zzzzzzzz", "aaabbbaaabbb", "  \t\t\t\t  "] {
        let out: Vec<char> = remove_repeated_chars(text).chars().collect();
        for i in 2..out.len() {
            assert!(!(out[i] == out[i - 1] && out[i] == out[i - 2]));
        }
    }
}

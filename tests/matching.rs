use batch_rename::pattern::match_captures;

fn caps(v: &[&str]) -> Option<Vec<String>> {
    Some(v.iter().map(|s| s.to_string()).collect())
}

#[test]
fn empty_pattern_matches_everything() {
    assert_eq!(match_captures("", "anything.txt"), caps(&[]));
    assert_eq!(match_captures("", ""), caps(&[]));
}

#[test]
fn wildcards_only_match_everything() {
    assert_eq!(match_captures("*", "report.txt"), caps(&[]));
    assert_eq!(match_captures("***", "a"), caps(&[]));
    assert_eq!(match_captures("**", ""), caps(&[]));
}

#[test]
fn single_wildcard_capture() {
    // Fragments "IMG_" and ".jpg": the text before "IMG_" is the first capture.
    assert_eq!(match_captures("IMG_*.jpg", "IMG_1234.jpg"), caps(&["", "1234"]));
    assert_eq!(match_captures("*.jpg", "IMG_1234.jpg"), caps(&["IMG_1234"]));
}

#[test]
fn leftmost_earliest_fragments() {
    // "_" is found at offset 1; ".txt" must then start after offset 2.
    assert_eq!(match_captures("*_*.txt", "a_b_c.txt"), caps(&["a", "b_c"]));
}

#[test]
fn missing_suffix_fails() {
    assert_eq!(match_captures("*.bak", "report.txt"), None);
}

#[test]
fn adjacent_fragment_is_not_accepted() {
    assert_eq!(match_captures("a*b", "ab"), None);
    assert_eq!(match_captures("a*b", "axb"), caps(&["", "x"]));
}

#[test]
fn trailing_text_is_discarded() {
    assert_eq!(match_captures("*_", "a_b_c"), caps(&["a"]));
}

#[test]
fn no_backtracking_across_fragments() {
    assert_eq!(match_captures("*a*ab", "xaab"), None);
}

#[test]
fn consecutive_wildcards_count_once() {
    assert_eq!(match_captures("**x**y**", "1x2y3"), caps(&["1", "2"]));
}

#[test]
fn non_ascii_names() {
    assert_eq!(match_captures("é*.txt", "éa.txt"), caps(&["", "a"]));
    assert_eq!(match_captures("*ü*", "aüb"), caps(&["a"]));
}

use batch_rename::rename::{get_new_name, plan_renames};
use batch_rename::template::build_name;

fn strings(v: &[&str]) -> Vec<String> {
    v.iter().map(|s| s.to_string()).collect()
}

#[test]
fn two_tokens() {
    assert_eq!(build_name("$1-$2", &strings(&["a", "b"])), "a-b");
}

#[test]
fn token_without_capture_stays() {
    assert_eq!(build_name("$1", &strings(&[])), "$1");
    assert_eq!(build_name("$3.txt", &strings(&["a", "b"])), "$3.txt");
}

#[test]
fn repeated_token() {
    assert_eq!(build_name("$1$1_$1", &strings(&["ab"])), "abab_ab");
}

#[test]
fn capture_text_is_substituted_again() {
    // Capture 1 holds "$2", which the later pass for ordinal 2 replaces.
    assert_eq!(build_name("<$1>", &strings(&["$2", "z"])), "<z>");
}

#[test]
fn ordinal_ten_meets_ordinal_one_first() {
    let caps = strings(&["a", "b", "c", "d", "e", "f", "g", "h", "i", "j"]);
    assert_eq!(build_name("$10", &caps), "a0");
    assert_eq!(build_name("$9$2", &caps), "ib");
}

#[test]
fn new_name_of_matching_file() {
    assert_eq!(get_new_name("IMG_*.jpg", "$2.jpg", "IMG_1234.jpg"), Some("1234.jpg".to_string()));
    assert_eq!(get_new_name("IMG_*.jpg", "[$1]", "IMG_1234.jpg"), Some("[]".to_string()));
}

#[test]
fn new_name_of_other_file() {
    assert_eq!(get_new_name("*.bak", "$1.old", "report.txt"), None);
}

#[test]
fn renaming_twice_does_not_match_again() {
    let first = get_new_name("IMG_*.jpg", "$2.jpg", "IMG_1234.jpg");
    assert_eq!(first, Some("1234.jpg".to_string()));
    assert_eq!(get_new_name("IMG_*.jpg", "$2.jpg", &first.unwrap()), None);
}

#[test]
fn wildcard_only_rule_renames_everything_to_template() {
    assert_eq!(get_new_name("*", "fixed_$1", "x.txt"), Some("fixed_$1".to_string()));
}

#[test]
fn directory_plan() {
    let names = strings(&["a1.txt", "a2.txt", "b.txt"]);
    let plan = plan_renames("a*.txt", "x$2.dat", &names);
    assert_eq!(plan, vec![Some("x1.dat".to_string()), Some("x2.dat".to_string()), None]);
    assert_eq!(plan.iter().filter(|p| p.is_some()).count(), 2);
}

#[test]
fn directory_plan_with_first_capture() {
    // The first capture is the empty text before "a".
    let names = strings(&["a1.txt", "a2.txt", "b.txt"]);
    let plan = plan_renames("a*.txt", "x$1.dat", &names);
    assert_eq!(plan, vec![Some("x.dat".to_string()), Some("x.dat".to_string()), None]);
    assert_eq!(plan.iter().filter(|p| p.is_some()).count(), 2);
}

#[test]
fn empty_directory_plan() {
    assert_eq!(plan_renames("*", "$1", &strings(&[])), Vec::<Option<String>>::new());
}

use gash::text::{
    contains_str, copy_range, decimal_string, find_word, join, replace_all, split_nonempty,
    split_on, split_words, str_eq,
};

fn strings(v: &[&str]) -> Vec<String> {
    v.iter().map(|s| s.to_string()).collect()
}

#[test]
fn decimal_of_small_and_large_numbers() {
    assert_eq!(decimal_string(0), "0");
    assert_eq!(decimal_string(7), "7");
    assert_eq!(decimal_string(10), "10");
    assert_eq!(decimal_string(1234), "1234");
    assert_eq!(decimal_string(u64::MAX), u64::MAX.to_string());
}

#[test]
fn split_keeps_empty_pieces() {
    assert_eq!(split_on("a..b", '.'), strings(&["a", "", "b"]));
    assert_eq!(split_on("", '.'), strings(&[""]));
    assert_eq!(split_on(".", '.'), strings(&["", ""]));
    assert_eq!(split_on("127.0.0.1", '.'), strings(&["127", "0", "0", "1"]));
}

#[test]
fn words_drop_runs_of_spaces() {
    assert_eq!(split_words("  ls   -l  /tmp "), strings(&["ls", "-l", "/tmp"]));
    assert_eq!(split_words(""), Vec::<String>::new());
    assert_eq!(split_words("    "), Vec::<String>::new());
    assert_eq!(split_nonempty("/home//user/", '/'), strings(&["home", "user"]));
}

#[test]
fn words_are_never_blank() {
    for line in ["a  b", "   ", " x y  z ", "tab\there too"] {
        for w in split_words(line) {
            assert!(!w.is_empty());
            assert!(!w.contains(' '));
        }
    }
}

#[test]
fn string_comparison_and_search() {
    assert!(str_eq("cd", "cd"));
    assert!(!str_eq("cd", "cd "));
    assert!(contains_str("index.shtml", ".shtml"));
    assert!(!contains_str("index.html", ".shtml"));
    assert!(contains_str("abc", ""));
    assert!(!contains_str("ab", "abc"));
}

#[test]
fn replacement_is_left_to_right_without_overlap() {
    assert_eq!(replace_all("/a/../b", "/../", ""), "/ab");
    assert_eq!(replace_all("/../../x", "/../", ""), "../x");
    assert_eq!(replace_all("aaaa", "aa", "b"), "bb");
    assert_eq!(replace_all("aaa", "aa", "b"), "ba");
    assert_eq!(replace_all("plain", "/../", ""), "plain");
}

#[test]
fn find_word_finds_the_first() {
    let v = strings(&["a", "|", "b", "|", "c"]);
    assert_eq!(find_word(&v, "|"), Some(1));
    assert_eq!(find_word(&v, ">"), None);
}

#[test]
fn join_and_copy() {
    let v = strings(&["x", "y", "z"]);
    assert_eq!(join(&v, "\n"), "x\ny\nz");
    assert_eq!(join(&Vec::new(), "\n"), "");
    assert_eq!(copy_range(&v, 1, 3), strings(&["y", "z"]));
}

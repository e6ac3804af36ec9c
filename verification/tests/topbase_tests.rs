use mgt::content::{string_all_zeroes, ContentSet};
use mgt::topbase::{
    blob_check_callback_default, get_all_blobs_from_commit, get_all_blobs_from_commit_with_callback,
    get_all_blobs_in_branch, parse_diff_tree_line, tokenize, BlobCheck, BlobCheckValue,
};

fn record(prev: &str, next: &str) -> BlobCheck {
    BlobCheck {
        mode_prev: String::from(":100644"),
        mode_next: String::from("100644"),
        blob_prev: String::from(prev),
        blob_next: String::from(next),
        path: String::from("some/file.txt"),
    }
}

#[test]
fn classifier_deletion_takes_prev() {
    let b = record("abc123", "0000000000");
    assert!(b.is_delete_blob());
    assert_eq!(blob_check_callback_default(&b), Some(BlobCheckValue::TakePrev));
}

#[test]
fn classifier_modification_takes_next() {
    let b = record("abc123", "def456");
    assert!(!b.is_delete_blob());
    assert_eq!(blob_check_callback_default(&b), Some(BlobCheckValue::TakeNext));
}

#[test]
fn classifier_addition_takes_next() {
    let b = record("0000000000", "def456");
    assert!(!b.is_delete_blob());
    assert_eq!(blob_check_callback_default(&b), Some(BlobCheckValue::TakeNext));
}

#[test]
fn classifier_both_zero_takes_next() {
    let b = record("0000000000", "0000000000");
    assert!(!b.is_delete_blob());
    assert_eq!(blob_check_callback_default(&b), Some(BlobCheckValue::TakeNext));
}

#[test]
fn all_zeroes_checks() {
    assert!(string_all_zeroes("0000"));
    assert!(string_all_zeroes(""));
    assert!(!string_all_zeroes("0a00"));
}

#[test]
fn tokenize_splits_on_whitespace() {
    let ts = tokenize(":100644 100644  aaa\tbbb\tM\tfile name.txt");
    let expect = vec![":100644", "100644", "aaa", "bbb", "M", "file", "name.txt"];
    let got: Vec<&str> = ts.iter().map(|s| s.as_str()).collect();
    assert_eq!(got, expect);
}

#[test]
fn parse_line_with_spaced_path() {
    let line = ":100644 100644 aaa111 bbb222 M\tdir with space/file name.txt";
    let b = parse_diff_tree_line(line).expect("line should parse");
    assert_eq!(b.mode_prev, ":100644");
    assert_eq!(b.mode_next, "100644");
    assert_eq!(b.blob_prev, "aaa111");
    assert_eq!(b.blob_next, "bbb222");
    assert_eq!(b.path, "dir with space/file name.txt");
}

#[test]
fn parse_line_without_path_gives_empty_path() {
    let b = parse_diff_tree_line(":100644 100644 aaa bbb M").expect("line should parse");
    assert_eq!(b.path, "");
    assert_eq!(b.blob_next, "bbb");
}

#[test]
fn tokenize_empty_and_blank() {
    assert!(tokenize("").is_empty());
    assert!(tokenize(" \t ").is_empty());
}

#[test]
fn parse_skips_non_colon_lines() {
    assert!(parse_diff_tree_line("deadbeef a oneline commit summary").is_none());
    assert!(parse_diff_tree_line("").is_none());
    assert!(parse_diff_tree_line(": too short").is_none());
}

#[test]
fn commit_blobs_default_policy() {
    let lines = vec![
        String::from("deadbeef some commit summary"),
        String::from(":100644 100644 aaa bbb M\tkept.txt"),
        String::from(":100644 000000 ccc 000000 D\tdeleted.txt"),
        String::from("not a record"),
    ];
    let mut set = ContentSet::new();
    get_all_blobs_from_commit(&lines, &mut set);
    assert!(set.contains(&String::from("bbb")));
    assert!(set.contains(&String::from("ccc")));
    assert!(!set.contains(&String::from("aaa")));
    assert_eq!(set.len(), 2);
}

#[test]
fn commit_blobs_never_hold_zero_sentinel() {
    let lines = vec![String::from(":100644 000000 000000 000000 D\tweird.txt")];
    let mut set = ContentSet::new();
    get_all_blobs_from_commit(&lines, &mut set);
    assert_eq!(set.len(), 0);
    assert!(!set.contains(&String::from("000000")));
}

#[test]
fn commit_blobs_with_custom_callback() {
    let lines = vec![String::from(":100644 100644 aaa bbb M\tfile.txt")];
    let mut set = ContentSet::new();
    let take_prev = |_b: &BlobCheck| Some(BlobCheckValue::TakePrev);
    get_all_blobs_from_commit_with_callback(&lines, &mut set, Some(&take_prev));
    assert!(set.contains(&String::from("aaa")));
    assert!(!set.contains(&String::from("bbb")));
}

#[test]
fn commit_blobs_callback_may_skip() {
    let lines = vec![String::from(":100644 100644 aaa bbb M\tfile.txt")];
    let mut set = ContentSet::new();
    let skip_all = |_b: &BlobCheck| None;
    get_all_blobs_from_commit_with_callback(&lines, &mut set, Some(&skip_all));
    assert_eq!(set.len(), 0);
}

#[test]
fn branch_blobs_union_over_commits() {
    let commit_one = vec![String::from(":100644 100644 aaa bbb M\tone.txt")];
    let commit_two = vec![
        String::from(":100644 100644 xxx yyy M\ttwo.txt"),
        String::from(":100644 100644 ppp bbb M\tone.txt"),
    ];
    let set = get_all_blobs_in_branch(&vec![commit_one, commit_two]);
    assert!(set.contains(&String::from("bbb")));
    assert!(set.contains(&String::from("yyy")));
    assert_eq!(set.len(), 2);
}

#[test]
fn content_set_deduplicates() {
    let mut set = ContentSet::new();
    set.insert(String::from("aaa"));
    set.insert(String::from("aaa"));
    set.insert(String::from("bbb"));
    assert_eq!(set.len(), 2);
    assert!(set.contains(&String::from("aaa")));
}

#[test]
fn content_set_subset() {
    let mut small = ContentSet::new();
    small.insert(String::from("aaa"));
    let mut big = ContentSet::new();
    big.insert(String::from("aaa"));
    big.insert(String::from("bbb"));
    assert!(small.is_subset_of(&big));
    assert!(!big.is_subset_of(&small));
    let empty = ContentSet::new();
    assert!(empty.is_subset_of(&small));
    assert!(empty.is_subset_of(&empty));
}

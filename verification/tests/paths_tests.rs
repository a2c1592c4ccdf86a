use dicom_reader::paths::{is_member_file, parent_dir, str_compare};

#[test]
fn parent_of_nested_path() {
    assert_eq!(parent_dir("data/series1/slice.dcm"), "data/series1");
    assert_eq!(parent_dir("/abs/dir/file.dcm"), "/abs/dir");
}

#[test]
fn parent_of_bare_name_is_empty() {
    assert_eq!(parent_dir("file.dcm"), "");
}

#[test]
fn member_file_extension_matches() {
    assert!(is_member_file("data/s/slice.dcm"));
    assert!(is_member_file("a/b/x.y.dcm"));
}

#[test]
fn member_file_other_extensions_rejected() {
    assert!(!is_member_file("data/s/slice.png"));
    assert!(!is_member_file("data/s/slice"));
    assert!(!is_member_file("data/s/slicedcm"));
}

#[test]
fn member_file_hidden_name_without_stem_rejected() {
    // A name that is nothing but ".dcm" has no extension.
    assert!(!is_member_file("data/s/.dcm"));
}

#[test]
fn member_file_dot_in_directory_ignored() {
    assert!(!is_member_file("data.dcm/slice"));
    assert!(is_member_file("data.x/slice.dcm"));
}

#[test]
fn compare_orders_lexicographically() {
    assert_eq!(str_compare("a", "b"), -1);
    assert_eq!(str_compare("b", "a"), 1);
    assert_eq!(str_compare("abc", "abc"), 0);
    assert_eq!(str_compare("ab", "abc"), -1);
    assert_eq!(str_compare("abd", "abc"), 1);
    assert_eq!(str_compare("", "a"), -1);
}

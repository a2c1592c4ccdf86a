use dicom_reader::index::{build_volume_index, filter_members};

#[test]
fn build_groups_by_parent_sorted_and_unique() {
    let entries = vec![
        "z/q/a.dcm".to_string(),
        "a/p/b.dcm".to_string(),
        "z/q/c.dcm".to_string(),
        "m/r/x.txt".to_string(),
    ];
    let dirs = build_volume_index(&entries);
    assert_eq!(dirs, vec!["a/p".to_string(), "z/q".to_string()]);
}

#[test]
fn members_filter_keeps_listing_order() {
    let listing = vec![
        "d/3.dcm".to_string(),
        "d/notes.txt".to_string(),
        "d/1.dcm".to_string(),
        "d/.dcm".to_string(),
    ];
    let members = filter_members(&listing);
    assert_eq!(members, vec!["d/3.dcm".to_string(), "d/1.dcm".to_string()]);
}

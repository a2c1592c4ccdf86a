use dicom_reader::errors::ScanError;
use dicom_reader::projection::resolve_projection;

fn names(list: &[&str]) -> Option<Vec<String>> {
    Some(list.iter().map(|s| s.to_string()).collect())
}

#[test]
fn absent_projection_materializes_all_columns() {
    let flags = resolve_projection(&None).unwrap();
    assert!(flags.path);
    assert!(flags.modality);
    assert!(flags.columns);
    assert!(flags.rows);
    assert!(flags.frames);
    assert!(flags.voxels);
}

#[test]
fn subset_projection_materializes_exactly_the_named_columns() {
    let flags = resolve_projection(&names(&["path", "modality"])).unwrap();
    assert!(flags.path);
    assert!(flags.modality);
    assert!(!flags.columns);
    assert!(!flags.rows);
    assert!(!flags.frames);
    assert!(!flags.voxels);
}

#[test]
fn empty_projection_materializes_nothing() {
    let flags = resolve_projection(&names(&[])).unwrap();
    assert!(!flags.path && !flags.modality && !flags.columns);
    assert!(!flags.rows && !flags.frames && !flags.voxels);
}

#[test]
fn unknown_column_fails_and_is_named() {
    let r = resolve_projection(&names(&["path", "patient"]));
    match r {
        Err(ScanError::UnknownColumns { names: u }) => {
            assert_eq!(u, vec!["patient".to_string()]);
        }
        _ => panic!("expected UnknownColumns"),
    }
}

#[test]
fn every_unknown_column_is_named_once_in_request_order() {
    let r = resolve_projection(&names(&["zeta", "rows", "alpha", "zeta"]));
    match r {
        Err(ScanError::UnknownColumns { names: u }) => {
            assert_eq!(u, vec!["zeta".to_string(), "alpha".to_string()]);
        }
        _ => panic!("expected UnknownColumns"),
    }
}

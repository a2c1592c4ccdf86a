use dicom_reader::projection::ColumnKind;
use dicom_reader::provider::{ColumnType, DicomTableProvider};
use dicom_reader::scan::DicomScan;

#[test]
fn provider_keeps_its_path() {
    let p = DicomTableProvider::new("data/root");
    assert_eq!(p.path, "data/root");
}

#[test]
fn scan_keeps_its_path() {
    let s = DicomScan::new("data/root");
    assert_eq!(s.path, "data/root");
}

#[test]
fn schema_lists_the_six_columns_with_their_types() {
    let p = DicomTableProvider::new("data/root");
    let schema = p.schema();
    assert_eq!(
        schema,
        vec![
            (ColumnKind::Path, ColumnType::Utf8),
            (ColumnKind::Modality, ColumnType::Dictionary16),
            (ColumnKind::Columns, ColumnType::UInt16),
            (ColumnKind::Rows, ColumnType::UInt16),
            (ColumnKind::Frames, ColumnType::UInt16),
            (ColumnKind::Voxels, ColumnType::LargeBinary),
        ]
    );
}

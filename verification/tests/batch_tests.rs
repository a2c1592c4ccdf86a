use dicom_reader::batch::{build_batch, build_dictionary, BatchRow, ColumnData};
use dicom_reader::image::{DicomImage, SliceMeta};
use dicom_reader::projection::{ColumnKind, ProjectionFlags};
use dicom_reader::voxels::collect_samples;

fn meta(modality: &str) -> SliceMeta {
    SliceMeta {
        columns: 2,
        rows: 2,
        bits_allocated: 16,
        samples_per_pixel: 1,
        modality: modality.to_string(),
    }
}

fn row(dir: &str, modality: &str, planes: &[[i16; 4]], with_voxels: bool) -> BatchRow {
    let files: Vec<String> = (0..planes.len()).map(|i| format!("{dir}/s{i}.dcm")).collect();
    let image = DicomImage::describe(files, &meta(modality)).unwrap();
    let voxels = if with_voxels {
        let frames: Vec<Option<Vec<i16>>> = planes.iter().map(|p| Some(p.to_vec())).collect();
        Some(collect_samples(image.columns, image.rows, &frames))
    } else {
        None
    };
    BatchRow { image, voxels }
}

#[test]
fn dictionary_reuses_keys_for_repeated_values() {
    let ms: Vec<String> = ["CT", "PT", "CT", "MR", "PT"].iter().map(|s| s.to_string()).collect();
    let d = build_dictionary(&ms);
    assert_eq!(d.values, vec!["CT".to_string(), "PT".to_string(), "MR".to_string()]);
    assert_eq!(d.keys, vec![0, 1, 0, 2, 1]);
}

#[test]
fn empty_draw_yields_no_batch() {
    let flags = ProjectionFlags::all();
    assert!(build_batch(Vec::new(), flags).is_none());
}

#[test]
fn batch_holds_all_columns_in_canonical_order() {
    let rows = vec![
        row("r/a", "CT", &[[1, 2, 3, 4], [5, 6, 7, 8]], true),
        row("r/b", "PT", &[[9, 9, 9, 9]], true),
    ];
    let b = build_batch(rows, ProjectionFlags::all()).unwrap();
    assert_eq!(b.n_rows, 2);
    let kinds: Vec<ColumnKind> = b.columns.iter().map(|c| c.0).collect();
    assert_eq!(
        kinds,
        vec![
            ColumnKind::Path,
            ColumnKind::Modality,
            ColumnKind::Columns,
            ColumnKind::Rows,
            ColumnKind::Frames,
            ColumnKind::Voxels,
        ]
    );
    match &b.columns[0].1 {
        ColumnData::Utf8(paths) => assert_eq!(paths, &vec!["r/a".to_string(), "r/b".to_string()]),
        _ => panic!("path column should be Utf8"),
    }
    match &b.columns[1].1 {
        ColumnData::Dictionary(d) => {
            assert_eq!(d.values, vec!["CT".to_string(), "PT".to_string()]);
            assert_eq!(d.keys, vec![0, 1]);
        }
        _ => panic!("modality column should be dictionary-coded"),
    }
    match &b.columns[2].1 {
        ColumnData::UInt16(v) => assert_eq!(v, &vec![2, 2]),
        _ => panic!("columns column should be UInt16"),
    }
    match &b.columns[4].1 {
        ColumnData::UInt16(v) => assert_eq!(v, &vec![2, 1]),
        _ => panic!("frames column should be UInt16"),
    }
    match &b.columns[5].1 {
        ColumnData::LargeBinary(v) => {
            assert_eq!(v.len(), 2);
            // Frame-major, row-major within a frame, little-endian.
            assert_eq!(
                v[0],
                vec![1, 0, 2, 0, 3, 0, 4, 0, 5, 0, 6, 0, 7, 0, 8, 0]
            );
            assert_eq!(v[1], vec![9, 0, 9, 0, 9, 0, 9, 0]);
        }
        _ => panic!("voxels column should be LargeBinary"),
    }
}

#[test]
fn projected_batch_holds_only_flagged_columns() {
    let rows = vec![row("r/a", "CT", &[[1, 2, 3, 4]], false)];
    let flags = ProjectionFlags {
        path: true,
        modality: false,
        columns: false,
        rows: true,
        frames: false,
        voxels: false,
    };
    let b = build_batch(rows, flags).unwrap();
    let kinds: Vec<ColumnKind> = b.columns.iter().map(|c| c.0).collect();
    assert_eq!(kinds, vec![ColumnKind::Path, ColumnKind::Rows]);
}

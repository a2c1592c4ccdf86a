use dicom_reader::batch::ColumnData;
use dicom_reader::errors::{ScanError, VolumeProperty};
use dicom_reader::image::SliceMeta;
use dicom_reader::projection::ColumnKind;
use dicom_reader::scan::{run_scan, VolumeSource};

fn volume(dir: &str, modality: &str, columns: u32, rows: u32, bits: u16, n_frames: usize) -> VolumeSource {
    let files: Vec<String> = (0..n_frames).map(|i| format!("{dir}/slice{i}.dcm")).collect();
    let plane = (columns * rows) as usize;
    let frames: Vec<Option<Vec<i16>>> =
        (0..n_frames).map(|i| Some(vec![i as i16; plane])).collect();
    VolumeSource {
        files,
        meta: SliceMeta {
            columns,
            rows,
            bits_allocated: bits,
            samples_per_pixel: 1,
            modality: modality.to_string(),
        },
        frames,
    }
}

fn ct_root() -> Vec<VolumeSource> {
    // Three volumes of four same-dimension 16-bit monochrome slices each.
    vec![
        volume("root/s1", "CT", 512, 512, 16, 4),
        volume("root/s2", "CT", 512, 512, 16, 4),
        volume("root/s3", "CT", 512, 512, 16, 4),
    ]
}

fn names(list: &[&str]) -> Option<Vec<String>> {
    Some(list.iter().map(|s| s.to_string()).collect())
}

fn row_counts(batches: &[dicom_reader::batch::OutputBatch]) -> Vec<usize> {
    batches.iter().map(|b| b.n_rows).collect()
}

#[test]
fn scenario_full_scan_in_chunks_of_two() {
    // Unprojected scan, batch_size = 2, no limit: batches of [2, 1] rows,
    // every row's frames column is 4.
    let batches = run_scan(&ct_root(), &None, None, 2).unwrap();
    assert_eq!(row_counts(&batches), vec![2, 1]);
    for b in &batches {
        assert_eq!(b.columns.len(), 6);
        let frames_col = &b.columns[4];
        assert_eq!(frames_col.0, ColumnKind::Frames);
        match &frames_col.1 {
            ColumnData::UInt16(v) => {
                assert_eq!(v.len(), b.n_rows);
                assert!(v.iter().all(|&f| f == 4));
            }
            _ => panic!("frames column should be UInt16"),
        }
        let voxels_col = &b.columns[5];
        assert_eq!(voxels_col.0, ColumnKind::Voxels);
        match &voxels_col.1 {
            ColumnData::LargeBinary(v) => {
                assert!(v.iter().all(|bytes| bytes.len() == 2 * 512 * 512 * 4));
            }
            _ => panic!("voxels column should be LargeBinary"),
        }
    }
    match &batches[0].columns[0].1 {
        ColumnData::Utf8(paths) => {
            assert_eq!(paths, &vec!["root/s1".to_string(), "root/s2".to_string()]);
        }
        _ => panic!("path column should be Utf8"),
    }
}

#[test]
fn scenario_projection_prunes_columns_and_skips_decoding() {
    // Projection {path, modality}: every batch holds exactly those two
    // columns, and no volume's samples are ever decoded - a volume whose
    // members cannot decode at all still scans cleanly.
    let mut volumes = ct_root();
    for v in &mut volumes {
        for f in &mut v.frames {
            *f = None;
        }
    }
    let batches = run_scan(&volumes, &names(&["path", "modality"]), None, 2).unwrap();
    assert_eq!(row_counts(&batches), vec![2, 1]);
    for b in &batches {
        let kinds: Vec<ColumnKind> = b.columns.iter().map(|c| c.0).collect();
        assert_eq!(kinds, vec![ColumnKind::Path, ColumnKind::Modality]);
    }
}

#[test]
fn scenario_limit_stops_before_later_volumes() {
    // A limit of 2 yields one batch of 2 rows; the third volume is never
    // visited - here it is invalid, and the scan still succeeds.
    let mut volumes = ct_root();
    volumes[2] = volume("root/s3", "CT", 512, 512, 8, 4);
    let batches = run_scan(&volumes, &None, Some(2), 10).unwrap();
    assert_eq!(row_counts(&batches), vec![2]);
}

#[test]
fn scenario_unsupported_bit_depth_fails_the_scan() {
    let mut volumes = ct_root();
    volumes[0] = volume("root/s1", "CT", 512, 512, 8, 4);
    let r = run_scan(&volumes, &None, None, 2);
    match r {
        Err(ScanError::UnsupportedVolume { property, value }) => {
            assert_eq!(property, VolumeProperty::BitsAllocated);
            assert_eq!(value, 8);
        }
        _ => panic!("expected UnsupportedVolume for bits_allocated"),
    }
}

#[test]
fn unknown_column_fails_before_any_batch() {
    let r = run_scan(&ct_root(), &names(&["path", "acquisition"]), None, 2);
    match r {
        Err(ScanError::UnknownColumns { names: u }) => {
            assert_eq!(u, vec!["acquisition".to_string()]);
        }
        _ => panic!("expected UnknownColumns"),
    }
}

#[test]
fn limit_larger_than_index_visits_everything_once() {
    let batches = run_scan(&ct_root(), &names(&["path"]), Some(100), 2).unwrap();
    assert_eq!(row_counts(&batches), vec![2, 1]);
    let total: usize = batches.iter().map(|b| b.n_rows).sum();
    assert_eq!(total, 3);
}

#[test]
fn first_member_decode_failure_is_fatal_when_voxels_requested() {
    let mut volumes = ct_root();
    volumes[1].frames[0] = None;
    let r = run_scan(&volumes, &None, None, 2);
    match r {
        Err(ScanError::VolumeOpen { path }) => {
            assert_eq!(path, "root/s2/slice0.dcm");
        }
        _ => panic!("expected VolumeOpen"),
    }
}

#[test]
fn later_member_decode_failure_shortens_the_buffer() {
    // A non-first member that fails to decode is skipped: the buffer holds
    // columns * rows * decoded_frame_count samples, frames still reports
    // the declared member count.
    let mut volumes = vec![volume("root/s1", "CT", 2, 2, 16, 3)];
    volumes[0].frames[1] = None;
    let batches = run_scan(&volumes, &None, None, 10).unwrap();
    let b = &batches[0];
    match (&b.columns[4].1, &b.columns[5].1) {
        (ColumnData::UInt16(frames), ColumnData::LargeBinary(voxels)) => {
            assert_eq!(frames, &vec![3]);
            assert_eq!(voxels[0].len(), 2 * 2 * 2 * 2); // two decoded frames
        }
        _ => panic!("unexpected column layout"),
    }
}

#[test]
fn reader_scan_uses_its_own_settings() {
    let reader = dicom_reader::reader::DicomReader::from_entries(&Vec::new())
        .with_projection(Some(vec!["path"]))
        .with_limit(Some(2))
        .with_batch_size(1);
    let batches = reader.scan_volumes(&ct_root()).unwrap();
    assert_eq!(row_counts(&batches), vec![1, 1]);
    for b in &batches {
        let kinds: Vec<ColumnKind> = b.columns.iter().map(|c| c.0).collect();
        assert_eq!(kinds, vec![ColumnKind::Path]);
    }
}

#[test]
fn empty_projection_still_counts_rows() {
    let batches = run_scan(&ct_root(), &names(&[]), None, 2).unwrap();
    assert_eq!(row_counts(&batches), vec![2, 1]);
    for b in &batches {
        assert!(b.columns.is_empty());
    }
}

#[test]
fn scan_of_no_volumes_emits_no_batches() {
    let batches = run_scan(&Vec::new(), &None, None, 2).unwrap();
    assert!(batches.is_empty());
}

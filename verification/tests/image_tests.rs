use dicom_reader::errors::{ScanError, VolumeProperty};
use dicom_reader::image::{DicomImage, SliceMeta};

fn meta(columns: u32, rows: u32, bits: u16, spp: u16) -> SliceMeta {
    SliceMeta {
        columns,
        rows,
        bits_allocated: bits,
        samples_per_pixel: spp,
        modality: "CT".to_string(),
    }
}

fn files(n: usize) -> Vec<String> {
    (0..n).map(|i| format!("root/series/slice{i}.dcm")).collect()
}

#[test]
fn describe_valid_volume() {
    let img = DicomImage::describe(files(4), &meta(512, 512, 16, 1)).unwrap();
    assert_eq!(img.path, "root/series");
    assert_eq!(img.modality, "CT");
    assert_eq!(img.columns, 512);
    assert_eq!(img.rows, 512);
    assert_eq!(img.frames, 4);
    assert_eq!(img.files.len(), 4);
}

#[test]
fn describe_rejects_wrong_bit_depth() {
    let r = DicomImage::describe(files(1), &meta(512, 512, 8, 1));
    match r {
        Err(ScanError::UnsupportedVolume { property, value }) => {
            assert_eq!(property, VolumeProperty::BitsAllocated);
            assert_eq!(value, 8);
        }
        _ => panic!("expected UnsupportedVolume for bits_allocated"),
    }
}

#[test]
fn describe_rejects_multichannel() {
    let r = DicomImage::describe(files(1), &meta(512, 512, 16, 3));
    match r {
        Err(ScanError::UnsupportedVolume { property, value }) => {
            assert_eq!(property, VolumeProperty::SamplesPerPixel);
            assert_eq!(value, 3);
        }
        _ => panic!("expected UnsupportedVolume for samples_per_pixel"),
    }
}

#[test]
fn describe_rejects_oversized_extent() {
    let r = DicomImage::describe(files(1), &meta(70000, 512, 16, 1));
    match r {
        Err(ScanError::UnsupportedVolume { property, value }) => {
            assert_eq!(property, VolumeProperty::Columns);
            assert_eq!(value, 70000);
        }
        _ => panic!("expected UnsupportedVolume for columns"),
    }
    let r = DicomImage::describe(files(1), &meta(512, 70000, 16, 1));
    match r {
        Err(ScanError::UnsupportedVolume { property, value }) => {
            assert_eq!(property, VolumeProperty::Rows);
            assert_eq!(value, 70000);
        }
        _ => panic!("expected UnsupportedVolume for rows"),
    }
}

#[test]
fn describe_rejects_oversized_frame_count() {
    let r = DicomImage::describe(files(0x10000), &meta(4, 4, 16, 1));
    match r {
        Err(ScanError::UnsupportedVolume { property, value }) => {
            assert_eq!(property, VolumeProperty::Frames);
            assert_eq!(value, 0x10000);
        }
        _ => panic!("expected UnsupportedVolume for frames"),
    }
}

#[test]
fn describe_checks_bit_depth_before_channels() {
    let r = DicomImage::describe(files(1), &meta(512, 512, 8, 3));
    match r {
        Err(ScanError::UnsupportedVolume { property, .. }) => {
            assert_eq!(property, VolumeProperty::BitsAllocated);
        }
        _ => panic!("expected UnsupportedVolume"),
    }
}

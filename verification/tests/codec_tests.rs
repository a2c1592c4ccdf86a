use dicom_reader::voxels::{collect_samples, pack_samples, unpack_samples, SampleBuffer};

#[test]
fn pack_is_little_endian() {
    let samples: Vec<i16> = vec![1, -2, 256, i16::MIN, i16::MAX];
    let bytes = pack_samples(&samples);
    assert_eq!(
        bytes,
        vec![
            0x01, 0x00, // 1
            0xFE, 0xFF, // -2
            0x00, 0x01, // 256
            0x00, 0x80, // -32768
            0xFF, 0x7F, // 32767
        ]
    );
}

#[test]
fn pack_unpack_round_trip() {
    let samples: Vec<i16> = (-300..300).map(|v| (v * 37) as i16).collect();
    let bytes = pack_samples(&samples);
    assert_eq!(bytes.len(), 2 * samples.len());
    let back = unpack_samples(&bytes);
    assert_eq!(back, samples);
}

#[test]
fn round_trip_of_empty_buffer() {
    let samples: Vec<i16> = vec![];
    assert_eq!(unpack_samples(&pack_samples(&samples)), samples);
}

#[test]
fn buffer_accepts_only_full_planes() {
    let mut buf = SampleBuffer::new(2, 3);
    assert!(buf.push_frame(&vec![1, 2, 3, 4, 5, 6]));
    assert!(!buf.push_frame(&vec![1, 2, 3])); // wrong length: skipped
    assert!(buf.push_frame(&vec![7, 8, 9, 10, 11, 12]));
    assert_eq!(buf.decoded_frames, 2);
    assert_eq!(buf.samples.len(), 2 * 3 * 2);
    assert_eq!(buf.samples, vec![1, 2, 3, 4, 5, 6, 7, 8, 9, 10, 11, 12]);
}

#[test]
fn collect_skips_failed_members_and_counts_the_rest() {
    let frames: Vec<Option<Vec<i16>>> = vec![
        Some(vec![1, 2]),
        None,
        Some(vec![3, 4]),
        Some(vec![9]), // mis-sized: skipped
        Some(vec![5, 6]),
    ];
    let buf = collect_samples(2, 1, &frames);
    assert_eq!(buf.decoded_frames, 3);
    assert_eq!(buf.samples, vec![1, 2, 3, 4, 5, 6]);
    // The buffer length is columns * rows * decoded_frame_count.
    assert_eq!(buf.samples.len(), 2 * 1 * buf.decoded_frames);
    assert!(buf.decoded_frames <= frames.len());
}

use dicom_reader::reader::{DicomReader, DicomReaderStreamer};

fn entries() -> Vec<String> {
    vec![
        "root/b/s1.dcm".to_string(),
        "root/b/s2.dcm".to_string(),
        "root/c/readme.txt".to_string(),
        "root/a/s1.dcm".to_string(),
        "root/c/s1.dcm".to_string(),
        "root/a/s2.dcm".to_string(),
        "root/a".to_string(),
    ]
}

#[test]
fn index_is_sorted_and_deduplicated() {
    let reader = DicomReader::from_entries(&entries());
    assert_eq!(
        reader.dicom_directories,
        vec!["root/a".to_string(), "root/b".to_string(), "root/c".to_string()]
    );
}

#[test]
fn index_is_reproducible() {
    let a = DicomReader::from_entries(&entries());
    let b = DicomReader::from_entries(&entries());
    assert_eq!(a.dicom_directories, b.dicom_directories);
}

#[test]
fn non_member_files_contribute_no_volume() {
    let walked = vec!["root/x/notes.txt".to_string(), "root/y/img.png".to_string()];
    let reader = DicomReader::from_entries(&walked);
    assert!(reader.dicom_directories.is_empty());
}

#[test]
fn builders_set_their_fields() {
    let reader = DicomReader::from_entries(&entries())
        .with_projection(Some(vec!["path", "modality"]))
        .with_limit(Some(7))
        .with_batch_size(3);
    assert_eq!(
        reader.projection,
        Some(vec!["path".to_string(), "modality".to_string()])
    );
    assert_eq!(reader.limit, Some(7));
    assert_eq!(reader.batch_size, 3);
}

#[test]
fn iterator_walks_directories_in_order() {
    let reader = DicomReader::from_entries(&entries());
    let mut it = reader.iter();
    assert_eq!(it.next_directory(), Some("root/a".to_string()));
    assert_eq!(it.next_directory(), Some("root/b".to_string()));
    assert_eq!(it.next_directory(), Some("root/c".to_string()));
    assert_eq!(it.next_directory(), None);
}

#[test]
fn streamer_chunks_respect_batch_size() {
    let reader = DicomReader::from_entries(&entries()).with_batch_size(2);
    let mut s = DicomReaderStreamer::new(reader);
    assert_eq!(
        s.next_chunk(),
        Some(vec!["root/a".to_string(), "root/b".to_string()])
    );
    assert_eq!(s.next_chunk(), Some(vec!["root/c".to_string()]));
    assert_eq!(s.next_chunk(), None);
    assert_eq!(s.next_chunk(), None);
}

#[test]
fn streamer_limit_stops_before_later_directories() {
    // With a limit of 2 the third directory is never handed out.
    let reader = DicomReader::from_entries(&entries()).with_limit(Some(2)).with_batch_size(10);
    let mut s = DicomReaderStreamer::new(reader);
    let mut visited: Vec<String> = Vec::new();
    while let Some(chunk) = s.next_chunk() {
        visited.extend(chunk);
    }
    assert_eq!(visited, vec!["root/a".to_string(), "root/b".to_string()]);
}

#[test]
fn streamer_zero_limit_emits_nothing() {
    let reader = DicomReader::from_entries(&entries()).with_limit(Some(0));
    let mut s = DicomReaderStreamer::new(reader);
    assert_eq!(s.next_chunk(), None);
}

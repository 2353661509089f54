use fat32::listing::{
    file_start, find_directory, find_file, find_parent_cluster, scan_records, select_directory,
    select_file, select_parent,
};
use fat32::{DirectoryEntry, Fat32Error};

const DIRECTORY: u8 = 0x10;
const ARCHIVE: u8 = 0x20;

fn record(name: &[u8; 11], attributes: u8, cluster: u32, size: u32) -> [u8; 32] {
    let mut bytes = [0u8; 32];
    bytes[0..11].copy_from_slice(name);
    bytes[11] = attributes;
    bytes[20..22].copy_from_slice(&((cluster >> 16) as u16).to_le_bytes());
    bytes[26..28].copy_from_slice(&(cluster as u16).to_le_bytes());
    bytes[28..32].copy_from_slice(&size.to_le_bytes());
    bytes
}

fn buffer(records: &[[u8; 32]]) -> Vec<u8> {
    records.iter().flat_map(|bytes| bytes.iter().copied()).collect()
}

fn entries(records: &[[u8; 32]]) -> Vec<DirectoryEntry> {
    records.iter().map(|bytes| DirectoryEntry::from_bytes(bytes)).collect()
}

fn names(entries: &[DirectoryEntry]) -> Vec<String> {
    entries.iter().map(|entry| entry.short_name()).collect()
}

fn free(name: &[u8; 11]) -> [u8; 32] {
    let mut bytes = record(name, ARCHIVE, 0, 0);
    bytes[0] = 0xE5;
    bytes
}

#[test]
fn scan_collects_the_records_in_order() {
    let data = buffer(&[
        record(b"ONE     TXT", ARCHIVE, 3, 1),
        record(b"TWO        ", DIRECTORY, 4, 0),
        record(b"THREE   BIN", ARCHIVE, 5, 2),
    ]);
    let mut found = Vec::new();
    assert!(!scan_records(&data, &mut found));
    assert_eq!(names(&found), vec!["ONE.TXT", "TWO", "THREE.BIN"]);
    assert_eq!(found[2].first_cluster(), 5);
    assert_eq!(found[2].file_size(), 2);
}

#[test]
fn scan_appends_to_the_records_already_found() {
    let mut found = entries(&[record(b"FIRST      ", ARCHIVE, 0, 0)]);
    let data = buffer(&[record(b"SECOND     ", ARCHIVE, 0, 0)]);
    assert!(!scan_records(&data, &mut found));
    assert_eq!(names(&found), vec!["FIRST", "SECOND"]);
}

#[test]
fn scan_stops_at_the_first_end_record() {
    let data = buffer(&[
        record(b"ONE        ", ARCHIVE, 0, 0),
        [0u8; 32],
        record(b"GHOST      ", ARCHIVE, 0, 0),
        [0u8; 32],
        record(b"SPECTRE    ", ARCHIVE, 0, 0),
    ]);
    let mut found = Vec::new();
    assert!(scan_records(&data, &mut found));
    assert_eq!(names(&found), vec!["ONE"]);
}

#[test]
fn scan_takes_the_end_record_by_its_first_byte_alone() {
    let mut end = record(b"GHOST      ", ARCHIVE, 9, 9);
    end[0] = 0x00;
    let data = buffer(&[end, record(b"AFTER      ", ARCHIVE, 0, 0)]);
    let mut found = Vec::new();
    assert!(scan_records(&data, &mut found));
    assert!(found.is_empty());
}

#[test]
fn scan_of_an_empty_directory_finds_nothing() {
    let data = vec![0u8; 512];
    let mut found = Vec::new();
    assert!(scan_records(&data, &mut found));
    assert!(found.is_empty());
}

#[test]
fn scan_passes_over_free_records() {
    let data = buffer(&[
        free(b"GONE       "),
        record(b"ONE        ", ARCHIVE, 0, 0),
        free(b"GONE    TOO"),
        free(b"GONE    TOO"),
        record(b"TWO        ", ARCHIVE, 0, 0),
    ]);
    let mut found = Vec::new();
    assert!(!scan_records(&data, &mut found));
    assert_eq!(names(&found), vec!["ONE", "TWO"]);
}

#[test]
fn scan_passes_over_long_name_and_volume_records() {
    let data = buffer(&[
        record(b"LONGNAME   ", 0x0F, 0, 0),
        record(b"LONGDIR    ", 0x1F, 0, 0),
        record(b"MYVOLUME   ", 0x08, 0, 0),
        record(b"VOLARCH    ", 0x28, 0, 0),
        record(b"HIDDEN     ", 0x07, 0, 0),
        record(b"PLAIN      ", 0x00, 0, 0),
    ]);
    let mut found = Vec::new();
    assert!(!scan_records(&data, &mut found));
    assert_eq!(names(&found), vec!["HIDDEN", "PLAIN"]);
}

#[test]
fn scan_ignores_an_incomplete_record_at_the_end() {
    let mut data = buffer(&[record(b"ONE        ", ARCHIVE, 0, 0)]);
    data.extend_from_slice(&record(b"PARTIAL    ", ARCHIVE, 0, 0)[..31]);
    let mut found = Vec::new();
    assert!(!scan_records(&data, &mut found));
    assert_eq!(names(&found), vec!["ONE"]);

    let mut short = Vec::new();
    assert!(!scan_records(&[0u8; 31], &mut short));
    assert!(!scan_records(&[], &mut short));
    assert!(short.is_empty());
}

#[test]
fn find_directory_takes_the_first_matching_directory() {
    let listed = entries(&[
        record(b"DOCS       ", ARCHIVE, 3, 0),
        record(b"OTHER      ", DIRECTORY, 4, 0),
        record(b"DOCS       ", DIRECTORY, 5, 0),
        record(b"docs       ", DIRECTORY, 6, 0),
    ]);
    assert_eq!(find_directory(&listed, b"DOCS"), Some(2));
    assert_eq!(find_directory(&listed, b"docs"), Some(2));
    assert_eq!(find_directory(&listed, b"Other"), Some(1));
    assert_eq!(find_directory(&listed, b"NOPE"), None);
    assert_eq!(find_directory(&listed, b"DOC"), None);
    assert_eq!(find_directory(&[].to_vec(), b"DOCS"), None);
}

#[test]
fn find_directory_matches_the_short_name_with_its_extension() {
    let listed = entries(&[record(b"BACKUP  OLD", DIRECTORY, 9, 0)]);
    assert_eq!(find_directory(&listed, b"backup.old"), Some(0));
    assert_eq!(find_directory(&listed, b"BACKUP"), None);
}

#[test]
fn find_directory_leaves_out_the_dot_records() {
    let listed = entries(&[
        record(b".          ", DIRECTORY, 5, 0),
        record(b"..         ", DIRECTORY, 0, 0),
    ]);
    assert_eq!(find_directory(&listed, b"."), None);
    assert_eq!(find_directory(&listed, b".."), None);
}

#[test]
fn find_file_takes_the_first_matching_file() {
    let listed = entries(&[
        record(b"A       TXT", DIRECTORY, 3, 0),
        record(b"B       TXT", ARCHIVE, 4, 1),
        record(b"A       TXT", ARCHIVE, 5, 2),
        record(b"A       TXT", 0x00, 6, 3),
    ]);
    assert_eq!(find_file(&listed, b"A.TXT"), Some(2));
    assert_eq!(find_file(&listed, b"a.txt"), Some(2));
    assert_eq!(find_file(&listed, b"b.TXT"), Some(1));
    assert_eq!(find_file(&listed, b"C.TXT"), None);
    assert_eq!(find_file(&listed, b"A"), None);
    assert_eq!(find_file(&listed, b""), None);
}

#[test]
fn find_parent_reads_the_first_dot_dot_record() {
    let listed = entries(&[
        record(b".          ", DIRECTORY, 7, 0),
        record(b"..         ", DIRECTORY, 5, 0),
        record(b"..         ", DIRECTORY, 9, 0),
    ]);
    assert_eq!(find_parent_cluster(&listed, 2), Some(5));
}

#[test]
fn find_parent_takes_cluster_zero_for_the_root() {
    let listed = entries(&[
        record(b".          ", DIRECTORY, 7, 0),
        record(b"..         ", DIRECTORY, 0, 0),
    ]);
    assert_eq!(find_parent_cluster(&listed, 2), Some(2));
    assert_eq!(find_parent_cluster(&listed, 11), Some(11));
}

#[test]
fn find_parent_without_a_dot_dot_record_finds_nothing() {
    let listed = entries(&[
        record(b".          ", DIRECTORY, 7, 0),
        record(b"DOCS       ", DIRECTORY, 5, 0),
    ]);
    assert_eq!(find_parent_cluster(&listed, 2), None);
    assert_eq!(find_parent_cluster(&Vec::new(), 2), None);
}

#[test]
fn select_directory_answers_with_the_cluster() {
    let listed = entries(&[
        record(b"DOCS       ", ARCHIVE, 3, 0),
        record(b"DOCS       ", DIRECTORY, 0x0012_0005, 0),
        record(b"DOCS       ", DIRECTORY, 6, 0),
    ]);
    assert_eq!(select_directory(&listed, b"docs"), Ok(0x0012_0005));
}

#[test]
fn select_directory_answers_not_found() {
    let listed = entries(&[
        record(b"A       TXT", ARCHIVE, 3, 0),
        record(b".          ", DIRECTORY, 5, 0),
        record(b"..         ", DIRECTORY, 0, 0),
    ]);
    assert_eq!(select_directory(&listed, b"NOPE"), Err(Fat32Error::NotFound));
    assert_eq!(select_directory(&listed, b"A.TXT"), Err(Fat32Error::NotFound));
    assert_eq!(select_directory(&listed, b"."), Err(Fat32Error::NotFound));
    assert_eq!(select_directory(&Vec::new(), b"DOCS"), Err(Fat32Error::NotFound));
}

#[test]
fn select_parent_answers_with_the_cluster_or_the_root() {
    let named = entries(&[record(b"..         ", DIRECTORY, 5, 0)]);
    assert_eq!(select_parent(&named, 2), Ok(5));
    let root = entries(&[record(b"..         ", DIRECTORY, 0, 0)]);
    assert_eq!(select_parent(&root, 2), Ok(2));
}

#[test]
fn select_parent_answers_not_found() {
    let listed = entries(&[record(b".          ", DIRECTORY, 5, 0)]);
    assert_eq!(select_parent(&listed, 2), Err(Fat32Error::NotFound));
    assert_eq!(select_parent(&Vec::new(), 2), Err(Fat32Error::NotFound));
}

#[test]
fn select_file_answers_with_the_first_cluster_and_the_size() {
    let listed = entries(&[
        record(b"A       TXT", DIRECTORY, 3, 0),
        record(b"A       TXT", ARCHIVE, 6, 10),
        record(b"A       TXT", ARCHIVE, 7, 20),
    ]);
    assert_eq!(select_file(&listed, b"a.txt"), Ok((6, 10)));
}

#[test]
fn select_file_answers_not_found() {
    let listed = entries(&[
        record(b"DOCS       ", DIRECTORY, 5, 0),
        record(b"A       TXT", ARCHIVE, 6, 10),
    ]);
    assert_eq!(select_file(&listed, b"DOCS"), Err(Fat32Error::NotFound));
    assert_eq!(select_file(&listed, b"NOPE.TXT"), Err(Fat32Error::NotFound));
    assert_eq!(select_file(&Vec::new(), b"A.TXT"), Err(Fat32Error::NotFound));
}

#[test]
fn file_of_size_zero_has_no_chain() {
    assert_eq!(file_start(0, 0), None);
    assert_eq!(file_start(9, 0), None);
    assert_eq!(file_start(9, 1), Some(9));
    assert_eq!(file_start(0, 1), Some(0));
    assert_eq!(file_start(6, 0xFFFF_FFFF), Some(6));
}

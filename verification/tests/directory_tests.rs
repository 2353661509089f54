use fat32::{DirectoryEntry, FileAttributes};

fn entry(name: &[u8; 11], attributes: u8) -> DirectoryEntry {
    let mut bytes = [0u8; 32];
    bytes[0..11].copy_from_slice(name);
    bytes[11] = attributes;
    DirectoryEntry::from_bytes(&bytes)
}

#[test]
fn attribute_constants_have_the_format_values() {
    assert_eq!(FileAttributes::READ_ONLY, 0x01);
    assert_eq!(FileAttributes::HIDDEN, 0x02);
    assert_eq!(FileAttributes::SYSTEM, 0x04);
    assert_eq!(FileAttributes::VOLUME_ID, 0x08);
    assert_eq!(FileAttributes::DIRECTORY, 0x10);
    assert_eq!(FileAttributes::ARCHIVE, 0x20);
    assert_eq!(FileAttributes::LONG_NAME, 0x0F);
    assert_eq!(DirectoryEntry::SIZE, 32);
}

#[test]
fn directory_attribute_is_one_bit() {
    assert!(FileAttributes(0x10).is_directory());
    assert!(FileAttributes(0x30).is_directory());
    assert!(FileAttributes(0xFF).is_directory());
    assert!(!FileAttributes(0x00).is_directory());
    assert!(!FileAttributes(0x20).is_directory());
    assert!(!FileAttributes(0xEF).is_directory());
}

#[test]
fn long_name_attribute_needs_all_four_bits() {
    assert!(FileAttributes(0x0F).is_long_name());
    assert!(FileAttributes(0x1F).is_long_name());
    assert!(FileAttributes(0xFF).is_long_name());
    assert!(!FileAttributes(0x0E).is_long_name());
    assert!(!FileAttributes(0x07).is_long_name());
    assert!(!FileAttributes(0x08).is_long_name());
    assert!(!FileAttributes(0x00).is_long_name());
}

#[test]
fn volume_attribute_is_one_bit() {
    assert!(FileAttributes(0x08).is_volume_id());
    assert!(FileAttributes(0x0F).is_volume_id());
    assert!(FileAttributes(0x28).is_volume_id());
    assert!(!FileAttributes(0x00).is_volume_id());
    assert!(!FileAttributes(0x10).is_volume_id());
    assert!(!FileAttributes(0xF7).is_volume_id());
}

#[test]
fn entry_decode_reads_the_fields_at_their_offsets() {
    let bytes: Vec<u8> = (100..132u8).collect();
    let decoded = DirectoryEntry::from_bytes(&bytes);
    assert_eq!(decoded.attributes().0, 111);
    assert_eq!(decoded.first_cluster(), 0x7978_7F7E);
    assert_eq!(decoded.file_size(), 0x8382_8180);
}

#[test]
fn entry_decode_ignores_bytes_after_the_record() {
    let mut bytes = vec![0u8; 64];
    bytes[0..11].copy_from_slice(b"NAME    EXT");
    bytes[28] = 7;
    for byte in bytes[32..].iter_mut() {
        *byte = 0xFF;
    }
    let decoded = DirectoryEntry::from_bytes(&bytes);
    assert_eq!(decoded.short_name(), "NAME.EXT");
    assert_eq!(decoded.file_size(), 7);
}

#[test]
fn first_cluster_joins_the_high_and_low_fields() {
    let mut bytes = [0u8; 32];
    bytes[0] = b'A';
    bytes[20..22].copy_from_slice(&0x0001u16.to_le_bytes());
    bytes[26..28].copy_from_slice(&0x0002u16.to_le_bytes());
    assert_eq!(DirectoryEntry::from_bytes(&bytes).first_cluster(), 0x0001_0002);
    bytes[20..22].copy_from_slice(&0xFFFFu16.to_le_bytes());
    bytes[26..28].copy_from_slice(&0xFFFFu16.to_le_bytes());
    assert_eq!(DirectoryEntry::from_bytes(&bytes).first_cluster(), 0xFFFF_FFFF);
    bytes[20..22].copy_from_slice(&0u16.to_le_bytes());
    bytes[26..28].copy_from_slice(&5u16.to_le_bytes());
    assert_eq!(DirectoryEntry::from_bytes(&bytes).first_cluster(), 5);
}

#[test]
fn file_size_is_little_endian() {
    let mut bytes = [0u8; 32];
    bytes[28..32].copy_from_slice(&[0x0A, 0x00, 0x00, 0x00]);
    assert_eq!(DirectoryEntry::from_bytes(&bytes).file_size(), 10);
    bytes[28..32].copy_from_slice(&[0x78, 0x56, 0x34, 0x12]);
    assert_eq!(DirectoryEntry::from_bytes(&bytes).file_size(), 0x1234_5678);
}

#[test]
fn free_record_starts_with_e5() {
    let mut name = *b"FILE    TXT";
    name[0] = 0xE5;
    let record = entry(&name, 0x20);
    assert!(record.is_free());
    assert!(!record.is_end());
    assert!(!record.is_valid());
}

#[test]
fn end_record_starts_with_zero() {
    let mut name = *b"FILE    TXT";
    name[0] = 0x00;
    let record = entry(&name, 0x20);
    assert!(record.is_end());
    assert!(!record.is_free());
    assert!(!record.is_valid());
}

#[test]
fn any_other_record_is_valid() {
    let record = entry(b"FILE    TXT", 0x20);
    assert!(record.is_valid());
    assert!(!record.is_free());
    assert!(!record.is_end());
    let mut name = *b"FILE    TXT";
    name[1] = 0xE5;
    name[2] = 0x00;
    assert!(entry(&name, 0x20).is_valid());
}

#[test]
fn attributes_are_the_attribute_byte() {
    assert_eq!(entry(b"FILE    TXT", 0x27).attributes().0, 0x27);
    assert!(entry(b"DIR        ", 0x10).attributes().is_directory());
}

#[test]
fn short_name_joins_base_and_extension() {
    assert_eq!(entry(b"README  TXT", 0x20).short_name(), "README.TXT");
    assert_eq!(entry(b"A       TXT", 0x20).short_name(), "A.TXT");
    assert_eq!(entry(b"ABCDEFGHXYZ", 0x20).short_name(), "ABCDEFGH.XYZ");
    assert_eq!(entry(b"FILE    C  ", 0x20).short_name(), "FILE.C");
}

#[test]
fn short_name_has_no_dot_without_extension() {
    assert_eq!(entry(b"DOCS       ", 0x10).short_name(), "DOCS");
    assert_eq!(entry(b".          ", 0x10).short_name(), ".");
    assert_eq!(entry(b"..         ", 0x10).short_name(), "..");
    assert_eq!(entry(b"           ", 0x20).short_name(), "");
}

#[test]
fn short_name_with_an_empty_base_starts_with_the_dot() {
    assert_eq!(entry(b"        TXT", 0x20).short_name(), ".TXT");
}

#[test]
fn short_name_trims_only_the_end() {
    assert_eq!(entry(b"  AB     C ", 0x20).short_name(), "  AB. C");
    assert_eq!(entry(b"A B     TXT", 0x20).short_name(), "A B.TXT");
}

#[test]
fn short_name_trims_every_kind_of_whitespace() {
    assert_eq!(entry(b"AB\t     TXT", 0x20).short_name(), "AB.TXT");
    assert_eq!(entry(b"AB\n\r\x0B\x0C  T\t ", 0x20).short_name(), "AB.T");
    assert_eq!(entry(b"AB\xC2\xA0    TXT", 0x20).short_name(), "AB.TXT");
    assert_eq!(entry(b"AB\xC2\x85    TXT", 0x20).short_name(), "AB.TXT");
    assert_eq!(entry(b"AB\xE3\x80\x80   TXT", 0x20).short_name(), "AB.TXT");
    assert_eq!(entry(b"AB\xE2\x80\x8A   TXT", 0x20).short_name(), "AB.TXT");
}

#[test]
fn short_name_keeps_what_is_not_whitespace() {
    assert_eq!(entry(b"AB\x00     TXT", 0x20).short_name(), "AB\0.TXT");
    assert_eq!(entry(b"AB     \x00TXT", 0x20).short_name(), "AB     \0.TXT");
    assert_eq!(entry(b"AB\x1F     TXT", 0x20).short_name(), "AB\u{1F}.TXT");
    assert_eq!(entry(b"AB\xE2\x80\x8B   TXT", 0x20).short_name(), "AB\u{200B}.TXT");
    assert_eq!(entry(b"AB\xE1\xA0\x8E   TXT", 0x20).short_name(), "AB\u{180E}.TXT");
}

#[test]
fn short_name_decodes_utf8() {
    assert_eq!(entry(b"CAF\xC3\xA9   TXT", 0x20).short_name(), "CAF\u{E9}.TXT");
    assert_eq!(entry(b"\xF0\x9F\x98\x80    \xE2\x82\xAC", 0x20).short_name(), "\u{1F600}.\u{20AC}");
}

#[test]
fn short_name_drops_a_field_that_is_not_utf8() {
    assert_eq!(entry(b"\xFFAME    TXT", 0x20).short_name(), ".TXT");
    assert_eq!(entry(b"NAME    \xFFXT", 0x20).short_name(), "NAME");
    assert_eq!(entry(b"NAME\x80   T\xC3 ", 0x20).short_name(), "");
    assert_eq!(entry(b"ABCDEFG\xC3\xA9XT", 0x20).short_name(), "");
    assert_eq!(entry(b"\xE5ILE    TXT", 0x20).short_name(), ".TXT");
    assert_eq!(entry(b"\xC0\x80      TXT", 0x20).short_name(), ".TXT");
    assert_eq!(entry(b"\xED\xA0\x80     TXT", 0x20).short_name(), ".TXT");
}

#[test]
fn dot_record_is_a_dot_and_a_space() {
    assert!(entry(b".          ", 0x10).is_dot());
    assert!(entry(b". X        ", 0x10).is_dot());
    assert!(!entry(b"..         ", 0x10).is_dot());
    assert!(!entry(b".A         ", 0x10).is_dot());
    assert!(!entry(b"A.         ", 0x10).is_dot());
}

#[test]
fn dot_dot_record_is_two_dots_and_a_space() {
    assert!(entry(b"..         ", 0x10).is_dot_dot());
    assert!(entry(b".. X       ", 0x10).is_dot_dot());
    assert!(!entry(b".          ", 0x10).is_dot_dot());
    assert!(!entry(b"...        ", 0x10).is_dot_dot());
    assert!(!entry(b"..A        ", 0x10).is_dot_dot());
}

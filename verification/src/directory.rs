//! Directory records: the 32-byte entries that make up a directory.

use vstd::prelude::*;
use vstd::slice::slice_subrange;
use vstd::string::StringExecFns;
use vstd::string::StringSliceAdditionalSpecFns;
use vstd::utf8::{decode_utf8, encode_utf8_decode_utf8, valid_utf8};
use crate::bytes::{le16, le32, read_le16, read_le32};

verus! {

/// The attribute bitmask of a directory record.
#[derive(Clone, Copy, Debug)]
pub struct FileAttributes(pub u8);

impl FileAttributes {
    pub const READ_ONLY: u8 = 0x01;

    pub const HIDDEN: u8 = 0x02;

    pub const SYSTEM: u8 = 0x04;

    pub const VOLUME_ID: u8 = 0x08;

    pub const DIRECTORY: u8 = 0x10;

    pub const ARCHIVE: u8 = 0x20;

    /// The four low bits together mark a record that carries part of a long
    /// file name.
    pub const LONG_NAME: u8 = 0x0F;

    /// Whether the directory bit is set.
    pub open spec fn spec_is_directory(&self) -> bool {
        self.0 & 0x10 != 0
    }

    /// Whether all four long-name bits are set.
    pub open spec fn spec_is_long_name(&self) -> bool {
        self.0 & 0x0F == 0x0F
    }

    /// Whether the volume-label bit is set.
    pub open spec fn spec_is_volume_id(&self) -> bool {
        self.0 & 0x08 != 0
    }

    /// Whether the record names a directory.
    #[verifier::when_used_as_spec(spec_is_directory)]
    pub fn is_directory(&self) -> (set: bool)
        ensures
            set == self.spec_is_directory(),
    {
        self.0 & Self::DIRECTORY != 0
    }

    /// Whether the record carries part of a long file name.
    #[verifier::when_used_as_spec(spec_is_long_name)]
    pub fn is_long_name(&self) -> (set: bool)
        ensures
            set == self.spec_is_long_name(),
    {
        self.0 & Self::LONG_NAME == Self::LONG_NAME
    }

    /// Whether the record is the volume label.
    #[verifier::when_used_as_spec(spec_is_volume_id)]
    pub fn is_volume_id(&self) -> (set: bool)
        ensures
            set == self.spec_is_volume_id(),
    {
        self.0 & Self::VOLUME_ID != 0
    }
}

/// Whether `c` has the Unicode property White_Space.
pub open spec fn is_whitespace(c: char) -> bool {
    let code = c as u32;
    ||| 0x09 <= code <= 0x0D
    ||| code == 0x20
    ||| code == 0x85
    ||| code == 0xA0
    ||| code == 0x1680
    ||| 0x2000 <= code <= 0x200A
    ||| code == 0x2028
    ||| code == 0x2029
    ||| code == 0x202F
    ||| code == 0x205F
    ||| code == 0x3000
}

/// `text` without the whitespace at its end.
pub open spec fn trim_end(text: Seq<char>) -> Seq<char>
    decreases text.len(),
{
    if text.len() > 0 && is_whitespace(text.last()) {
        trim_end(text.drop_last())
    } else {
        text
    }
}

/// The text a field of a short name holds: its bytes read as UTF-8 and
/// trimmed of trailing whitespace, or nothing where they are not UTF-8.
pub open spec fn field_text(field: Seq<u8>) -> Seq<char> {
    if valid_utf8(field) {
        trim_end(decode_utf8(field))
    } else {
        Seq::empty()
    }
}

/// The mathematical model of a directory record: its fields as decoded
/// from the 32 bytes on disk.
pub struct DirectoryRecord {
    /// The 11 bytes of the short name: 8 of base name, 3 of extension.
    pub name: Seq<u8>,
    pub attributes: u8,
    pub nt_reserved: u8,
    pub creation_time_tenth: u8,
    pub creation_time: u16,
    pub creation_date: u16,
    pub last_access_date: u16,
    pub first_cluster_high: u16,
    pub write_time: u16,
    pub write_date: u16,
    pub first_cluster_low: u16,
    pub file_size: u32,
}

impl DirectoryRecord {
    /// The record stored in the first 32 bytes of `bytes`.
    pub open spec fn decode(bytes: Seq<u8>) -> DirectoryRecord {
        DirectoryRecord {
            name: bytes.subrange(0, 11),
            attributes: bytes[11],
            nt_reserved: bytes[12],
            creation_time_tenth: bytes[13],
            creation_time: le16(bytes, 14),
            creation_date: le16(bytes, 16),
            last_access_date: le16(bytes, 18),
            first_cluster_high: le16(bytes, 20),
            write_time: le16(bytes, 22),
            write_date: le16(bytes, 24),
            first_cluster_low: le16(bytes, 26),
            file_size: le32(bytes, 28),
        }
    }

    /// The record's slot is unused: its name starts with 0xE5.
    pub open spec fn is_free(self) -> bool {
        self.name[0] == 0xE5
    }

    /// The record ends its directory: its name starts with 0x00.
    pub open spec fn is_end(self) -> bool {
        self.name[0] == 0x00
    }

    /// The record is in use: neither free nor the end marker.
    pub open spec fn is_valid(self) -> bool {
        !self.is_free() && !self.is_end()
    }

    /// The record's attribute bitmask.
    pub open spec fn file_attributes(self) -> FileAttributes {
        FileAttributes(self.attributes)
    }

    /// The first cluster of the record's data: the high 16-bit field above
    /// the low one.
    pub open spec fn first_cluster(self) -> u32 {
        (self.first_cluster_high as int * 0x1_0000 + self.first_cluster_low as int) as u32
    }

    /// The record is the entry `.` that names its own directory.
    pub open spec fn is_dot(self) -> bool {
        self.name[0] == 0x2E && self.name[1] == 0x20
    }

    /// The record is the entry `..` that names the parent directory.
    pub open spec fn is_dot_dot(self) -> bool {
        self.name[0] == 0x2E && self.name[1] == 0x2E && self.name[2] == 0x20
    }

    /// The record's name in the form `NAME.EXT`: the text of the 8-byte
    /// base field, then, where the 3-byte extension field holds any text, a
    /// dot and that text.
    pub open spec fn short_name(self) -> Seq<char> {
        let base = field_text(self.name.subrange(0, 8));
        let extension = field_text(self.name.subrange(8, 11));
        if extension.len() == 0 {
            base
        } else {
            base + seq!['.'] + extension
        }
    }

    /// The record is one that a directory listing shows: in use, and neither
    /// part of a long name nor the volume label.
    pub open spec fn is_listed(self) -> bool {
        &&& self.is_valid()
        &&& !self.file_attributes().spec_is_long_name()
        &&& !self.file_attributes().spec_is_volume_id()
    }
}

/// A directory record, decoded from its 32 bytes on disk.
#[derive(Clone, Copy, Debug)]
pub struct DirectoryEntry {
    name: [u8; 11],
    attributes: u8,
    nt_reserved: u8,
    creation_time_tenth: u8,
    creation_time: u16,
    creation_date: u16,
    last_access_date: u16,
    first_cluster_high: u16,
    write_time: u16,
    write_date: u16,
    first_cluster_low: u16,
    file_size: u32,
}

impl View for DirectoryEntry {
    type V = DirectoryRecord;

    closed spec fn view(&self) -> DirectoryRecord {
        DirectoryRecord {
            name: self.name@,
            attributes: self.attributes,
            nt_reserved: self.nt_reserved,
            creation_time_tenth: self.creation_time_tenth,
            creation_time: self.creation_time,
            creation_date: self.creation_date,
            last_access_date: self.last_access_date,
            first_cluster_high: self.first_cluster_high,
            write_time: self.write_time,
            write_date: self.write_date,
            first_cluster_low: self.first_cluster_low,
            file_size: self.file_size,
        }
    }
}

/// Reads `bytes` as UTF-8 text.
///
/// A trusted wrapper of `core::str::from_utf8`. Its contract is believed,
/// not proved: the call succeeds on exactly the byte sequences that are
/// valid UTF-8, and the string slice it returns has the bytes it was given.
#[verifier::external_body]
fn utf8_text(bytes: &[u8]) -> (text: Option<&str>)
    ensures
        text is Some <==> valid_utf8(bytes@),
        text is Some ==> text->0.spec_bytes() == bytes@,
{
    core::str::from_utf8(bytes).ok()
}

/// Removes the whitespace at the end of `text`.
///
/// A trusted wrapper of `str::trim_end`. Its contract is believed, not
/// proved: the call returns the longest prefix of the string that does not
/// end in a character with the Unicode property White_Space.
#[verifier::external_body]
fn trim_trailing_whitespace(text: &str) -> (trimmed: &str)
    ensures
        trimmed@ == trim_end(text@),
{
    text.trim_end()
}

/// The text held by one field of a short name.
fn field_str(field: &[u8]) -> (text: &str)
    ensures
        text@ == field_text(field@),
{
    match utf8_text(field) {
        Some(text) => {
            proof {
                encode_utf8_decode_utf8(text@);
            }
            trim_trailing_whitespace(text)
        },
        None => {
            proof {
                reveal_strlit("");
            }
            assert(""@ =~= Seq::<char>::empty());
            ""
        },
    }
}

impl DirectoryEntry {
    /// The number of bytes a record occupies on disk.
    pub const SIZE: usize = 32;

    /// Decodes the record at the start of `data`.
    pub fn from_bytes(data: &[u8]) -> (entry: DirectoryEntry)
        requires
            data@.len() >= DirectoryEntry::SIZE,
        ensures
            entry@ == DirectoryRecord::decode(data@),
    {
        let entry = DirectoryEntry {
            name: [
                data[0], data[1], data[2], data[3], data[4], data[5], data[6], data[7], data[8],
                data[9], data[10],
            ],
            attributes: data[11],
            nt_reserved: data[12],
            creation_time_tenth: data[13],
            creation_time: read_le16(data, 14),
            creation_date: read_le16(data, 16),
            last_access_date: read_le16(data, 18),
            first_cluster_high: read_le16(data, 20),
            write_time: read_le16(data, 22),
            write_date: read_le16(data, 24),
            first_cluster_low: read_le16(data, 26),
            file_size: read_le32(data, 28),
        };
        assert(entry.name@ =~= data@.subrange(0, 11));
        entry
    }

    /// Whether the record's slot is unused.
    pub fn is_free(&self) -> (free: bool)
        ensures
            free == self@.is_free(),
    {
        self.name[0] == 0xE5
    }

    /// Whether the record marks the end of its directory.
    pub fn is_end(&self) -> (end: bool)
        ensures
            end == self@.is_end(),
    {
        self.name[0] == 0x00
    }

    /// Whether the record is in use.
    pub fn is_valid(&self) -> (valid: bool)
        ensures
            valid == self@.is_valid(),
    {
        !self.is_free() && !self.is_end()
    }

    /// The record's attribute bitmask.
    pub fn attributes(&self) -> (attributes: FileAttributes)
        ensures
            attributes == self@.file_attributes(),
    {
        FileAttributes(self.attributes)
    }

    /// The first cluster of the record's data.
    pub fn first_cluster(&self) -> (cluster: u32)
        ensures
            cluster == self@.first_cluster(),
    {
        let high: u16 = self.first_cluster_high;
        let low: u16 = self.first_cluster_low;
        assert(((high as u32) << 16) | (low as u32) == high as u32 * 0x1_0000 + low as u32)
            by (bit_vector);
        ((high as u32) << 16) | (low as u32)
    }

    /// The size in bytes of the file the record describes.
    pub fn file_size(&self) -> (size: u32)
        ensures
            size == self@.file_size,
    {
        self.file_size
    }

    /// The record's name in the form `NAME.EXT`.
    pub fn short_name(&self) -> (name: String)
        ensures
            name@ == self@.short_name(),
    {
        let field = self.name.as_slice();
        let base = field_str(slice_subrange(field, 0, 8));
        let extension = field_str(slice_subrange(field, 8, 11));
        let mut name = base.to_owned();
        if extension.unicode_len() != 0 {
            proof {
                reveal_strlit(".");
            }
            name.append(".");
            name.append(extension);
            assert("."@ =~= seq!['.']);
        }
        name
    }

    /// Whether the record is the entry `.`.
    pub fn is_dot(&self) -> (dot: bool)
        ensures
            dot == self@.is_dot(),
    {
        self.name[0] == 0x2E && self.name[1] == 0x20
    }

    /// Whether the record is the entry `..`.
    pub fn is_dot_dot(&self) -> (dot_dot: bool)
        ensures
            dot_dot == self@.is_dot_dot(),
    {
        self.name[0] == 0x2E && self.name[1] == 0x2E && self.name[2] == 0x20
    }
}

} // verus!

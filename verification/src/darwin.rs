//! The records of Darwin's bulk attribute listing (`getattrlistbulk`): how
//! one packed record becomes a measured entry, and how an entry joins the
//! tree. Records are little-endian, packed in the order the attributes were
//! requested; folder and file attribute groups are present only for their
//! own object types.
use vstd::prelude::*;
use crate::arena::{FileIdentity, MeasuredMetadata, ScanCounters, node_pushed};
use crate::mft::{le32, le64, read_le32, read_le64};
use crate::ranking::partial_observed;
use crate::revision::{ScannedFileRevision, spec_revision_from_unix};
use crate::statx::NativeStep;
use crate::types::EntryKind;
use crate::walk::{TreeBuilder, bump};

verus! {

/// `ATTR_CMN_NAME`.
pub const ATTR_CMN_NAME: u32 = 0x1;
/// `ATTR_CMN_DEVID`.
pub const ATTR_CMN_DEVID: u32 = 0x2;
/// `ATTR_CMN_OBJTYPE`.
pub const ATTR_CMN_OBJTYPE: u32 = 0x8;
/// `ATTR_CMN_MODTIME`.
pub const ATTR_CMN_MODTIME: u32 = 0x400;
/// `ATTR_CMN_CHGTIME`.
pub const ATTR_CMN_CHGTIME: u32 = 0x800;
/// `ATTR_CMN_FLAGS`.
pub const ATTR_CMN_FLAGS: u32 = 0x40000;
/// `ATTR_CMN_FILEID`.
pub const ATTR_CMN_FILEID: u32 = 0x2000000;
/// `ATTR_CMN_ERROR`.
pub const ATTR_CMN_ERROR: u32 = 0x20000000;
/// `ATTR_CMN_RETURNED_ATTRS`.
pub const ATTR_CMN_RETURNED_ATTRS: u32 = 0x80000000;
/// `ATTR_DIR_MOUNTSTATUS`.
pub const ATTR_DIR_MOUNTSTATUS: u32 = 0x4;
/// `ATTR_FILE_LINKCOUNT`.
pub const ATTR_FILE_LINKCOUNT: u32 = 0x1;
/// `ATTR_FILE_TOTALSIZE`.
pub const ATTR_FILE_TOTALSIZE: u32 = 0x2;
/// `ATTR_FILE_ALLOCSIZE`.
pub const ATTR_FILE_ALLOCSIZE: u32 = 0x4;
/// `DIR_MNTSTATUS_MNTPOINT`.
pub const DIR_MNTSTATUS_MNTPOINT: u32 = 0x1;
/// The flag of a file whose data lives only in the cloud.
pub const SF_DATALESS: u32 = 0x40000000;
/// The flag of a firmlink between the system and data volumes.
pub const SF_FIRMLINK: u32 = 0x800000;
/// Darwin's `EDEADLK`, which a listing reports for an entry evicted to the
/// cloud while it was read.
pub const DARWIN_EDEADLK: u32 = 11;
/// The object type of a regular file.
pub const VREG: u32 = 1;
/// The object type of a folder.
pub const VDIR: u32 = 2;
/// The object type of a symbolic link.
pub const VLNK: u32 = 5;
/// A folder with this many regular files is read with a larger batch.
pub const LARGE_DIRECTORY_FILE_COUNT: usize = 256;

/// The common attributes a traversal requests.
pub const REQUESTED_COMMON_ATTRIBUTES: u32 = 0xa2040c0b;
/// The folder attributes a traversal requests.
pub const REQUESTED_DIRECTORY_ATTRIBUTES: u32 = 0x4;
/// The file attributes a traversal requests.
pub const REQUESTED_FILE_ATTRIBUTES: u32 = 0x7;

/// The byte offset of the name reference in a record.
pub const NAME_REFERENCE: usize = 28;
/// The length of a record up to its variable attribute groups.
pub const FIXED_RECORD_BYTES: usize = 88;

/// Why a listing could not be parsed.
#[derive(Clone, Copy, Debug, PartialEq, Eq, Structural)]
pub enum DarwinParseError {
    Truncated,
    InvalidNameOffset,
    InvalidNameLength,
    EmptyName,
    InvalidRecordLength,
}

impl DarwinParseError {
    /// The message reported for a parse failure.
    pub open spec fn spec_message(self) -> Seq<char> {
        match self {
            DarwinParseError::Truncated => "getattrlistbulk returned a truncated attribute record"@,
            DarwinParseError::InvalidNameOffset => "getattrlistbulk returned an invalid name offset"@,
            DarwinParseError::InvalidNameLength => "getattrlistbulk returned an invalid name length"@,
            DarwinParseError::EmptyName => "getattrlistbulk returned an empty entry name"@,
            DarwinParseError::InvalidRecordLength => "getattrlistbulk returned an invalid record length"@,
        }
    }

    /// Returns the message reported for a parse failure.
    pub fn message(self) -> (message: String)
        ensures
            message@ == self.spec_message(),
    {
        match self {
            DarwinParseError::Truncated => "getattrlistbulk returned a truncated attribute record".to_string(),
            DarwinParseError::InvalidNameOffset => "getattrlistbulk returned an invalid name offset".to_string(),
            DarwinParseError::InvalidNameLength => "getattrlistbulk returned an invalid name length".to_string(),
            DarwinParseError::EmptyName => "getattrlistbulk returned an empty entry name".to_string(),
            DarwinParseError::InvalidRecordLength => "getattrlistbulk returned an invalid record length".to_string(),
        }
    }
}

/// One listed entry, as a record describes it.
pub struct DarwinRecord {
    pub name: Seq<u8>,
    pub kind: EntryKind,
    pub measured: MeasuredMetadata,
    pub entry_error: u32,
    pub mount_point: bool,
    pub dataless: bool,
    pub firmlink: bool,
    pub can_enforce_mount_boundary: bool,
}

/// One listed entry.
#[derive(Clone, Debug)]
pub struct DarwinEntry {
    pub name: Vec<u8>,
    pub kind: EntryKind,
    pub measured: MeasuredMetadata,
    pub entry_error: u32,
    pub mount_point: bool,
    pub dataless: bool,
    pub firmlink: bool,
    pub can_enforce_mount_boundary: bool,
}

impl DarwinEntry {
    /// The record this entry holds.
    pub open spec fn view_record(self) -> DarwinRecord {
        DarwinRecord {
            name: self.name@,
            kind: self.kind,
            measured: self.measured,
            entry_error: self.entry_error,
            mount_point: self.mount_point,
            dataless: self.dataless,
            firmlink: self.firmlink,
            can_enforce_mount_boundary: self.can_enforce_mount_boundary,
        }
    }
}

/// An unsigned 32-bit field.
pub open spec fn field_u32(record: Seq<u8>, at: int) -> u32 {
    le32(record, at) as u32
}

/// A signed 32-bit field.
pub open spec fn field_i32(record: Seq<u8>, at: int) -> i32 {
    le32(record, at) as u32 as i32
}

/// A signed 64-bit field.
pub open spec fn field_i64(record: Seq<u8>, at: int) -> i64 {
    le64(record, at) as u64 as i64
}

/// A size that cannot be negative.
pub open spec fn non_negative(value: i64) -> u64 {
    if value < 0 {
        0
    } else {
        value as u64
    }
}

/// The kind of an entry from its object type.
pub open spec fn spec_object_kind(object_type: u32) -> EntryKind {
    if object_type == VREG {
        EntryKind::File
    } else if object_type == VDIR {
        EntryKind::Directory
    } else if object_type == VLNK {
        EntryKind::Symlink
    } else {
        EntryKind::Other
    }
}

/// The position of the first NUL byte at or after `at`, or the length.
pub open spec fn first_nul(bytes: Seq<u8>, at: int) -> int
    decreases bytes.len() - at,
{
    if at >= bytes.len() {
        bytes.len() as int
    } else if bytes[at] == 0 {
        at
    } else {
        first_nul(bytes, at + 1)
    }
}

/// The entry name a record references: its bytes up to the first NUL,
/// which must lie inside the record and not be empty.
pub open spec fn spec_referenced_name(record: Seq<u8>) -> Result<Seq<u8>, DarwinParseError> {
    let start = NAME_REFERENCE + field_i32(record, NAME_REFERENCE as int) as int;
    let end = start + field_u32(record, NAME_REFERENCE + 4);
    if start < 0 {
        Err(DarwinParseError::InvalidNameOffset)
    } else if end > record.len() {
        Err(DarwinParseError::InvalidNameLength)
    } else {
        let bytes = record.subrange(start, end);
        let name = bytes.subrange(0, first_nul(bytes, 0));
        if name.len() == 0 {
            Err(DarwinParseError::EmptyName)
        } else {
            Ok(name)
        }
    }
}

/// The entry a complete record describes. File sizes count only when the
/// file attributes were returned; the device and file number are an
/// identity only when both were returned, and with both timestamps a
/// revision; flags count only when returned; a folder's mount status
/// decides both whether it is a mount point and whether a mount boundary
/// can be enforced.
pub open spec fn spec_record_entry(record: Seq<u8>, name: Seq<u8>) -> DarwinRecord {
    let common = field_u32(record, 4);
    let directory_attributes = field_u32(record, 12);
    let file_attributes = field_u32(record, 16);
    let device = field_i32(record, 36) as u64;
    let kind = spec_object_kind(field_u32(record, 40));
    let is_file = kind == EntryKind::File;
    let is_dir = kind == EntryKind::Directory;
    let flags = field_u32(record, 76);
    let file_id = le64(record, 80) as u64;
    let mount_status: u32 = if is_dir {
        field_u32(record, 88)
    } else {
        0
    };
    let link_count: u32 = if is_file {
        field_u32(record, 88)
    } else {
        0
    };
    let file_valid = file_attributes & REQUESTED_FILE_ATTRIBUTES == REQUESTED_FILE_ATTRIBUTES;
    let identity_valid = common & (ATTR_CMN_DEVID | ATTR_CMN_FILEID) == (ATTR_CMN_DEVID
        | ATTR_CMN_FILEID);
    let revision_valid = common & (ATTR_CMN_DEVID | ATTR_CMN_FILEID | ATTR_CMN_MODTIME
        | ATTR_CMN_CHGTIME) == (ATTR_CMN_DEVID | ATTR_CMN_FILEID | ATTR_CMN_MODTIME
        | ATTR_CMN_CHGTIME);
    let flags_valid = common & ATTR_CMN_FLAGS != 0;
    DarwinRecord {
        name,
        kind,
        measured: MeasuredMetadata {
            logical_bytes: if is_file && file_valid {
                non_negative(field_i64(record, 92))
            } else {
                0
            },
            allocated_bytes: if is_file && file_valid {
                non_negative(field_i64(record, 100))
            } else {
                0
            },
            filesystem_id: if identity_valid {
                Some(device)
            } else {
                None
            },
            file_identity: if is_file && file_valid && identity_valid && link_count > 1 {
                Some(FileIdentity(device, file_id))
            } else {
                None
            },
            scan_revision: if is_file && revision_valid {
                spec_revision_from_unix(
                    device,
                    file_id,
                    field_i64(record, 44) as int,
                    field_i64(record, 52) as int,
                    field_i64(record, 60) as int,
                    field_i64(record, 68) as int,
                )
            } else {
                None
            },
            metadata_error: is_file && !file_valid,
        },
        entry_error: field_u32(record, 24),
        mount_point: is_dir && directory_attributes & ATTR_DIR_MOUNTSTATUS != 0 && mount_status
            & DIR_MNTSTATUS_MNTPOINT != 0,
        dataless: flags_valid && flags & SF_DATALESS != 0,
        firmlink: flags_valid && flags & SF_FIRMLINK != 0,
        can_enforce_mount_boundary: !is_dir || directory_attributes & ATTR_DIR_MOUNTSTATUS != 0,
    }
}

/// A regular file listed with its file attributes, device and file number
/// is known by that device and file number exactly when it has another hard
/// link, so that every path to it measures as the same file and its bytes
/// count once; with a single link it has no identity.
pub proof fn lemma_record_hard_link_identity(record: Seq<u8>)
    requires
        spec_parse_record(record) is Ok,
        field_u32(record, 40) == VREG,
        field_u32(record, 16) & REQUESTED_FILE_ATTRIBUTES == REQUESTED_FILE_ATTRIBUTES,
        field_u32(record, 4) & (ATTR_CMN_DEVID | ATTR_CMN_FILEID) == (ATTR_CMN_DEVID
            | ATTR_CMN_FILEID),
    ensures
        spec_parse_record(record)->Ok_0.measured.file_identity == (if field_u32(record, 88) >= 2 {
            Some(FileIdentity(field_i32(record, 36) as u64, le64(record, 80) as u64))
        } else {
            None
        }),
{
    let name = spec_referenced_name(record)->Ok_0;
    assert(spec_object_kind(field_u32(record, 40)) == EntryKind::File);
    assert(spec_parse_record(record) == Ok::<DarwinRecord, DarwinParseError>(
        spec_record_entry(record, name),
    ));
}

/// One record, or the first reason it cannot be read: the fixed fields
/// through the name reference, the name, the remaining fixed fields, then
/// the folder or file group that the object type implies.
pub open spec fn spec_parse_record(record: Seq<u8>) -> Result<DarwinRecord, DarwinParseError> {
    if record.len() < NAME_REFERENCE + 8 {
        Err(DarwinParseError::Truncated)
    } else {
        match spec_referenced_name(record) {
            Err(error) => Err(error),
            Ok(name) => if record.len() < FIXED_RECORD_BYTES {
                Err(DarwinParseError::Truncated)
            } else {
                let kind = spec_object_kind(field_u32(record, 40));
                if kind == EntryKind::Directory && record.len() < FIXED_RECORD_BYTES + 4 {
                    Err(DarwinParseError::Truncated)
                } else if kind == EntryKind::File && record.len() < FIXED_RECORD_BYTES + 20 {
                    Err(DarwinParseError::Truncated)
                } else {
                    Ok(spec_record_entry(record, name))
                }
            },
        }
    }
}

/// The records of a listing from `start` on, `count` of them, or the first
/// reason one cannot be read. Each record begins with its own length, which
/// must cover that field and stay in the buffer.
pub open spec fn spec_parse_records(buffer: Seq<u8>, start: int, count: nat) -> Result<
    Seq<DarwinRecord>,
    DarwinParseError,
>
    decreases count,
{
    if count == 0 {
        Ok(Seq::empty())
    } else if start + 4 > buffer.len() {
        Err(DarwinParseError::Truncated)
    } else {
        let length = le32(buffer, start);
        if length < 4 || start + length > buffer.len() {
            Err(DarwinParseError::InvalidRecordLength)
        } else {
            match spec_parse_record(buffer.subrange(start, start + length)) {
                Err(error) => Err(error),
                Ok(record) => match spec_parse_records(buffer, start + length, (count - 1) as nat) {
                    Err(error) => Err(error),
                    Ok(rest) => Ok(seq![record] + rest),
                },
            }
        }
    }
}

fn read_i32(record: &[u8], at: usize) -> (value: i32)
    requires
        at + 4 <= record@.len(),
    ensures
        value == field_i32(record@, at as int),
{
    read_le32(record, at) as i32
}

fn read_i64(record: &[u8], at: usize) -> (value: i64)
    requires
        at + 8 <= record@.len(),
    ensures
        value == field_i64(record@, at as int),
{
    read_le64(record, at) as i64
}

fn non_negative_exec(value: i64) -> (r: u64)
    ensures
        r == non_negative(value),
{
    if value < 0 {
        0
    } else {
        value as u64
    }
}

fn object_kind(object_type: u32) -> (kind: EntryKind)
    ensures
        kind == spec_object_kind(object_type),
{
    if object_type == VREG {
        EntryKind::File
    } else if object_type == VDIR {
        EntryKind::Directory
    } else if object_type == VLNK {
        EntryKind::Symlink
    } else {
        EntryKind::Other
    }
}

/// Reads the name a record references.
fn referenced_name(record: &[u8]) -> (r: Result<Vec<u8>, DarwinParseError>)
    requires
        record@.len() >= NAME_REFERENCE + 8,
    ensures
        match spec_referenced_name(record@) {
            Ok(name) => r matches Ok(bytes) && bytes@ == name,
            Err(error) => r == Err::<Vec<u8>, DarwinParseError>(error),
        },
{
    let offset = read_i32(record, NAME_REFERENCE) as i64;
    let length = read_le32(record, NAME_REFERENCE + 4) as u64;
    let start = NAME_REFERENCE as i64 + offset;
    if start < 0 {
        return Err(DarwinParseError::InvalidNameOffset);
    }
    let start = start as u64;
    let end = start + length;
    if end > record.len() as u64 {
        return Err(DarwinParseError::InvalidNameLength);
    }
    let start = start as usize;
    let end = end as usize;
    let ghost bytes = record@.subrange(start as int, end as int);
    let mut stop: usize = start;
    while stop < end && record[stop] != 0
        invariant
            start <= stop <= end <= record@.len(),
            bytes == record@.subrange(start as int, end as int),
            first_nul(bytes, 0) == first_nul(bytes, stop - start),
        decreases end - stop,
    {
        stop = stop + 1;
    }
    let mut name: Vec<u8> = Vec::new();
    let mut index: usize = start;
    while index < stop
        invariant
            start <= index <= stop <= end <= record@.len(),
            name@ == record@.subrange(start as int, index as int),
        decreases stop - index,
    {
        name.push(record[index]);
        index = index + 1;
        proof {
            assert(name@ =~= record@.subrange(start as int, index as int));
        }
    }
    proof {
        assert(bytes.subrange(0, first_nul(bytes, 0)) =~= name@);
    }
    if name.len() == 0 {
        return Err(DarwinParseError::EmptyName);
    }
    Ok(name)
}

/// Parses one record.
#[verifier::rlimit(40)]
pub fn parse_entry(record: &[u8]) -> (r: Result<DarwinEntry, DarwinParseError>)
    ensures
        match spec_parse_record(record@) {
            Ok(view) => r matches Ok(entry) && entry.view_record() == view,
            Err(error) => r == Err::<DarwinEntry, DarwinParseError>(error),
        },
{
    if record.len() < NAME_REFERENCE + 8 {
        return Err(DarwinParseError::Truncated);
    }
    let name = referenced_name(record)?;
    if record.len() < FIXED_RECORD_BYTES {
        return Err(DarwinParseError::Truncated);
    }
    let kind = object_kind(read_le32(record, 40));
    let is_file = kind == EntryKind::File;
    let is_dir = kind == EntryKind::Directory;
    if is_dir && record.len() < FIXED_RECORD_BYTES + 4 {
        return Err(DarwinParseError::Truncated);
    }
    if is_file && record.len() < FIXED_RECORD_BYTES + 20 {
        return Err(DarwinParseError::Truncated);
    }
    let common = read_le32(record, 4);
    let directory_attributes = read_le32(record, 12);
    let file_attributes = read_le32(record, 16);
    let entry_error = read_le32(record, 24);
    let device = read_i32(record, 36) as u64;
    let flags = read_le32(record, 76);
    let file_id = read_le64(record, 80);
    let mount_status: u32 = if is_dir {
        read_le32(record, 88)
    } else {
        0
    };
    let link_count: u32 = if is_file {
        read_le32(record, 88)
    } else {
        0
    };
    let logical: i64 = if is_file {
        read_i64(record, 92)
    } else {
        0
    };
    let allocated: i64 = if is_file {
        read_i64(record, 100)
    } else {
        0
    };
    let file_valid = file_attributes & REQUESTED_FILE_ATTRIBUTES == REQUESTED_FILE_ATTRIBUTES;
    let identity_valid = common & (ATTR_CMN_DEVID | ATTR_CMN_FILEID) == (ATTR_CMN_DEVID
        | ATTR_CMN_FILEID);
    let revision_valid = common & (ATTR_CMN_DEVID | ATTR_CMN_FILEID | ATTR_CMN_MODTIME
        | ATTR_CMN_CHGTIME) == (ATTR_CMN_DEVID | ATTR_CMN_FILEID | ATTR_CMN_MODTIME
        | ATTR_CMN_CHGTIME);
    let flags_valid = common & ATTR_CMN_FLAGS != 0;
    let scan_revision = if is_file && revision_valid {
        ScannedFileRevision::from_unix_parts(
            device,
            file_id,
            read_i64(record, 44),
            read_i64(record, 52),
            read_i64(record, 60),
            read_i64(record, 68),
        )
    } else {
        None
    };
    let entry = DarwinEntry {
        name,
        kind,
        measured: MeasuredMetadata {
            logical_bytes: if is_file && file_valid {
                non_negative_exec(logical)
            } else {
                0
            },
            allocated_bytes: if is_file && file_valid {
                non_negative_exec(allocated)
            } else {
                0
            },
            filesystem_id: if identity_valid {
                Some(device)
            } else {
                None
            },
            file_identity: if is_file && file_valid && identity_valid && link_count > 1 {
                Some(FileIdentity(device, file_id))
            } else {
                None
            },
            scan_revision,
            metadata_error: is_file && !file_valid,
        },
        entry_error,
        mount_point: is_dir && directory_attributes & ATTR_DIR_MOUNTSTATUS != 0 && mount_status
            & DIR_MNTSTATUS_MNTPOINT != 0,
        dataless: flags_valid && flags & SF_DATALESS != 0,
        firmlink: flags_valid && flags & SF_FIRMLINK != 0,
        can_enforce_mount_boundary: !is_dir || directory_attributes & ATTR_DIR_MOUNTSTATUS != 0,
    };
    Ok(entry)
}

/// The record views of parsed entries.
pub open spec fn entry_views(entries: Seq<DarwinEntry>) -> Seq<DarwinRecord> {
    entries.map_values(|entry: DarwinEntry| entry.view_record())
}

/// Parses the records of one listing, `entry_count` of them from the start
/// of the buffer; the first malformed record fails the listing with its
/// reason.
pub fn parse_entries(buffer: &[u8], entry_count: usize) -> (r: Result<Vec<DarwinEntry>, String>)
    ensures
        match spec_parse_records(buffer@, 0, entry_count as nat) {
            Ok(views) => r matches Ok(entries) && entry_views(entries@) == views,
            Err(error) => r matches Err(message) && message@ == error.spec_message(),
        },
{
    let mut entries: Vec<DarwinEntry> = Vec::new();
    let mut start: usize = 0;
    let mut parsed: usize = 0;
    while parsed < entry_count
        invariant
            0 <= parsed <= entry_count,
            start <= buffer@.len(),
            spec_parse_records(buffer@, 0, entry_count as nat) == match spec_parse_records(
                buffer@,
                start as int,
                (entry_count - parsed) as nat,
            ) {
                Ok(rest) => Ok(entry_views(entries@) + rest),
                Err(error) => Err::<Seq<DarwinRecord>, DarwinParseError>(error),
            },
        decreases entry_count - parsed,
    {
        if buffer.len() < 4 || start > buffer.len() - 4 {
            return Err(DarwinParseError::Truncated.message());
        }
        let length = read_le32(buffer, start) as usize;
        if length < 4 || length > buffer.len() - start {
            return Err(DarwinParseError::InvalidRecordLength.message());
        }
        let record = slice_range(buffer, start, start + length);
        let entry = match parse_entry(record) {
            Ok(entry) => entry,
            Err(error) => {
                return Err(error.message());
            },
        };
        let ghost before = entries@;
        entries.push(entry);
        proof {
            assert(entry_views(entries@) =~= entry_views(before).push(entry.view_record()));
            let remaining = (entry_count - parsed) as nat;
            let next = spec_parse_records(buffer@, (start + length) as int, (remaining - 1) as nat);
            if let Ok(rest) = next {
                assert(entry_views(before) + (seq![entry.view_record()] + rest) =~= entry_views(
                    entries@,
                ) + rest);
            }
        }
        start = start + length;
        parsed = parsed + 1;
    }
    proof {
        assert(entry_views(entries@) + Seq::<DarwinRecord>::empty() =~= entry_views(entries@));
    }
    Ok(entries)
}

fn slice_range(input: &[u8], start: usize, end: usize) -> (part: &[u8])
    requires
        start <= end <= input@.len(),
    ensures
        part@ == input@.subrange(start as int, end as int),
{
    let (head, _) = input.split_at(end);
    let (_, part) = head.split_at(start);
    part
}

/// The number of regular files among some entries.
pub open spec fn file_entries(entries: Seq<DarwinEntry>) -> nat
    decreases entries.len(),
{
    if entries.len() == 0 {
        0
    } else {
        file_entries(entries.drop_last()) + if entries.last().kind == EntryKind::File {
            1nat
        } else {
            0nat
        }
    }
}

/// Whether a listing holds at least 256 regular files.
pub fn contains_large_file_batch(entries: &Vec<DarwinEntry>) -> (large: bool)
    ensures
        large == (file_entries(entries@) >= LARGE_DIRECTORY_FILE_COUNT),
{
    let mut files: usize = 0;
    let mut index: usize = 0;
    while index < entries.len()
        invariant
            0 <= index <= entries@.len(),
            files == file_entries(entries@.take(index as int)),
            files < LARGE_DIRECTORY_FILE_COUNT,
        decreases entries@.len() - index,
    {
        proof {
            assert(entries@.take(index as int + 1).drop_last() =~= entries@.take(index as int));
        }
        if entries[index].kind == EntryKind::File {
            files = files + 1;
        }
        index = index + 1;
        if files >= LARGE_DIRECTORY_FILE_COUNT {
            proof {
                lemma_file_entries_prefix(entries@, index as int);
            }
            return true;
        }
    }
    proof {
        assert(entries@.take(index as int) =~= entries@);
    }
    false
}

proof fn lemma_file_entries_prefix(entries: Seq<DarwinEntry>, at: int)
    requires
        0 <= at <= entries.len(),
    ensures
        file_entries(entries.take(at)) <= file_entries(entries),
    decreases entries.len() - at,
{
    if at < entries.len() {
        lemma_file_entries_prefix(entries, at + 1);
        assert(entries.take(at + 1).drop_last() =~= entries.take(at));
    } else {
        assert(entries.take(at) =~= entries);
    }
}

/// The names that stand for the folder itself and its parent.
pub open spec fn is_dot_name(name: Seq<u8>) -> bool {
    name == seq![46u8] || name == seq![46u8, 46u8]
}

fn dot_name(name: &Vec<u8>) -> (dot: bool)
    ensures
        dot == is_dot_name(name@),
{
    let dot = (name.len() == 1 && name[0] == 46u8) || (name.len() == 2 && name[0] == 46u8
        && name[1] == 46u8);
    proof {
        if name.len() == 1 && name[0] == 46u8 {
            assert(name@ =~= seq![46u8]);
        }
        if name.len() == 2 && name[0] == 46u8 && name[1] == 46u8 {
            assert(name@ =~= seq![46u8, 46u8]);
        }
    }
    dot
}

/// The counters after a listed entry's own skips, once it is known to be
/// neither cloud-only nor failed: a measurement failure, then for a folder a
/// mount point, or a firmlink or folder whose mount boundary cannot be
/// enforced.
pub open spec fn darwin_counted(before: ScanCounters, entry: DarwinEntry) -> ScanCounters {
    let is_dir = entry.kind == EntryKind::Directory;
    let counted = ScanCounters {
        skipped_entries: bump(before.skipped_entries, entry.measured.metadata_error),
        ..before
    };
    ScanCounters {
        skipped_filesystems: bump(counted.skipped_filesystems, is_dir && entry.mount_point),
        skipped_entries: bump(
            counted.skipped_entries,
            is_dir && !entry.mount_point && (entry.firmlink || !entry.can_enforce_mount_boundary),
        ),
        ..counted
    }
}

/// Ingests one listed entry under its folder. A cloud-only entry, or one
/// evicted while it was read, is counted as a cloud entry; an entry the
/// listing failed on is counted as skipped; the folder's own names are
/// ignored after their measurement failure is counted; a folder is read
/// unless it is a mount point, a firmlink, or its mount status is unknown.
#[verifier::rlimit(40)]
pub fn ingest_darwin(tree: &mut TreeBuilder, parent: usize, entry: DarwinEntry) -> (step: NativeStep)
    requires
        old(tree).wf(),
        parent < old(tree).spec_nodes().len(),
        old(tree).spec_nodes().len() < usize::MAX,
    ensures
        final(tree).wf(),
        final(tree).spec_ancestors() == old(tree).spec_ancestors(),
        final(tree).spec_root_filesystem() == old(tree).spec_root_filesystem(),
        entry.dataless || entry.entry_error == DARWIN_EDEADLK ==> {
            &&& step == NativeStep::Cloud
            &&& final(tree).spec_counters() == (ScanCounters {
                skipped_cloud_entries: bump(old(tree).spec_counters().skipped_cloud_entries, true),
                ..old(tree).spec_counters()
            })
            &&& final(tree).spec_nodes() == old(tree).spec_nodes()
            &&& final(tree).spec_partial() == old(tree).spec_partial()
        },
        !(entry.dataless || entry.entry_error == DARWIN_EDEADLK) && entry.entry_error != 0 ==> {
            &&& step == NativeStep::Skipped
            &&& final(tree).spec_counters() == (ScanCounters {
                skipped_entries: bump(old(tree).spec_counters().skipped_entries, true),
                ..old(tree).spec_counters()
            })
            &&& final(tree).spec_nodes() == old(tree).spec_nodes()
            &&& final(tree).spec_partial() == old(tree).spec_partial()
        },
        !entry.dataless && entry.entry_error == 0 && is_dot_name(entry.name@) ==> {
            &&& step == NativeStep::Ignored
            &&& final(tree).spec_counters() == (ScanCounters {
                skipped_entries: bump(
                    old(tree).spec_counters().skipped_entries,
                    entry.measured.metadata_error,
                ),
                ..old(tree).spec_counters()
            })
            &&& final(tree).spec_nodes() == old(tree).spec_nodes()
            &&& final(tree).spec_partial() == old(tree).spec_partial()
        },
        !entry.dataless && entry.entry_error == 0 && !is_dot_name(entry.name@) ==> {
            let n = old(tree).spec_nodes().len() as usize;
            let is_dir = entry.kind == EntryKind::Directory;
            &&& step == (if is_dir && !entry.mount_point && !entry.firmlink
                && entry.can_enforce_mount_boundary {
                NativeStep::Descend(n)
            } else {
                NativeStep::Added(n)
            })
            &&& exists|r: (usize, Option<usize>)|
                r.0 == n && #[trigger] node_pushed(
                    darwin_counted(old(tree).spec_counters(), entry),
                    final(tree).spec_counters(),
                    old(tree).spec_nodes(),
                    final(tree).spec_nodes(),
                    parent,
                    entry.name@,
                    entry.kind,
                    entry.measured,
                    r,
                )
            &&& partial_observed(
                old(tree).spec_partial(),
                final(tree).spec_partial(),
                final(tree).spec_nodes(),
                n,
            )
        },
{
    if entry.dataless || entry.entry_error == DARWIN_EDEADLK {
        tree.skip_cloud_entry();
        return NativeStep::Cloud;
    }
    if entry.entry_error != 0 {
        tree.skip_unreadable();
        return NativeStep::Skipped;
    }
    if entry.measured.metadata_error {
        tree.skip_unreadable();
    }
    if dot_name(&entry.name) {
        return NativeStep::Ignored;
    }
    let is_dir = entry.kind == EntryKind::Directory;
    let descend = is_dir && !entry.mount_point && !entry.firmlink
        && entry.can_enforce_mount_boundary;
    if is_dir && entry.mount_point {
        tree.skip_other_filesystem();
    } else if is_dir && (entry.firmlink || !entry.can_enforce_mount_boundary) {
        tree.skip_unreadable();
    }
    assert(tree.spec_counters() == darwin_counted(old(tree).spec_counters(), entry));
    let node_id = tree.add_child(parent, entry.name, entry.kind, entry.measured);
    if descend {
        NativeStep::Descend(node_id)
    } else {
        NativeStep::Added(node_id)
    }
}

/// Why a worker could not read a folder.
#[derive(Debug)]
pub enum DirectoryReadFailure {
    /// Reading would have downloaded content that is only in the cloud.
    MaterializationBlocked,
    /// Any other error of the listing call.
    Io,
    /// The listing's records could not be parsed.
    Parse(String),
    /// The scan was cancelled while the folder was read.
    Cancelled,
}

/// What a worker's failed read does to the scan: a folder whose content is
/// only in the cloud is counted as a cloud entry, any other unreadable folder
/// as skipped, and the scan goes on; a malformed listing stops it with the
/// parser's message, a cancellation with "Scan cancelled.", and the tree is
/// left as it was.
pub fn read_failure_step(tree: &mut TreeBuilder, failure: DirectoryReadFailure) -> (r: Result<(), String>)
    requires
        old(tree).wf(),
    ensures
        final(tree).wf(),
        final(tree).spec_nodes() == old(tree).spec_nodes(),
        final(tree).spec_ancestors() == old(tree).spec_ancestors(),
        final(tree).spec_partial() == old(tree).spec_partial(),
        final(tree).spec_root_filesystem() == old(tree).spec_root_filesystem(),
        match failure {
            DirectoryReadFailure::MaterializationBlocked => r is Ok && final(tree).spec_counters()
                == (ScanCounters {
                skipped_cloud_entries: bump(old(tree).spec_counters().skipped_cloud_entries, true),
                ..old(tree).spec_counters()
            }),
            DirectoryReadFailure::Io => r is Ok && final(tree).spec_counters() == (ScanCounters {
                skipped_entries: bump(old(tree).spec_counters().skipped_entries, true),
                ..old(tree).spec_counters()
            }),
            DirectoryReadFailure::Parse(message) => (r matches Err(e) && e@ == message@)
                && final(tree).spec_counters() == old(tree).spec_counters(),
            DirectoryReadFailure::Cancelled => (r matches Err(e) && e@ == "Scan cancelled."@)
                && final(tree).spec_counters() == old(tree).spec_counters(),
        },
{
    match failure {
        DirectoryReadFailure::MaterializationBlocked => {
            tree.skip_cloud_entry();
            Ok(())
        },
        DirectoryReadFailure::Io => {
            tree.skip_unreadable();
            Ok(())
        },
        DirectoryReadFailure::Parse(message) => Err(message),
        DirectoryReadFailure::Cancelled => Err("Scan cancelled.".to_string()),
    }
}

} // verus!

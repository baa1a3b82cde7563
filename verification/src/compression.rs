//! Read-only transparent-compression capability and state reports.
//! No writer exists: a capability never claims one.
use vstd::prelude::*;
use vstd::string::{StringExecFns, StrSliceExecFns};
use crate::text::digit_text;
use crate::statx::{S_IFMT, S_IFREG};
use crate::types::EntryKind;
use crate::winfs::FILE_ATTRIBUTE_REPARSE_POINT;

verus! {

/// What the volume allows Cepa to do with transparent compression.
#[derive(Clone, Copy, Debug, PartialEq, Eq, Structural)]
pub enum CompressionCapabilityStatus {
    InspectOnly,
    Unsupported,
    Unavailable,
}

/// Read-only information about transparent compression on a volume. The
/// volume's own support is kept apart from Cepa's ability to change files,
/// which does not exist yet.
#[derive(Clone, Debug)]
pub struct CompressionCapability {
    pub status: CompressionCapabilityStatus,
    pub filesystem: String,
    pub volume_supports_transparent_compression: bool,
    pub writer_available: bool,
    pub algorithms: Vec<String>,
    pub detail: String,
}

/// The compression state a filesystem reports for one item.
#[derive(Clone, Copy, Debug, PartialEq, Eq, Structural)]
pub enum CompressionStateKind {
    Compressed,
    NotCompressed,
    Enabled,
    Disabled,
    Inherited,
    NotApplicable,
    Unsupported,
    Unavailable,
}

/// Whether a state describes the data already written or future writes.
#[derive(Clone, Copy, Debug, PartialEq, Eq, Structural)]
pub enum CompressionStateScope {
    ExistingData,
    FutureWrites,
    NoScope,
}

/// The compression state of one scanned item.
#[derive(Clone, Debug)]
pub struct CompressionState {
    pub state: CompressionStateKind,
    pub scope: CompressionStateScope,
    pub format: Option<String>,
    pub detail: String,
}

impl CompressionState {
    /// A state and its scope agree: a compressed or uncompressed state
    /// describes the data already written, a policy state (enabled, disabled,
    /// inherited) describes future writes, any other state has no scope, and
    /// only compressed data names a format.
    pub open spec fn well_formed(self) -> bool {
        &&& (self.state == CompressionStateKind::Compressed || self.state
            == CompressionStateKind::NotCompressed) <==> self.scope
            == CompressionStateScope::ExistingData
        &&& (self.state == CompressionStateKind::Enabled || self.state == CompressionStateKind::Disabled
            || self.state == CompressionStateKind::Inherited) <==> self.scope
            == CompressionStateScope::FutureWrites
        &&& self.format is Some ==> self.state == CompressionStateKind::Compressed
    }

    /// The state of data already on disk.
    pub fn existing_data(compressed: bool, format: Option<&str>, detail: String) -> (state: Self)
        ensures
            state.state == (if compressed {
                CompressionStateKind::Compressed
            } else {
                CompressionStateKind::NotCompressed
            }),
            state.scope == CompressionStateScope::ExistingData,
            match (state.format, format) {
                (Some(a), Some(b)) => a@ == b@,
                (None, None) => true,
                _ => false,
            },
            state.detail == detail,
            state.well_formed() <==> (format is Some ==> compressed),
    {
        CompressionState {
            state: if compressed {
                CompressionStateKind::Compressed
            } else {
                CompressionStateKind::NotCompressed
            },
            scope: CompressionStateScope::ExistingData,
            format: match format {
                Some(text) => Some(text.to_string()),
                None => None,
            },
            detail,
        }
    }

    /// A policy that governs future writes.
    pub fn future_writes(state: CompressionStateKind, detail: String) -> (result: Self)
        ensures
            result.state == state,
            result.scope == CompressionStateScope::FutureWrites,
            result.format is None,
            result.detail == detail,
            result.well_formed() <==> (state == CompressionStateKind::Enabled || state
                == CompressionStateKind::Disabled || state == CompressionStateKind::Inherited),
    {
        CompressionState { state, scope: CompressionStateScope::FutureWrites, format: None, detail }
    }

    /// Compression does not apply to this item.
    pub fn not_applicable(detail: String) -> (state: Self)
        ensures
            state.state == CompressionStateKind::NotApplicable,
            state.scope == CompressionStateScope::NoScope,
            state.format is None,
            state.detail == detail,
            state.well_formed(),
    {
        CompressionState {
            state: CompressionStateKind::NotApplicable,
            scope: CompressionStateScope::NoScope,
            format: None,
            detail,
        }
    }

    /// The filesystem cannot report a state.
    pub fn unsupported(detail: String) -> (state: Self)
        ensures
            state.state == CompressionStateKind::Unsupported,
            state.scope == CompressionStateScope::NoScope,
            state.format is None,
            state.detail == detail,
            state.well_formed(),
    {
        CompressionState {
            state: CompressionStateKind::Unsupported,
            scope: CompressionStateScope::NoScope,
            format: None,
            detail,
        }
    }

    /// The state could not be read.
    pub fn unavailable(detail: String) -> (state: Self)
        ensures
            state.state == CompressionStateKind::Unavailable,
            state.scope == CompressionStateScope::NoScope,
            state.format is None,
            state.detail == detail,
            state.well_formed(),
    {
        CompressionState {
            state: CompressionStateKind::Unavailable,
            scope: CompressionStateScope::NoScope,
            format: None,
            detail,
        }
    }
}

impl CompressionCapability {
    /// A volume that supports transparent compression, which Cepa can only
    /// inspect.
    pub fn inspect_only(filesystem: String, algorithms: Vec<String>, detail: String) -> (capability:
        Self)
        ensures
            capability.status == CompressionCapabilityStatus::InspectOnly,
            capability.filesystem == filesystem,
            capability.volume_supports_transparent_compression,
            !capability.writer_available,
            capability.algorithms == algorithms,
            capability.detail == detail,
    {
        CompressionCapability {
            status: CompressionCapabilityStatus::InspectOnly,
            filesystem,
            volume_supports_transparent_compression: true,
            writer_available: false,
            algorithms,
            detail,
        }
    }

    /// A volume without transparent compression.
    pub fn unsupported(filesystem: String, detail: String) -> (capability: Self)
        ensures
            capability.status == CompressionCapabilityStatus::Unsupported,
            capability.filesystem == filesystem,
            !capability.volume_supports_transparent_compression,
            !capability.writer_available,
            capability.algorithms@.len() == 0,
            capability.detail == detail,
    {
        CompressionCapability {
            status: CompressionCapabilityStatus::Unsupported,
            filesystem,
            volume_supports_transparent_compression: false,
            writer_available: false,
            algorithms: Vec::new(),
            detail,
        }
    }

    /// A volume whose capability could not be read.
    pub fn unavailable(filesystem: String, detail: String) -> (capability: Self)
        ensures
            capability.status == CompressionCapabilityStatus::Unavailable,
            capability.filesystem == filesystem,
            !capability.volume_supports_transparent_compression,
            !capability.writer_available,
            capability.algorithms@.len() == 0,
            capability.detail == detail,
    {
        CompressionCapability {
            status: CompressionCapabilityStatus::Unavailable,
            filesystem,
            volume_supports_transparent_compression: false,
            writer_available: false,
            algorithms: Vec::new(),
            detail,
        }
    }
}

/// Inspects an item: only a regular file reaches the platform inspection,
/// which `inspect_file` performs; anything else is refused before it, and a
/// link is never followed.
pub fn inspect<F: FnOnce() -> CompressionState>(kind: EntryKind, inspect_file: F) -> (state:
    CompressionState)
    requires
        kind == EntryKind::File ==> call_requires(inspect_file, ()),
        kind == EntryKind::File ==> forall|s: CompressionState|
            call_ensures(inspect_file, (), s) ==> #[trigger] s.well_formed(),
    ensures
        state.well_formed(),
        kind == EntryKind::File ==> call_ensures(inspect_file, (), state),
        kind == EntryKind::Directory ==> state.state == CompressionStateKind::NotApplicable
            && state.scope == CompressionStateScope::NoScope && state.format is None && state.detail@
            == "Folder compression defaults are not part of the current read-only file inspector."@,
        kind == EntryKind::Symlink ==> state.state == CompressionStateKind::NotApplicable
            && state.scope == CompressionStateScope::NoScope && state.format is None && state.detail@
            == "Symbolic links and reparse points are never followed for compression inspection."@,
        kind == EntryKind::Other ==> state.state == CompressionStateKind::NotApplicable
            && state.scope == CompressionStateScope::NoScope && state.format is None && state.detail@
            == "This filesystem entry is not a regular file."@,
{
    match kind {
        EntryKind::File => inspect_file(),
        EntryKind::Directory => CompressionState::not_applicable(
            "Folder compression defaults are not part of the current read-only file inspector.".to_string(),
        ),
        EntryKind::Symlink => CompressionState::not_applicable(
            "Symbolic links and reparse points are never followed for compression inspection.".to_string(),
        ),
        EntryKind::Other => CompressionState::not_applicable(
            "This filesystem entry is not a regular file.".to_string(),
        ),
    }
}

/// The superblock magic of Btrfs.
pub const BTRFS_SUPER_MAGIC: i64 = 0x9123683e;
/// The Btrfs inode flag that enables compression of new writes.
pub const FS_COMPR_FL: i32 = 0x4;
/// The Btrfs inode flag that disables compression of new writes.
pub const FS_NOCOMP_FL: i32 = 0x400;

/// The state of a Btrfs file from its inode flags: the compression flag
/// first, then the no-compression flag; these govern future writes only.
pub fn btrfs_state_from_flags(flags: i32) -> (state: CompressionState)
    ensures
        state.well_formed(),
        state.scope == CompressionStateScope::FutureWrites,
        state.format is None,
        state.state == (if flags & FS_COMPR_FL != 0 {
            CompressionStateKind::Enabled
        } else if flags & FS_NOCOMP_FL != 0 {
            CompressionStateKind::Disabled
        } else {
            CompressionStateKind::Inherited
        }),
{
    if flags & FS_COMPR_FL != 0 {
        CompressionState::future_writes(
            CompressionStateKind::Enabled,
            "Btrfs has the compression inode flag set. This governs newly written data and does not prove that existing extents are compressed.".to_string(),
        )
    } else if flags & FS_NOCOMP_FL != 0 {
        CompressionState::future_writes(
            CompressionStateKind::Disabled,
            "Btrfs has the no-compression inode flag set for future writes.".to_string(),
        )
    } else {
        CompressionState::future_writes(
            CompressionStateKind::Inherited,
            "This file has no explicit Btrfs compression flag and follows the applicable mount or parent policy for future writes.".to_string(),
        )
    }
}

/// Whether a Linux file's compression state can be read, from the type of
/// its filesystem: only Btrfs keeps per-file flags; anywhere else the answer
/// is that inspection is unsupported.
pub fn linux_state_support(filesystem_type: i64) -> (unsupported: Option<CompressionState>)
    ensures
        unsupported matches Some(state) ==> state.well_formed(),
        filesystem_type == BTRFS_SUPER_MAGIC <==> unsupported is None,
        unsupported matches Some(state) ==> state.state == CompressionStateKind::Unsupported
            && state.scope == CompressionStateScope::NoScope && state.format is None
            && state.detail@
            == "Per-file compression-state inspection is currently implemented only for Btrfs on Linux."@,
{
    if filesystem_type == BTRFS_SUPER_MAGIC {
        None
    } else {
        Some(
            CompressionState::unsupported(
                "Per-file compression-state inspection is currently implemented only for Btrfs on Linux.".to_string(),
            ),
        )
    }
}

/// The lowercase hexadecimal digits of a number.
pub open spec fn hex_digits(n: nat) -> Seq<char>
    decreases n,
{
    if n < 16 {
        seq![hex_digit(n)]
    } else {
        hex_digits(n / 16).push(hex_digit(n % 16))
    }
}

/// One lowercase hexadecimal digit.
pub open spec fn hex_digit(d: nat) -> char {
    if d < 10 {
        (48 + d) as char
    } else {
        (87 + d) as char
    }
}

/// Writes a number in lowercase hexadecimal.
pub fn hex_text(n: u64) -> (text: String)
    ensures
        text@ == hex_digits(n as nat),
    decreases n,
{
    if n < 16 {
        String::from_str(digit_text(n))
    } else {
        let mut text = hex_text(n / 16);
        text.append(digit_text(n % 16));
        text
    }
}

/// A number in lowercase hexadecimal behind the `0x` prefix.
fn format_hex(value: u64) -> (text: String)
    ensures
        text@ == "0x"@ + hex_digits(value as nat),
{
    let mut text = "0x".to_string();
    text.append(hex_text(value).as_str());
    text
}

/// The capability of a Linux volume from its filesystem type: Btrfs can be
/// inspected and offers zlib, lzo and zstd; any other filesystem is named by
/// its type in hexadecimal and is unsupported.
pub fn linux_capability(filesystem_type: i64) -> (capability: CompressionCapability)
    ensures
        !capability.writer_available,
        filesystem_type == BTRFS_SUPER_MAGIC ==> capability.status
            == CompressionCapabilityStatus::InspectOnly && capability.filesystem@ == "btrfs"@
            && capability.algorithms@.len() == 3 && capability.algorithms@[0]@ == "zlib"@
            && capability.algorithms@[1]@ == "lzo"@ && capability.algorithms@[2]@ == "zstd"@,
        filesystem_type == BTRFS_SUPER_MAGIC ==> capability.detail@
            == "Btrfs supports transparent compression. Cepa can only report the volume capability; per-file inspection and compression changes are not implemented."@,
        filesystem_type != BTRFS_SUPER_MAGIC ==> capability.status
            == CompressionCapabilityStatus::Unsupported && capability.filesystem@ == "0x"@
            + hex_digits((filesystem_type as u64) as nat) && capability.algorithms@.len() == 0
            && capability.detail@
            == "Cepa's read-only compression protocol currently recognizes Btrfs on Linux."@,
        capability.volume_supports_transparent_compression == (capability.status
            == CompressionCapabilityStatus::InspectOnly),
{
    if filesystem_type == BTRFS_SUPER_MAGIC {
        let mut algorithms: Vec<String> = Vec::new();
        algorithms.push("zlib".to_string());
        algorithms.push("lzo".to_string());
        algorithms.push("zstd".to_string());
        CompressionCapability::inspect_only(
            "btrfs".to_string(),
            algorithms,
            "Btrfs supports transparent compression. Cepa can only report the volume capability; per-file inspection and compression changes are not implemented.".to_string(),
        )
    } else {
        CompressionCapability::unsupported(
            format_hex(filesystem_type as u64),
            "Cepa's read-only compression protocol currently recognizes Btrfs on Linux.".to_string(),
        )
    }
}

/// `UF_COMPRESSED`: macOS keeps the file's data compressed with decmpfs.
pub const UF_COMPRESSED: u32 = 0x20;
/// `FILE_FILE_COMPRESSION`: a Windows volume compresses files one by one.
pub const FILE_FILE_COMPRESSION: u32 = 0x10;
/// `COMPRESSION_FORMAT_NONE`.
pub const COMPRESSION_FORMAT_NONE: u16 = 0;
/// `COMPRESSION_FORMAT_LZNT1`.
pub const COMPRESSION_FORMAT_LZNT1: u16 = 2;

/// The state of a macOS item from the mode and flags that `lstat` reports:
/// only a regular file is read, compressed exactly when its flags carry
/// `UF_COMPRESSED`.
pub fn macos_state_from_stat(mode: u16, flags: u32) -> (state: CompressionState)
    ensures
        state.well_formed(),
        mode & S_IFMT != S_IFREG ==> state.state == CompressionStateKind::Unavailable
            && state.scope == CompressionStateScope::NoScope && state.format is None
            && state.detail@
            == "The scanned item is no longer a regular file and was not followed."@,
        mode & S_IFMT == S_IFREG && flags & UF_COMPRESSED != 0 ==> state.state
            == CompressionStateKind::Compressed && state.scope
            == CompressionStateScope::ExistingData && (state.format matches Some(f) && f@
            == "decmpfs"@) && state.detail@
            == "macOS reports UF_COMPRESSED for this file. Cepa reads this metadata but does not modify it."@,
        mode & S_IFMT == S_IFREG && flags & UF_COMPRESSED == 0 ==> state.state
            == CompressionStateKind::NotCompressed && state.scope
            == CompressionStateScope::ExistingData && state.format is None && state.detail@
            == "macOS does not report UF_COMPRESSED for this file."@,
{
    if mode & S_IFMT != S_IFREG {
        return CompressionState::unavailable(
            "The scanned item is no longer a regular file and was not followed.".to_string(),
        );
    }
    if flags & UF_COMPRESSED != 0 {
        CompressionState::existing_data(
            true,
            Some("decmpfs"),
            "macOS reports UF_COMPRESSED for this file. Cepa reads this metadata but does not modify it.".to_string(),
        )
    } else {
        CompressionState::existing_data(
            false,
            None,
            "macOS does not report UF_COMPRESSED for this file.".to_string(),
        )
    }
}

/// `VOL_CAP_FMT_DECMPFS_COMPRESSION`: the volume supports decmpfs.
pub const VOL_CAP_FMT_DECMPFS_COMPRESSION: u32 = 0x10000;

/// Whether a macOS volume reports decmpfs support, from the length of the
/// capability response and its valid and capability words for formats: the
/// bit must be both valid and set; a response shorter than the fixed
/// structure is an error.
pub fn decmpfs_reported(
    response_length: u32,
    expected_length: u32,
    valid_formats: u32,
    format_capabilities: u32,
) -> (reported: Result<bool, String>)
    ensures
        response_length < expected_length ==> (reported matches Err(message) && message@
            == "the capability response was shorter than expected"@),
        response_length >= expected_length ==> reported == Ok::<bool, String>(
            valid_formats & VOL_CAP_FMT_DECMPFS_COMPRESSION != 0 && format_capabilities
                & VOL_CAP_FMT_DECMPFS_COMPRESSION != 0,
        ),
{
    if response_length < expected_length {
        return Err("the capability response was shorter than expected".to_string());
    }
    Ok(valid_formats & VOL_CAP_FMT_DECMPFS_COMPRESSION != 0 && format_capabilities
        & VOL_CAP_FMT_DECMPFS_COMPRESSION != 0)
}

/// The capability of a macOS volume from whether it reports decmpfs
/// support, or the text of the query's failure.
pub fn macos_capability(filesystem: String, decmpfs: Result<bool, String>) -> (capability:
    CompressionCapability)
    ensures
        capability.filesystem == filesystem,
        !capability.writer_available,
        capability.algorithms@.len() == 0,
        match decmpfs {
            Ok(true) => capability.status == CompressionCapabilityStatus::InspectOnly
                && capability.detail@
                == "This volume supports transparent decmpfs decompression. Cepa can only report the capability; compression changes are not implemented."@,
            Ok(false) => capability.status == CompressionCapabilityStatus::Unsupported
                && capability.detail@
                == "This volume does not report transparent decmpfs compression support."@,
            Err(error) => capability.status == CompressionCapabilityStatus::Unavailable
                && capability.detail@ == "The volume capability query failed: "@ + error@ + "."@,
        },
        capability.volume_supports_transparent_compression == (capability.status
            == CompressionCapabilityStatus::InspectOnly),
{
    match decmpfs {
        Ok(true) => CompressionCapability::inspect_only(
            filesystem,
            Vec::new(),
            "This volume supports transparent decmpfs decompression. Cepa can only report the capability; compression changes are not implemented.".to_string(),
        ),
        Ok(false) => CompressionCapability::unsupported(
            filesystem,
            "This volume does not report transparent decmpfs compression support.".to_string(),
        ),
        Err(error) => {
            let mut detail = "The volume capability query failed: ".to_string();
            detail.append(error.as_str());
            detail.append(".");
            CompressionCapability::unavailable(filesystem, detail)
        },
    }
}

/// What `String::from_utf16_lossy` returns for a list of UTF-16 units.
pub uninterp spec fn utf16_lossy(units: Seq<u16>) -> Seq<char>;

/// Calls `String::from_utf16_lossy`, which decodes UTF-16 and replaces each
/// unpaired surrogate with U+FFFD; the result is named, not restated.
#[verifier::external_body]
fn lossy_utf16_text(units: &[u16]) -> (text: String)
    ensures
        text@ == utf16_lossy(units@),
{
    String::from_utf16_lossy(units)
}

/// The units of a NUL-terminated buffer before its first NUL, or all of
/// them when there is none.
pub open spec fn before_first_nul(units: Seq<u16>) -> Seq<u16>
    decreases units.len(),
{
    if units.len() == 0 || units[0] == 0 {
        Seq::empty()
    } else {
        seq![units[0]] + before_first_nul(units.skip(1))
    }
}

/// The name of a Windows filesystem as the volume reports it in a
/// NUL-terminated buffer, `unknown` when it decodes to nothing.
pub open spec fn windows_filesystem_name(units: Seq<u16>) -> Seq<char> {
    let name = utf16_lossy(before_first_nul(units));
    if name.len() == 0 {
        "unknown"@
    } else {
        name
    }
}

pub(crate) fn units_before_nul(units: &Vec<u16>) -> (prefix: Vec<u16>)
    ensures
        prefix@ == before_first_nul(units@),
{
    let mut prefix: Vec<u16> = Vec::new();
    let mut end: usize = 0;
    proof {
        assert(units@.skip(0) =~= units@);
        assert(units@.take(0) =~= Seq::<u16>::empty());
        assert(Seq::<u16>::empty() + before_first_nul(units@) =~= before_first_nul(units@));
    }
    while end < units.len() && units[end] != 0
        invariant
            0 <= end <= units@.len(),
            prefix@ == units@.take(end as int),
            units@.take(end as int) + before_first_nul(units@.skip(end as int)) == before_first_nul(
                units@,
            ),
        decreases units@.len() - end,
    {
        proof {
            let rest = units@.skip(end as int);
            assert(rest.skip(1) =~= units@.skip(end + 1));
            assert(units@.take(end + 1) =~= units@.take(end as int) + seq![rest[0]]);
        }
        prefix.push(units[end]);
        end = end + 1;
    }
    proof {
        assert(before_first_nul(units@.skip(end as int)) =~= Seq::<u16>::empty());
        assert(units@.take(end as int) + Seq::<u16>::empty() =~= units@.take(end as int));
    }
    prefix
}

/// The capability of a Windows volume from the filesystem name buffer and
/// the flags that `GetVolumeInformationW` reports: per-file compression
/// means LZNT1 can be inspected.
pub fn windows_capability(name_units: &Vec<u16>, flags: u32) -> (capability: CompressionCapability)
    ensures
        capability.filesystem@ == windows_filesystem_name(name_units@),
        !capability.writer_available,
        flags & FILE_FILE_COMPRESSION != 0 ==> capability.status
            == CompressionCapabilityStatus::InspectOnly && capability.algorithms@.len() == 1
            && capability.algorithms@[0]@ == "lznt1"@ && capability.detail@
            == "This volume supports per-file transparent compression. Cepa can only report the capability; compression changes are not implemented."@,
        flags & FILE_FILE_COMPRESSION == 0 ==> capability.status
            == CompressionCapabilityStatus::Unsupported && capability.algorithms@.len() == 0
            && capability.detail@
            == "This volume does not report per-file transparent compression support."@,
        capability.volume_supports_transparent_compression == (capability.status
            == CompressionCapabilityStatus::InspectOnly),
{
    let prefix = units_before_nul(name_units);
    let decoded = lossy_utf16_text(prefix.as_slice());
    let filesystem = if decoded.as_str().is_empty() {
        proof {
            reveal_strlit("unknown");
        }
        "unknown".to_string()
    } else {
        decoded
    };
    if flags & FILE_FILE_COMPRESSION != 0 {
        let mut algorithms: Vec<String> = Vec::new();
        algorithms.push("lznt1".to_string());
        CompressionCapability::inspect_only(
            filesystem,
            algorithms,
            "This volume supports per-file transparent compression. Cepa can only report the capability; compression changes are not implemented.".to_string(),
        )
    } else {
        CompressionCapability::unsupported(
            filesystem,
            "This volume does not report per-file transparent compression support.".to_string(),
        )
    }
}

/// A Windows item whose attributes mark a reparse point is never opened
/// for its compression format; any other item is asked for it.
pub fn windows_reparse_state(attributes: u32) -> (state: Option<CompressionState>)
    ensures
        state matches Some(s) ==> s.well_formed(),
        attributes & FILE_ATTRIBUTE_REPARSE_POINT != 0 <==> state is Some,
        state matches Some(s) ==> s.state == CompressionStateKind::NotApplicable && s.scope
            == CompressionStateScope::NoScope && s.detail@
            == "Reparse points are never followed for compression inspection."@,
{
    if attributes & FILE_ATTRIBUTE_REPARSE_POINT != 0 {
        Some(
            CompressionState::not_applicable(
                "Reparse points are never followed for compression inspection.".to_string(),
            ),
        )
    } else {
        None
    }
}

/// `digits` with zeros in front up to `width` characters.
pub open spec fn zero_padded(digits: Seq<char>, width: nat) -> Seq<char> {
    if digits.len() >= width {
        digits
    } else {
        Seq::new((width - digits.len()) as nat, |i: int| '0') + digits
    }
}

/// Names a compression format by its code, in lowercase hexadecimal padded
/// with zeros to four digits.
fn format_code_name(format: u16) -> (name: String)
    ensures
        name@ == "format-0x"@ + zero_padded(hex_digits(format as nat), 4),
{
    let digits = hex_text(format as u64);
    let width = digits.as_str().unicode_len();
    let mut name = "format-0x".to_string();
    let mut padded: usize = width;
    while padded < 4
        invariant
            width == digits@.len(),
            width <= padded,
            width < 4 ==> padded <= 4,
            width >= 4 ==> padded == width,
            name@ == "format-0x"@ + Seq::new((padded - width) as nat, |i: int| '0'),
        decreases 4 - padded,
    {
        name.append("0");
        proof {
            reveal_strlit("0");
            assert(Seq::new((padded - width) as nat, |i: int| '0').push('0') =~= Seq::new(
                (padded + 1 - width) as nat,
                |i: int| '0',
            ));
        }
        padded = padded + 1;
    }
    let ghost zeros = Seq::new((padded - width) as nat, |i: int| '0');
    name.append(digits.as_str());
    proof {
        assert(name@ == "format-0x"@ + zeros + digits@);
        if width >= 4 {
            assert(zeros =~= Seq::<char>::empty());
            assert(name@ =~= "format-0x"@ + digits@);
        } else {
            assert(padded == 4);
            assert(zero_padded(digits@, 4) =~= zeros + digits@);
            assert(name@ =~= "format-0x"@ + (zeros + digits@));
        }
    }
    name
}

/// The state of a Windows file from the compression format it reports and
/// the bytes the query returned: a short answer is no answer; no format
/// means not compressed; LZNT1 is named, any other format by its code.
pub fn windows_state_from_format(format: u16, returned: u32) -> (state: CompressionState)
    ensures
        state.well_formed(),
        returned < 2 ==> state.state == CompressionStateKind::Unavailable && state.format is None
            && state.detail@
            == "The Windows compression-state response was shorter than expected."@,
        returned >= 2 && format == COMPRESSION_FORMAT_NONE ==> state.state
            == CompressionStateKind::NotCompressed && state.scope
            == CompressionStateScope::ExistingData && state.format is None && state.detail@
            == "Windows reports that this file is not compressed."@,
        returned >= 2 && format != COMPRESSION_FORMAT_NONE ==> state.state
            == CompressionStateKind::Compressed && state.scope
            == CompressionStateScope::ExistingData && state.detail@
            == "Windows reports the current per-stream compression format for this file."@
            && (state.format matches Some(f) && f@ == if format == COMPRESSION_FORMAT_LZNT1 {
            "lznt1"@
        } else {
            "format-0x"@ + zero_padded(hex_digits(format as nat), 4)
        }),
{
    if returned < 2 {
        return CompressionState::unavailable(
            "The Windows compression-state response was shorter than expected.".to_string(),
        );
    }
    if format == COMPRESSION_FORMAT_NONE {
        CompressionState::existing_data(
            false,
            None,
            "Windows reports that this file is not compressed.".to_string(),
        )
    } else {
        let name = if format == COMPRESSION_FORMAT_LZNT1 {
            "lznt1".to_string()
        } else {
            format_code_name(format)
        };
        CompressionState::existing_data(
            true,
            Some(name.as_str()),
            "Windows reports the current per-stream compression format for this file.".to_string(),
        )
    }
}

} // verus!

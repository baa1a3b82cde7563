use cepa::chart::decimal_text;
use cepa::compression::{
    hex_text,
    btrfs_state_from_flags, decmpfs_reported, linux_capability, linux_state_support, macos_capability, macos_state_from_stat,
    windows_capability, windows_reparse_state, windows_state_from_format,
    CompressionCapabilityStatus, CompressionStateKind, CompressionStateScope, BTRFS_SUPER_MAGIC,
    FILE_FILE_COMPRESSION, FS_COMPR_FL, VOL_CAP_FMT_DECMPFS_COMPRESSION, FS_NOCOMP_FL, UF_COMPRESSED,
};
use cepa::winfs::FILE_ATTRIBUTE_REPARSE_POINT;

const REGULAR_FILE_MODE: u16 = 0o100644;
const DIRECTORY_MODE: u16 = 0o040755;

#[test]
fn btrfs_flags_describe_future_writes_with_compression_first() {
    let state = btrfs_state_from_flags(FS_COMPR_FL | FS_NOCOMP_FL);
    assert_eq!(state.state, CompressionStateKind::Enabled);
    assert_eq!(state.scope, CompressionStateScope::FutureWrites);
    assert_eq!(btrfs_state_from_flags(FS_NOCOMP_FL).state, CompressionStateKind::Disabled);
    assert_eq!(btrfs_state_from_flags(0).state, CompressionStateKind::Inherited);
}

#[test]
fn linux_capability_names_unknown_filesystems_in_hexadecimal() {
    let btrfs = linux_capability(BTRFS_SUPER_MAGIC);
    assert_eq!(btrfs.status, CompressionCapabilityStatus::InspectOnly);
    assert_eq!(btrfs.algorithms, vec!["zlib", "lzo", "zstd"]);
    assert!(!btrfs.writer_available);
    let ext4 = linux_capability(0xef53);
    assert_eq!(ext4.status, CompressionCapabilityStatus::Unsupported);
    assert_eq!(ext4.filesystem, "0xef53");
}

#[test]
fn macos_reports_decmpfs_only_for_regular_files() {
    let compressed = macos_state_from_stat(REGULAR_FILE_MODE, UF_COMPRESSED);
    assert_eq!(compressed.state, CompressionStateKind::Compressed);
    assert_eq!(compressed.scope, CompressionStateScope::ExistingData);
    assert_eq!(compressed.format.as_deref(), Some("decmpfs"));

    let plain = macos_state_from_stat(REGULAR_FILE_MODE, 0);
    assert_eq!(plain.state, CompressionStateKind::NotCompressed);
    assert_eq!(plain.format, None);

    let replaced = macos_state_from_stat(DIRECTORY_MODE, UF_COMPRESSED);
    assert_eq!(replaced.state, CompressionStateKind::Unavailable);
    assert_eq!(
        replaced.detail,
        "The scanned item is no longer a regular file and was not followed."
    );
}

#[test]
fn macos_capability_follows_the_decmpfs_query() {
    let supported = macos_capability("apfs".to_string(), Ok(true));
    assert_eq!(supported.status, CompressionCapabilityStatus::InspectOnly);
    assert!(supported.volume_supports_transparent_compression);
    assert!(supported.algorithms.is_empty());
    assert_eq!(
        macos_capability("msdos".to_string(), Ok(false)).status,
        CompressionCapabilityStatus::Unsupported
    );
    let failed = macos_capability("apfs".to_string(), Err("denied".to_string()));
    assert_eq!(failed.status, CompressionCapabilityStatus::Unavailable);
    assert_eq!(failed.detail, "The volume capability query failed: denied.");
}

#[test]
fn windows_capability_reads_the_name_up_to_its_nul() {
    let mut name: Vec<u16> = "NTFS".encode_utf16().collect();
    name.extend([0, b'x' as u16]);
    let ntfs = windows_capability(&name, FILE_FILE_COMPRESSION);
    assert_eq!(ntfs.filesystem, "NTFS");
    assert_eq!(ntfs.status, CompressionCapabilityStatus::InspectOnly);
    assert_eq!(ntfs.algorithms, vec!["lznt1"]);

    let unnamed = windows_capability(&vec![0; 4], 0);
    assert_eq!(unnamed.filesystem, "unknown");
    assert_eq!(unnamed.status, CompressionCapabilityStatus::Unsupported);
}

#[test]
fn windows_state_names_lznt1_and_other_formats() {
    assert!(windows_reparse_state(FILE_ATTRIBUTE_REPARSE_POINT).is_some());
    assert!(windows_reparse_state(0).is_none());

    let short = windows_state_from_format(2, 1);
    assert_eq!(short.state, CompressionStateKind::Unavailable);
    let none = windows_state_from_format(0, 2);
    assert_eq!(none.state, CompressionStateKind::NotCompressed);
    let lznt1 = windows_state_from_format(2, 2);
    assert_eq!(lznt1.state, CompressionStateKind::Compressed);
    assert_eq!(lznt1.format.as_deref(), Some("lznt1"));
    let other = windows_state_from_format(0x1f, 2);
    assert_eq!(other.format.as_deref(), Some("format-0x001f"));
}

#[test]
fn only_btrfs_files_have_their_state_read_on_linux() {
    assert!(linux_state_support(BTRFS_SUPER_MAGIC).is_none());
    let ext4 = linux_state_support(0xef53).expect("ext4 is not inspected");
    assert_eq!(ext4.state, CompressionStateKind::Unsupported);
    assert_eq!(
        ext4.detail,
        "Per-file compression-state inspection is currently implemented only for Btrfs on Linux."
    );
}

#[test]
fn decmpfs_support_needs_a_valid_and_set_capability_bit() {
    let bit = VOL_CAP_FMT_DECMPFS_COMPRESSION;
    assert_eq!(decmpfs_reported(48, 48, bit, bit), Ok(true));
    assert_eq!(decmpfs_reported(48, 48, bit, 0), Ok(false));
    assert_eq!(decmpfs_reported(48, 48, 0, bit), Ok(false));
    assert_eq!(
        decmpfs_reported(12, 48, bit, bit),
        Err("the capability response was shorter than expected".to_string())
    );
}

#[test]
fn numbers_are_written_in_decimal_and_lowercase_hexadecimal() {
    assert_eq!(decimal_text(0), "0");
    assert_eq!(decimal_text(1_234_567_890), "1234567890");
    assert_eq!(decimal_text(u64::MAX), u64::MAX.to_string());
    assert_eq!(hex_text(0), "0");
    assert_eq!(hex_text(0xdead_beef), "deadbeef");
    assert_eq!(hex_text(u64::MAX), "ffffffffffffffff");
}

use cepa::roots::{collapse_macos_data_volume, display_name, normalize_scan_roots, RawScanRoot};

fn raw(name: &str, path: &str, total_bytes: u64) -> RawScanRoot {
    RawScanRoot {
        name: name.to_string(),
        path: path.as_bytes().to_vec(),
        display_path: None,
        total_bytes,
        available_bytes: total_bytes / 4,
        is_removable: false,
        is_read_only: false,
    }
}

fn executable() -> Option<Vec<u8>> {
    Some(b"/Applications/Cepa.app/Contents/MacOS/cepa".to_vec())
}

#[test]
fn filters_unusable_roots_and_deduplicates_mount_points() {
    let roots = normalize_scan_roots(
        vec![
            raw("System", "/", 1_000),
            raw("Duplicate", "/", 900),
            raw("Empty", "/empty", 0),
            raw("Relative", "relative", 500),
        ],
        executable(),
    );

    assert_eq!(roots.len(), 1);
    assert_eq!(roots[0].name, "System");
    assert_eq!(roots[0].path, "/");
}

#[test]
fn keeps_the_system_root_first_and_external_roots_after_internal_storage() {
    let mut archive = raw("Archive", "/Volumes/Archive", 800);
    archive.is_removable = true;
    let roots = normalize_scan_roots(
        vec![
            archive,
            raw("Projects", "/Volumes/Projects", 900),
            raw("/dev/disk3s1", "/", 1_000),
        ],
        executable(),
    );

    assert_eq!(
        roots
            .iter()
            .map(|root| root.name.as_str())
            .collect::<Vec<_>>(),
        ["System", "Projects", "Archive"]
    );
}

#[test]
fn uses_a_human_volume_name_then_falls_back_to_the_mount_name() {
    assert_eq!(
        display_name("Macintosh HD", &b"/".to_vec(), true),
        "Macintosh HD"
    );
    assert_eq!(
        display_name("/dev/disk4s2", &b"/Volumes/Camera".to_vec(), false),
        "Camera"
    );
}

#[test]
fn clamps_inconsistent_available_space_and_preserves_read_only_state() {
    let mut root = raw("Archive", "/Volumes/Archive", 100);
    root.available_bytes = 120;
    root.is_read_only = true;
    let roots = normalize_scan_roots(vec![root], None);

    assert_eq!(roots[0].available_bytes, 100);
    assert!(roots[0].is_read_only);
}

#[test]
fn collapses_the_macos_system_and_data_pair_without_losing_the_scan_path() {
    let mut system = raw("Macintosh HD", "/", 1_000);
    system.available_bytes = 251;
    system.is_read_only = true;
    let mut data = raw("Macintosh HD", "/System/Volumes/Data", 1_000);
    data.available_bytes = 250;
    let mut roots = vec![system, data];

    collapse_macos_data_volume(&mut roots);

    assert_eq!(roots.len(), 1);
    assert_eq!(roots[0].path, b"/System/Volumes/Data".to_vec());
    assert_eq!(roots[0].display_path.as_deref(), Some(&b"/"[..]));
}

#[test]
fn a_larger_duplicate_replaces_the_first_mount() {
    let roots = normalize_scan_roots(
        vec![raw("Small", "/Volumes/Disk", 100), raw("Large", "/Volumes/Disk/", 900)],
        None,
    );
    assert_eq!(roots.len(), 1);
    assert_eq!(roots[0].name, "Large");
    assert_eq!(roots[0].total_bytes, 900);
}

#[test]
fn differently_named_pairs_are_not_collapsed() {
    let mut roots = vec![
        raw("Macintosh HD", "/", 1_000),
        raw("Data", "/System/Volumes/Data", 1_000),
    ];
    collapse_macos_data_volume(&mut roots);
    assert_eq!(roots.len(), 2);
}

#[test]
fn a_nameless_system_root_is_called_system() {
    assert_eq!(display_name("", &b"/".to_vec(), true), "System");
    assert_eq!(display_name("  ", &b"//".to_vec(), false), "");
    assert_eq!(display_name("/mnt/data", &b"/MNT/DATA".to_vec(), false), "DATA");
}

#[test]
fn the_deepest_mount_holding_the_executable_is_the_system_root() {
    let roots = normalize_scan_roots(
        vec![
            raw("Zeta", "/", 1_000),
            raw("Apps", "/Applications", 500),
        ],
        executable(),
    );
    assert_eq!(roots[0].name, "Apps");
    assert_eq!(roots[1].name, "Zeta");
}

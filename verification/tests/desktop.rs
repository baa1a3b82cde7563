use cepa::desktop::{
    command_for_menu_id, intersects, is_main_page_ready, MonitorBounds, PageLoadEvent,
    SavedGeometry, StartupLatch,
};
use cepa::mft::is_google_drive_driver;

const MONITOR: MonitorBounds = MonitorBounds {
    x: 0,
    y: 0,
    width: 1920,
    height: 1080,
};

#[test]
fn custom_menu_ids_map_only_to_supported_frontend_commands() {
    assert_eq!(
        command_for_menu_id("cepa.open-folder"),
        Some("chooseDirectory")
    );
    assert_eq!(command_for_menu_id("cepa.rescan"), Some("rescan"));
    assert_eq!(command_for_menu_id("cepa.search"), Some("search"));
    assert_eq!(command_for_menu_id("cepa.parent"), Some("navigateUp"));
    assert_eq!(command_for_menu_id("quit"), None);
}

#[test]
fn accepts_partially_visible_windows_and_rejects_offscreen_state() {
    assert!(intersects(
        SavedGeometry {
            x: -100,
            y: 50,
            width: 900,
            height: 650,
        },
        MONITOR,
    ));
    assert!(!intersects(
        SavedGeometry {
            x: 4_000,
            y: 2_000,
            width: 900,
            height: 650,
        },
        MONITOR,
    ));
}

#[test]
fn corrupted_extreme_geometry_cannot_overflow_visibility_checks() {
    assert!(!intersects(
        SavedGeometry {
            x: i32::MAX,
            y: i32::MAX,
            width: u32::MAX,
            height: u32::MAX,
        },
        MonitorBounds {
            x: i32::MIN,
            y: i32::MIN,
            width: u32::MAX,
            height: u32::MAX,
        },
    ));
}

#[test]
fn saved_geometry_needs_a_positive_size() {
    assert!(!SavedGeometry {
        width: 0,
        height: 650,
        x: 120,
        y: 140,
    }
    .is_well_formed());
    assert!(SavedGeometry {
        width: 900,
        height: 650,
        x: i32::MAX,
        y: i32::MIN,
    }
    .is_well_formed());
}

#[test]
fn a_window_corner_on_the_far_edge_is_off_the_monitor() {
    assert!(!intersects(
        SavedGeometry {
            x: 1920,
            y: 0,
            width: 10,
            height: 10,
        },
        MONITOR,
    ));
    assert!(intersects(
        SavedGeometry {
            x: 1919,
            y: 1079,
            width: 10,
            height: 10,
        },
        MONITOR,
    ));
}

#[test]
fn recognizes_only_google_filesystem_driver_names() {
    for name in ["googledrivefs", "googledrivefs31931", "GoogleDriveFS123"] {
        assert!(is_google_drive_driver(name));
    }
    for name in [
        "Google Drive",
        "FAT32",
        "Ntfs",
        "googledrivefs.sys",
        "googledrivefs1extra",
    ] {
        assert!(!is_google_drive_driver(name));
    }
}

#[test]
fn accepts_only_the_finished_main_webview() {
    assert!(is_main_page_ready("main", PageLoadEvent::Finished));
    assert!(!is_main_page_ready("main", PageLoadEvent::Started));
    assert!(!is_main_page_ready("secondary", PageLoadEvent::Finished));
}

#[test]
fn remembers_page_completion_before_the_window_waits() {
    let mut startup = StartupLatch::default();
    startup.mark_page_loaded();

    assert_eq!(startup.wait_outcome(0), Some(true));
}

#[test]
fn times_out_when_the_initial_page_never_finishes() {
    let startup = StartupLatch::default();

    assert_eq!(startup.wait_outcome(0), Some(false));
}

#[test]
fn an_unfinished_page_keeps_the_window_waiting_while_time_remains() {
    let startup = StartupLatch::default();
    assert_eq!(startup.wait_outcome(1), None);
}

//! Desktop shell decisions: which menu item sends which command, whether a
//! saved window placement can be restored, and when the hidden main window
//! may be shown.
use vstd::prelude::*;
use crate::text::str_eq;

verus! {

/// Which menu commands the interface can currently perform.
#[derive(Clone, Copy, Debug)]
pub struct DesktopMenuAvailability {
    pub can_choose_directory: bool,
    pub can_rescan: bool,
    pub can_search: bool,
    pub can_navigate_up: bool,
}

/// The interface command sent for a menu item; other items, the standard
/// ones among them, send nothing.
pub open spec fn spec_command_for_menu_id(menu_id: Seq<char>) -> Option<Seq<char>> {
    if menu_id == "cepa.open-folder"@ {
        Some("chooseDirectory"@)
    } else if menu_id == "cepa.rescan"@ {
        Some("rescan"@)
    } else if menu_id == "cepa.search"@ {
        Some("search"@)
    } else if menu_id == "cepa.parent"@ {
        Some("navigateUp"@)
    } else {
        None
    }
}

/// Maps a menu item to the interface command it sends.
pub fn command_for_menu_id(menu_id: &str) -> (command: Option<&'static str>)
    ensures
        match command {
            Some(c) => spec_command_for_menu_id(menu_id@) == Some(c@),
            None => spec_command_for_menu_id(menu_id@) is None,
        },
{
    if str_eq(menu_id, "cepa.open-folder") {
        Some("chooseDirectory")
    } else if str_eq(menu_id, "cepa.rescan") {
        Some("rescan")
    } else if str_eq(menu_id, "cepa.search") {
        Some("search")
    } else if str_eq(menu_id, "cepa.parent") {
        Some("navigateUp")
    } else {
        None
    }
}

/// The saved size and position of the main window.
#[derive(Clone, Copy, Debug)]
pub struct SavedGeometry {
    pub width: u32,
    pub height: u32,
    pub x: i32,
    pub y: i32,
}

/// The bounds of a monitor.
#[derive(Clone, Copy, Debug)]
pub struct MonitorBounds {
    pub x: i32,
    pub y: i32,
    pub width: u32,
    pub height: u32,
}

impl SavedGeometry {
    /// A saved window has a positive width and height.
    pub fn is_well_formed(self) -> (well_formed: bool)
        ensures
            well_formed == (self.width > 0 && self.height > 0),
    {
        (self.x as i64) + (self.width as i64) > (self.x as i64) && (self.y as i64) + (
        self.height as i64) > (self.y as i64)
    }
}

/// A point lies on a monitor: left and top edges included, right and bottom
/// edges excluded.
pub open spec fn on_monitor(x: int, y: int, monitor: MonitorBounds) -> bool {
    &&& monitor.x <= x < monitor.x + monitor.width
    &&& monitor.y <= y < monitor.y + monitor.height
}

/// A saved window is visible on a monitor when one of its four corners lies
/// on it; coordinates are widened so extreme values cannot overflow.
pub open spec fn spec_intersects(window: SavedGeometry, monitor: MonitorBounds) -> bool {
    let left = window.x as int;
    let right = window.x + window.width;
    let top = window.y as int;
    let bottom = window.y + window.height;
    ||| on_monitor(left, top, monitor)
    ||| on_monitor(right, top, monitor)
    ||| on_monitor(left, bottom, monitor)
    ||| on_monitor(right, bottom, monitor)
}

/// Whether a saved window would be visible on a monitor.
pub fn intersects(window: SavedGeometry, monitor: MonitorBounds) -> (visible: bool)
    ensures
        visible == spec_intersects(window, monitor),
{
    let left = monitor.x as i64;
    let right = left + monitor.width as i64;
    let top = monitor.y as i64;
    let bottom = top + monitor.height as i64;
    let window_left = window.x as i64;
    let window_right = window_left + window.width as i64;
    let window_top = window.y as i64;
    let window_bottom = window_top + window.height as i64;
    let corner = |x: i64, y: i64| -> (inside: bool)
        ensures
            inside == (x >= left && x < right && y >= top && y < bottom),
        { x >= left && x < right && y >= top && y < bottom };
    corner(window_left, window_top) || corner(window_right, window_top) || corner(
        window_left,
        window_bottom,
    ) || corner(window_right, window_bottom)
}

/// How far a webview's page has loaded.
#[derive(Clone, Copy, Debug, PartialEq, Eq, Structural)]
pub enum PageLoadEvent {
    Started,
    Finished,
}

/// Only the main webview's finished page lets the window be shown.
pub fn is_main_page_ready(label: &str, event: PageLoadEvent) -> (ready: bool)
    ensures
        ready == (label@ == "main"@ && event == PageLoadEvent::Finished),
{
    str_eq(label, "main") && event == PageLoadEvent::Finished
}

/// What the start-up wait has seen: whether the main page finished loading.
/// A completion that arrives before the wait begins is remembered.
#[derive(Clone, Copy, Debug)]
pub struct StartupLatch {
    pub page_loaded: bool,
}

impl Default for StartupLatch {
    fn default() -> (latch: Self)
        ensures
            !latch.page_loaded,
    {
        StartupLatch { page_loaded: false }
    }
}

impl StartupLatch {
    /// Records that the main page finished loading.
    pub fn mark_page_loaded(&mut self)
        ensures
            final(self).page_loaded,
    {
        self.page_loaded = true;
    }

    /// Whether the wait is over, with `remaining_ns` nanoseconds of the
    /// start-up timeout left: once the page has loaded the window is shown as ready
    /// (`Some(true)`); when no time is left it is shown anyway
    /// (`Some(false)`); otherwise the wait goes on (`None`).
    pub fn wait_outcome(&self, remaining_ns: u64) -> (outcome: Option<bool>)
        ensures
            self.page_loaded ==> outcome == Some(true),
            !self.page_loaded && remaining_ns == 0 ==> outcome == Some(false),
            !self.page_loaded && remaining_ns > 0 ==> outcome is None,
    {
        if self.page_loaded {
            Some(true)
        } else if remaining_ns == 0 {
            Some(false)
        } else {
            None
        }
    }
}

} // verus!

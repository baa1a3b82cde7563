//! Which traversal a scan runs: each backend names a native traversal that
//! exists on one platform, `auto` takes the platform's own and falls back to
//! the portable walk, and a native traversal that stops either hands over to
//! that walk or ends the scan.
use vstd::prelude::*;
use crate::ntfs::NativeScanError;
use crate::types::ScanBackend;

verus! {

/// The operating system a scan runs on.
#[derive(Clone, Copy, Debug, PartialEq, Eq, Structural)]
pub enum Platform {
    Linux,
    MacOs,
    Windows,
    Other,
}

/// The traversal a scan starts with.
#[derive(Clone, Copy, Debug, PartialEq, Eq, Structural)]
pub enum Traversal {
    Native,
    Portable,
}

/// The platform whose native traversal a backend names; `auto` and the
/// portable walk name none.
pub open spec fn native_home(backend: ScanBackend) -> Option<Platform> {
    match backend {
        ScanBackend::Getattrlistbulk => Some(Platform::MacOs),
        ScanBackend::Mft => Some(Platform::Windows),
        ScanBackend::Statx => Some(Platform::Linux),
        _ => None,
    }
}

/// Why a backend cannot run on another platform than its own.
pub open spec fn wrong_platform_text(backend: ScanBackend) -> Seq<char> {
    match backend {
        ScanBackend::Getattrlistbulk => "getattrlistbulk is only available on macOS."@,
        ScanBackend::Mft => "MFT traversal is only available on Windows."@,
        _ => "statx is only available on Linux."@,
    }
}

/// Why a backend's native traversal could not serve the root.
pub open spec fn unavailable_text(backend: ScanBackend) -> Seq<char> {
    match backend {
        ScanBackend::Getattrlistbulk => "getattrlistbulk is unavailable for this filesystem."@,
        ScanBackend::Mft => "MFT traversal is unavailable for this Windows volume or process."@,
        _ => "statx is unavailable on this Linux kernel or runtime."@,
    }
}

/// The traversal a scan starts with: the portable walk when asked for, or
/// under `auto` on a platform without a native traversal; the native one
/// under `auto` elsewhere, or when the backend's own platform runs the scan;
/// a backend named on another platform is refused.
pub fn first_traversal(backend: ScanBackend, platform: Platform) -> (r: Result<Traversal, String>)
    ensures
        backend == ScanBackend::Jwalk ==> r == Ok::<Traversal, String>(Traversal::Portable),
        backend == ScanBackend::Auto ==> r == Ok::<Traversal, String>(
            if platform == Platform::Other {
                Traversal::Portable
            } else {
                Traversal::Native
            },
        ),
        native_home(backend) matches Some(home) ==> if home == platform {
            r == Ok::<Traversal, String>(Traversal::Native)
        } else {
            r matches Err(message) && message@ == wrong_platform_text(backend)
        },
{
    match backend {
        ScanBackend::Jwalk => Ok(Traversal::Portable),
        ScanBackend::Auto => if platform == Platform::Other {
            Ok(Traversal::Portable)
        } else {
            Ok(Traversal::Native)
        },
        ScanBackend::Getattrlistbulk => if platform == Platform::MacOs {
            Ok(Traversal::Native)
        } else {
            Err("getattrlistbulk is only available on macOS.".to_string())
        },
        ScanBackend::Mft => if platform == Platform::Windows {
            Ok(Traversal::Native)
        } else {
            Err("MFT traversal is only available on Windows.".to_string())
        },
        ScanBackend::Statx => if platform == Platform::Linux {
            Ok(Traversal::Native)
        } else {
            Err("statx is only available on Linux.".to_string())
        },
    }
}

/// What follows a native traversal that stopped: under `auto` a traversal
/// that cannot serve the root hands over to the portable walk (`Ok`); a
/// backend asked for by name reports that it is unavailable; a failure ends
/// the scan with its own message.
pub fn after_native_stop(backend: ScanBackend, error: NativeScanError) -> (r: Result<(), String>)
    requires
        backend != ScanBackend::Jwalk,
    ensures
        match error {
            NativeScanError::Fatal(message) => r matches Err(e) && e@ == message@,
            NativeScanError::Unavailable => if backend == ScanBackend::Auto {
                r is Ok
            } else {
                r matches Err(e) && e@ == unavailable_text(backend)
            },
        },
{
    match error {
        NativeScanError::Fatal(message) => Err(message),
        NativeScanError::Unavailable => match backend {
            ScanBackend::Auto => Ok(()),
            ScanBackend::Getattrlistbulk => Err(
                "getattrlistbulk is unavailable for this filesystem.".to_string(),
            ),
            ScanBackend::Mft => Err(
                "MFT traversal is unavailable for this Windows volume or process.".to_string(),
            ),
            _ => Err("statx is unavailable on this Linux kernel or runtime.".to_string()),
        },
    }
}

} // verus!

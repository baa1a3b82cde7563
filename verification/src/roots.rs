//! The storage roots offered for scanning: mounted volumes filtered,
//! deduplicated by mount point, named for people and ordered with the
//! volume holding the application first.
use vstd::prelude::*;
use crate::query::{trim_text, trimmed};
use crate::text::{
    Order, byte_ints, bytes_order, compare_bytes, int_order, lex_order, lossy_text, text_bytes,
    utf8_lossy,
};

verus! {

/// A mounted volume as the system reports it. Paths are Unix byte paths.
#[derive(Clone, Debug)]
pub struct RawScanRoot {
    pub name: String,
    pub path: Vec<u8>,
    pub display_path: Option<Vec<u8>>,
    pub total_bytes: u64,
    pub available_bytes: u64,
    pub is_removable: bool,
    pub is_read_only: bool,
}

/// A volume offered for scanning.
#[derive(Clone, Debug)]
pub struct ScanRoot {
    pub name: String,
    pub path: String,
    pub display_path: String,
    pub total_bytes: u64,
    pub available_bytes: u64,
    pub is_removable: bool,
    pub is_read_only: bool,
}

impl ScanRoot {
    /// The mount point to scan.
    pub fn path(&self) -> (path: &str)
        ensures
            path@ == self.path@,
    {
        self.path.as_str()
    }

    /// The name shown for the volume.
    pub fn name(&self) -> (name: &str)
        ensures
            name@ == self.name@,
    {
        self.name.as_str()
    }
}

/// The state of splitting a path into its components: the components so
/// far and the one being read.
pub open spec fn split_state(path: Seq<u8>) -> (Seq<Seq<u8>>, Seq<u8>)
    decreases path.len(),
{
    if path.len() == 0 {
        (Seq::empty(), Seq::empty())
    } else {
        let (done, current) = split_state(path.drop_last());
        if path.last() == 47u8 {
            (flush(done, current), Seq::empty())
        } else {
            (done, current.push(path.last()))
        }
    }
}

/// Ends a component: empty components and `.` are dropped.
pub open spec fn flush(done: Seq<Seq<u8>>, current: Seq<u8>) -> Seq<Seq<u8>> {
    if current.len() == 0 || current == seq![46u8] {
        done
    } else {
        done.push(current)
    }
}

/// The named components of a path, as `Path::components` yields them after
/// the root of an absolute path: repeated separators, a trailing separator
/// and `.` are normalized away.
pub open spec fn segments(path: Seq<u8>) -> Seq<Seq<u8>> {
    let (done, current) = split_state(path);
    flush(done, current)
}

/// A Unix path is absolute when it starts at the root.
pub open spec fn is_absolute(path: Seq<u8>) -> bool {
    path.len() > 0 && path[0] == 47u8
}

/// Whether `path` starts with `base`, component by component.
pub open spec fn path_starts_with(path: Seq<u8>, base: Seq<u8>) -> bool {
    &&& is_absolute(path) == is_absolute(base)
    &&& segments(base).len() <= segments(path).len()
    &&& segments(path).take(segments(base).len() as int) == segments(base)
}

/// Two paths name the same location, component by component.
pub open spec fn same_path(a: Seq<u8>, b: Seq<u8>) -> bool {
    is_absolute(a) == is_absolute(b) && segments(a) == segments(b)
}

/// The final component of a path, unless it is `..` or there is none.
pub open spec fn file_name(path: Seq<u8>) -> Option<Seq<u8>> {
    let parts = segments(path);
    if parts.len() == 0 || parts.last() == seq![46u8, 46u8] {
        None
    } else {
        Some(parts.last())
    }
}

fn flush_exec(done: &mut Vec<Vec<u8>>, current: Vec<u8>)
    ensures
        final(done)@.map_values(|s: Vec<u8>| s@) == flush(
            old(done)@.map_values(|s: Vec<u8>| s@),
            current@,
        ),
{
    let dot = current.len() == 1 && current[0] == 46u8;
    if current.len() == 0 || dot {
        proof {
            if current@.len() == 1 {
                assert(dot == (current@ =~= seq![46u8]));
            } else {
                assert(current@ != seq![46u8]);
            }
        }
    } else {
        proof {
            assert(current@ != seq![46u8]);
        }
        done.push(current);
        proof {
            assert(done@.map_values(|s: Vec<u8>| s@) =~= old(done)@.map_values(|s: Vec<u8>| s@).push(
                current@,
            ));
        }
    }
}

/// Splits a path into its named components.
pub fn path_segments(path: &Vec<u8>) -> (parts: Vec<Vec<u8>>)
    ensures
        parts@.map_values(|s: Vec<u8>| s@) == segments(path@),
{
    let mut done: Vec<Vec<u8>> = Vec::new();
    let mut current: Vec<u8> = Vec::new();
    let mut index: usize = 0;
    proof {
        assert(path@.take(0) =~= Seq::<u8>::empty());
        assert(done@.map_values(|s: Vec<u8>| s@) =~= Seq::<Seq<u8>>::empty());
    }
    while index < path.len()
        invariant
            0 <= index <= path@.len(),
            (done@.map_values(|s: Vec<u8>| s@), current@) == split_state(path@.take(index as int)),
        decreases path@.len() - index,
    {
        proof {
            assert(path@.take(index as int + 1).drop_last() =~= path@.take(index as int));
            assert(path@.take(index as int + 1).last() == path@[index as int]);
        }
        let byte = path[index];
        if byte == 47u8 {
            let finished = current;
            current = Vec::new();
            flush_exec(&mut done, finished);
            proof {
                assert(current@ =~= Seq::<u8>::empty());
            }
        } else {
            current.push(byte);
        }
        index = index + 1;
    }
    proof {
        assert(path@.take(index as int) =~= path@);
    }
    flush_exec(&mut done, current);
    done
}

pub(crate) fn segment_lists_equal(a: &Vec<Vec<u8>>, b: &Vec<Vec<u8>>, count: usize) -> (equal: bool)
    requires
        count <= a@.len(),
        count <= b@.len(),
    ensures
        equal == (a@.map_values(|s: Vec<u8>| s@).take(count as int) == b@.map_values(
            |s: Vec<u8>| s@,
        ).take(count as int)),
{
    let mut index: usize = 0;
    while index < count
        invariant
            0 <= index <= count <= a@.len(),
            count <= b@.len(),
            forall|k: int| 0 <= k < index ==> #[trigger] a@[k]@ == b@[k]@,
        decreases count - index,
    {
        if !bytes_same(&a[index], &b[index]) {
            proof {
                let sa = a@.map_values(|s: Vec<u8>| s@).take(count as int);
                let sb = b@.map_values(|s: Vec<u8>| s@).take(count as int);
                assert(sa[index as int] != sb[index as int]);
            }
            return false;
        }
        index = index + 1;
    }
    proof {
        assert(a@.map_values(|s: Vec<u8>| s@).take(count as int) =~= b@.map_values(
            |s: Vec<u8>| s@,
        ).take(count as int));
    }
    true
}

fn bytes_same(a: &Vec<u8>, b: &Vec<u8>) -> (equal: bool)
    ensures
        equal == (a@ == b@),
{
    let order = compare_bytes(a.as_slice(), b.as_slice());
    proof {
        crate::text::lemma_lex_order_equal(byte_ints(a@), byte_ints(b@));
        if byte_ints(a@) == byte_ints(b@) {
            assert(a@ =~= b@) by {
                assert forall|i: int| 0 <= i < a@.len() implies a@[i] == b@[i] by {
                    assert(byte_ints(a@)[i] == byte_ints(b@)[i]);
                }
            }
        }
    }
    order == Order::Equal
}

fn absolute(path: &Vec<u8>) -> (absolute: bool)
    ensures
        absolute == is_absolute(path@),
{
    path.len() > 0 && path[0] == 47u8
}

/// Whether `path` starts with `base`, component by component.
pub fn starts_with_path(path: &Vec<u8>, base: &Vec<u8>) -> (starts: bool)
    ensures
        starts == path_starts_with(path@, base@),
{
    if absolute(path) != absolute(base) {
        return false;
    }
    let whole = path_segments(path);
    let prefix = path_segments(base);
    if prefix.len() > whole.len() {
        return false;
    }
    let equal = segment_lists_equal(&whole, &prefix, prefix.len());
    proof {
        assert(prefix@.map_values(|s: Vec<u8>| s@).take(prefix@.len() as int) =~= prefix@.map_values(
            |s: Vec<u8>| s@,
        ));
    }
    equal
}

/// Whether two paths name the same location.
pub fn same_path_exec(a: &Vec<u8>, b: &Vec<u8>) -> (same: bool)
    ensures
        same == same_path(a@, b@),
{
    if absolute(a) != absolute(b) {
        return false;
    }
    let left = path_segments(a);
    let right = path_segments(b);
    proof {
        assert(left@.map_values(|s: Vec<u8>| s@).len() == left@.len());
        assert(right@.map_values(|s: Vec<u8>| s@).len() == right@.len());
    }
    if left.len() != right.len() {
        return false;
    }
    let equal = segment_lists_equal(&left, &right, left.len());
    proof {
        assert(left@.map_values(|s: Vec<u8>| s@).take(left@.len() as int) =~= left@.map_values(
            |s: Vec<u8>| s@,
        ));
        assert(right@.map_values(|s: Vec<u8>| s@).take(right@.len() as int) =~= right@.map_values(
            |s: Vec<u8>| s@,
        ));
    }
    equal
}

/// What `str::to_lowercase` returns: the text with every character mapped
/// to its Unicode lowercase.
pub uninterp spec fn lowercase(text: Seq<char>) -> Seq<char>;

/// Calls `str::to_lowercase`.
#[verifier::external_body]
fn to_lowercase(text: &str) -> (lower: String)
    ensures
        lower@ == lowercase(text@),
{
    text.to_lowercase()
}

/// Whether text begins with a prefix, compared as UTF-8 bytes.
pub open spec fn text_starts_with(text: Seq<u8>, prefix: Seq<u8>) -> bool {
    prefix.len() <= text.len() && text.take(prefix.len() as int) == prefix
}

fn bytes_start_with(text: &Vec<u8>, prefix: &[u8]) -> (starts: bool)
    ensures
        starts == text_starts_with(text@, prefix@),
{
    if prefix.len() > text.len() {
        return false;
    }
    let mut index: usize = 0;
    while index < prefix.len()
        invariant
            0 <= index <= prefix@.len() <= text@.len(),
            forall|k: int| 0 <= k < index ==> text@[k] == prefix@[k],
        decreases prefix@.len() - index,
    {
        if text[index] != prefix[index] {
            return false;
        }
        index = index + 1;
    }
    proof {
        assert(text@.take(prefix@.len() as int) =~= prefix@);
    }
    true
}

/// The ASCII lowercase of a byte.
pub open spec fn ascii_lower(byte: u8) -> u8 {
    if 65 <= byte <= 90 {
        (byte + 32) as u8
    } else {
        byte
    }
}

/// Equality ignoring ASCII case, as `str::eq_ignore_ascii_case` compares.
pub open spec fn eq_ignore_ascii_case(a: Seq<u8>, b: Seq<u8>) -> bool {
    a.len() == b.len() && forall|i: int| 0 <= i < a.len() ==> ascii_lower(a[i]) == ascii_lower(b[i])
}

fn ascii_lower_exec(byte: u8) -> (lower: u8)
    ensures
        lower == ascii_lower(byte),
{
    if 65 <= byte && byte <= 90 {
        byte + 32
    } else {
        byte
    }
}

/// Compares two byte strings ignoring ASCII case.
pub fn equal_ignoring_ascii_case(a: &Vec<u8>, b: &Vec<u8>) -> (equal: bool)
    ensures
        equal == eq_ignore_ascii_case(a@, b@),
{
    if a.len() != b.len() {
        return false;
    }
    let mut index: usize = 0;
    while index < a.len()
        invariant
            0 <= index <= a@.len(),
            a@.len() == b@.len(),
            forall|k: int| 0 <= k < index ==> ascii_lower(a@[k]) == ascii_lower(b@[k]),
        decreases a@.len() - index,
    {
        if ascii_lower_exec(a[index]) != ascii_lower_exec(b[index]) {
            return false;
        }
        index = index + 1;
    }
    true
}

/// Text with every trailing `/` and `\` removed.
pub open spec fn trim_trailing_separators(text: Seq<u8>) -> Seq<u8>
    decreases text.len(),
{
    if text.len() > 0 && (text.last() == 47u8 || text.last() == 92u8) {
        trim_trailing_separators(text.drop_last())
    } else {
        text
    }
}

/// The bytes of "/dev/".
pub open spec fn dev_prefix() -> Seq<u8> {
    seq![47u8, 100u8, 101u8, 118u8, 47u8]
}

/// The bytes of the Windows volume GUID path prefix `\\?\Volume{`.
pub open spec fn volume_guid_prefix() -> Seq<u8> {
    seq![92u8, 92u8, 63u8, 92u8, 86u8, 111u8, 108u8, 117u8, 109u8, 101u8, 123u8]
}

/// The name shown for a volume: its device name unless that only names
/// the device node or the mount point, then the mount point's final
/// component, then "System" for the system volume, then the mount point
/// without trailing separators.
pub open spec fn spec_display_name(device_name: Seq<char>, mount_point: Seq<u8>, is_system: bool) -> Seq<
    char,
> {
    let device = trimmed(device_name);
    let device_bytes = vstd::utf8::encode_utf8(device);
    let mount_display = utf8_lossy(mount_point);
    let native = text_starts_with(device_bytes, dev_prefix()) || text_starts_with(
        device_bytes,
        volume_guid_prefix(),
    )
        || eq_ignore_ascii_case(device_bytes, vstd::utf8::encode_utf8(mount_display));
    if device.len() > 0 && !native {
        device
    } else if file_name(mount_point) is Some {
        utf8_lossy(file_name(mount_point).unwrap())
    } else if is_system {
        "System"@
    } else {
        utf8_lossy(trim_trailing_separators(vstd::utf8::encode_utf8(mount_display)))
    }
}

/// The name a volume falls back to when its device name says nothing to
/// people: the mount point's final component, else "System" for the system
/// volume, else the mount point without trailing separators.
pub open spec fn mount_fallback_name(mount_point: Seq<u8>, is_system: bool) -> Seq<char> {
    if file_name(mount_point) is Some {
        utf8_lossy(file_name(mount_point).unwrap())
    } else if is_system {
        "System"@
    } else {
        utf8_lossy(trim_trailing_separators(vstd::utf8::encode_utf8(utf8_lossy(mount_point))))
    }
}

/// A device name that only locates the device is never shown: one under
/// `/dev/` or a Windows volume GUID path (`\\?\Volume{...}`) gives way to
/// the mount point's name, as do an empty one and one that merely repeats
/// the mount point, ignoring ASCII case. Any other device name is shown as
/// it is, trimmed.
pub proof fn lemma_display_name_hides_device_paths(
    device_name: Seq<char>,
    mount_point: Seq<u8>,
    is_system: bool,
)
    ensures
        ({
            let device = vstd::utf8::encode_utf8(trimmed(device_name));
            let guid = seq![92u8, 92u8, 63u8, 92u8, 86u8, 111u8, 108u8, 117u8, 109u8, 101u8, 123u8];
            let dev = seq![47u8, 100u8, 101u8, 118u8, 47u8];
            ((guid.len() <= device.len() && device.take(guid.len() as int) == guid) || (dev.len()
                <= device.len() && device.take(dev.len() as int) == dev) || trimmed(device_name).len()
                == 0 || eq_ignore_ascii_case(device, vstd::utf8::encode_utf8(utf8_lossy(mount_point))))
                ==> spec_display_name(device_name, mount_point, is_system)
                == mount_fallback_name(mount_point, is_system)
        }),
        ({
            let device = vstd::utf8::encode_utf8(trimmed(device_name));
            let guid = seq![92u8, 92u8, 63u8, 92u8, 86u8, 111u8, 108u8, 117u8, 109u8, 101u8, 123u8];
            let dev = seq![47u8, 100u8, 101u8, 118u8, 47u8];
            (trimmed(device_name).len() > 0 && !(guid.len() <= device.len() && device.take(
                guid.len() as int,
            ) == guid) && !(dev.len() <= device.len() && device.take(dev.len() as int) == dev)
                && !eq_ignore_ascii_case(device, vstd::utf8::encode_utf8(utf8_lossy(mount_point))))
                ==> spec_display_name(device_name, mount_point, is_system) == trimmed(device_name)
        }),
{
    assert(volume_guid_prefix() =~= seq![92u8, 92u8, 63u8, 92u8, 86u8, 111u8, 108u8, 117u8, 109u8, 101u8, 123u8]);
    assert(dev_prefix() =~= seq![47u8, 100u8, 101u8, 118u8, 47u8]);
}

} // verus!

verus! {

proof fn lemma_trim_prefix(text: Seq<u8>, end: int)
    requires
        0 <= end <= text.len(),
        forall|k: int| end <= k < text.len() ==> (text[k] == 47u8 || text[k] == 92u8),
    ensures
        trim_trailing_separators(text) == trim_trailing_separators(text.take(end)),
    decreases text.len(),
{
    if end < text.len() {
        assert(text.drop_last().take(end) =~= text.take(end));
        lemma_trim_prefix(text.drop_last(), end);
    } else {
        assert(text.take(end) =~= text);
    }
}

fn trim_separators_exec(text: &Vec<u8>) -> (trimmed: Vec<u8>)
    ensures
        trimmed@ == trim_trailing_separators(text@),
{
    let mut end: usize = text.len();
    while end > 0 && (text[end - 1] == 47u8 || text[end - 1] == 92u8)
        invariant
            0 <= end <= text@.len(),
            forall|k: int| end <= k < text@.len() ==> (text@[k] == 47u8 || text@[k] == 92u8),
        decreases end,
    {
        end = end - 1;
    }
    proof {
        lemma_trim_prefix(text@, end as int);
        assert(text@.take(end as int).len() == 0 || !(text@.take(end as int).last() == 47u8
            || text@.take(end as int).last() == 92u8));
    }
    let mut trimmed: Vec<u8> = Vec::new();
    let mut index: usize = 0;
    while index < end
        invariant
            0 <= index <= end <= text@.len(),
            trimmed@ == text@.take(index as int),
        decreases end - index,
    {
        trimmed.push(text[index]);
        index = index + 1;
        proof {
            assert(trimmed@ =~= text@.take(index as int));
        }
    }
    trimmed
}

fn final_name(path: &Vec<u8>) -> (name: Option<Vec<u8>>)
    ensures
        match name {
            Some(n) => file_name(path@) == Some(n@),
            None => file_name(path@) is None,
        },
{
    let parts = path_segments(path);
    proof {
        assert(parts@.len() == segments(path@).len());
    }
    if parts.len() == 0 {
        return None;
    }
    let last = &parts[parts.len() - 1];
    proof {
        assert(last@ == segments(path@).last());
    }
    let dots = last.len() == 2 && last[0] == 46u8 && last[1] == 46u8;
    proof {
        if last@.len() == 2 {
            assert(dots == (last@ =~= seq![46u8, 46u8]));
        } else {
            assert(last@ != seq![46u8, 46u8]);
        }
    }
    if dots {
        None
    } else {
        Some(last.clone())
    }
}

/// Names a volume for people.
pub fn display_name(device_name: &str, mount_point: &Vec<u8>, is_system: bool) -> (name: String)
    ensures
        name@ == spec_display_name(device_name@, mount_point@, is_system),
{
    let device = trim_text(device_name);
    let device_bytes = text_bytes(device);
    let mount_display = lossy_text(mount_point.as_slice());
    let mount_bytes = text_bytes(mount_display.as_str());
    let dev: [u8; 5] = [47, 100, 101, 118, 47];
    let guid: [u8; 11] = [92, 92, 63, 92, 86, 111, 108, 117, 109, 101, 123];
    assert(dev@ =~= dev_prefix());
    assert(guid@ =~= volume_guid_prefix());
    let native = bytes_start_with(&device_bytes, dev.as_slice()) || bytes_start_with(
        &device_bytes,
        guid.as_slice(),
    ) || equal_ignoring_ascii_case(&device_bytes, &mount_bytes);
    if !device.is_empty() && !native {
        return device.to_string();
    }
    match final_name(mount_point) {
        Some(name) => {
            return lossy_text(name.as_slice());
        },
        None => {},
    }
    if is_system {
        return "System".to_string();
    }
    let trimmed = trim_separators_exec(&mount_bytes);
    lossy_text(trimmed.as_slice())
}

/// The first root whose path is the given location, if any.
pub open spec fn first_at(roots: Seq<RawScanRoot>, location: Seq<u8>) -> Option<int>
    decreases roots.len(),
{
    if roots.len() == 0 {
        None
    } else {
        match first_at(roots.drop_last(), location) {
            Some(i) => Some(i),
            None => if same_path(roots.last().path@, location) {
                Some(roots.len() - 1)
            } else {
                None
            },
        }
    }
}

fn first_at_exec(roots: &Vec<RawScanRoot>, location: &Vec<u8>) -> (found: Option<usize>)
    ensures
        match found {
            Some(i) => first_at(roots@, location@) == Some(i as int),
            None => first_at(roots@, location@) is None,
        },
{
    let mut index: usize = 0;
    proof {
        assert(roots@.take(0) =~= Seq::<RawScanRoot>::empty());
    }
    while index < roots.len()
        invariant
            0 <= index <= roots@.len(),
            first_at(roots@.take(index as int), location@) is None,
        decreases roots@.len() - index,
    {
        proof {
            assert(roots@.take(index as int + 1).drop_last() =~= roots@.take(index as int));
        }
        if same_path_exec(&roots[index].path, location) {
            proof {
                lemma_first_at_prefix(roots@, location@, index as int + 1);
            }
            return Some(index);
        }
        index = index + 1;
    }
    proof {
        assert(roots@.take(index as int) =~= roots@);
    }
    None
}

proof fn lemma_first_at_range(roots: Seq<RawScanRoot>, location: Seq<u8>)
    ensures
        first_at(roots, location) matches Some(i) ==> 0 <= i < roots.len() && same_path(
            roots[i].path@,
            location,
        ),
    decreases roots.len(),
{
    if roots.len() > 0 {
        lemma_first_at_range(roots.drop_last(), location);
    }
}

proof fn lemma_first_at_prefix(roots: Seq<RawScanRoot>, location: Seq<u8>, n: int)
    requires
        0 <= n <= roots.len(),
        first_at(roots.take(n), location) is Some,
    ensures
        first_at(roots, location) == first_at(roots.take(n), location),
    decreases roots.len(),
{
    if n < roots.len() {
        assert(roots.drop_last().take(n) =~= roots.take(n));
        lemma_first_at_prefix(roots.drop_last(), location, n);
    } else {
        assert(roots.take(n) =~= roots);
    }
}

/// The bytes of "/".
pub open spec fn root_location() -> Seq<u8> {
    seq![47u8]
}

/// The bytes of "/System/Volumes/Data".
pub open spec fn data_volume_location() -> Seq<u8> {
    seq![
        47u8, 83u8, 121u8, 115u8, 116u8, 101u8, 109u8, 47u8, 86u8, 111u8, 108u8, 117u8, 109u8,
        101u8, 115u8, 47u8, 68u8, 97u8, 116u8, 97u8,
    ]
}

/// On macOS the system volume and its data volume report the same device:
/// when both are mounted with the same name and size, the system entry is
/// dropped and the data volume is shown at "/", while it is still scanned at
/// its own mount point.
pub fn collapse_macos_data_volume(roots: &mut Vec<RawScanRoot>)
    ensures
        match (first_at(old(roots)@, root_location()), first_at(old(roots)@, data_volume_location())) {
            (Some(s), Some(d)) => if old(roots)@[s].name@ == old(roots)@[d].name@ && old(
                roots,
            )@[s].total_bytes == old(roots)@[d].total_bytes {
                final(roots)@ == old(roots)@.update(
                    d,
                    RawScanRoot { display_path: Some(final(roots)@[if s < d { d - 1 } else { d }].display_path.unwrap()), ..old(roots)@[d] },
                ).remove(s) && final(roots)@[if s < d { d - 1 } else { d }].display_path.unwrap()@
                    == root_location()
            } else {
                final(roots)@ == old(roots)@
            },
            _ => final(roots)@ == old(roots)@,
        },
{
    let slash: Vec<u8> = vec![47u8];
    let data: Vec<u8> = vec![
        47u8, 83u8, 121u8, 115u8, 116u8, 101u8, 109u8, 47u8, 86u8, 111u8, 108u8, 117u8, 109u8,
        101u8, 115u8, 47u8, 68u8, 97u8, 116u8, 97u8,
    ];
    assert(slash@ =~= root_location());
    assert(data@ =~= data_volume_location());
    let system_index = first_at_exec(roots, &slash);
    let data_index = first_at_exec(roots, &data);
    let (system_index, data_index) = match (system_index, data_index) {
        (Some(s), Some(d)) => (s, d),
        _ => {
            return;
        },
    };
    proof {
        let r = root_location();
        assert(r.drop_last() =~= Seq::<u8>::empty());
        assert(split_state(r.drop_last()) == (Seq::<Seq<u8>>::empty(), Seq::<u8>::empty()));
        assert(split_state(r) == (Seq::<Seq<u8>>::empty(), Seq::<u8>::empty()));
        assert(segments(r).len() == 0);
        lemma_first_at_range(roots@, root_location());
        lemma_first_at_range(roots@, data_volume_location());
        let d = data_volume_location();
        let (done, current) = split_state(d.drop_last());
        assert(d.last() == 97u8);
        assert(split_state(d).1 == current.push(97u8));
        assert(split_state(d).1 != seq![46u8]) by {
            if current.push(97u8) == seq![46u8] {
                assert(current.push(97u8)[current.len() as int] == 97u8);
            }
        }
        assert(segments(d).len() > 0);
    }
    if roots[system_index].name != roots[data_index].name || roots[system_index].total_bytes
        != roots[data_index].total_bytes {
        return;
    }
    let mut data_root = roots.remove(data_index);
    data_root.display_path = Some(slash);
    roots.insert(data_index, data_root);
    roots.remove(system_index);
}

} // verus!

verus! {

/// A root is offered only when it has a size and an absolute mount point.
pub open spec fn usable(root: RawScanRoot) -> bool {
    root.total_bytes != 0 && is_absolute(root.path@)
}

/// The position of the kept root at the same mount point, if any.
pub open spec fn position_at(kept: Seq<RawScanRoot>, path: Seq<u8>) -> Option<int>
    decreases kept.len(),
{
    if kept.len() == 0 {
        None
    } else if same_path(kept.last().path@, path) {
        Some(kept.len() - 1)
    } else {
        position_at(kept.drop_last(), path)
    }
}

/// The usable roots, one per mount point: the first reported, replaced by a
/// later one only when that one is strictly larger.
pub open spec fn deduplicated(roots: Seq<RawScanRoot>) -> Seq<RawScanRoot>
    decreases roots.len(),
{
    if roots.len() == 0 {
        Seq::empty()
    } else {
        let kept = deduplicated(roots.drop_last());
        let root = roots.last();
        if !usable(root) {
            kept
        } else {
            match position_at(kept, root.path@) {
                Some(i) => if root.total_bytes > kept[i].total_bytes {
                    kept.update(i, root)
                } else {
                    kept
                },
                None => kept.push(root),
            }
        }
    }
}

/// Where a root is shown: its display path when it has one, else its
/// mount point.
pub open spec fn shown_path(root: RawScanRoot) -> Seq<u8> {
    match root.display_path {
        Some(path) => path@,
        None => root.path@,
    }
}

/// The number of components of a path, the root included.
pub open spec fn component_count(path: Seq<u8>) -> int {
    (if is_absolute(path) {
        1int
    } else {
        0int
    }) + segments(path).len()
}

/// Among the first `n` roots, the last of those that contain the
/// executable with the most components.
pub open spec fn deepest_container(roots: Seq<RawScanRoot>, executable: Seq<u8>, n: int) -> Option<int>
    decreases n,
{
    if n <= 0 {
        None
    } else {
        let previous = deepest_container(roots, executable, n - 1);
        if !path_starts_with(executable, shown_path(roots[n - 1])) {
            previous
        } else {
            match previous {
                Some(p) => if component_count(roots[n - 1].path@) >= component_count(roots[p].path@) {
                    Some(n - 1)
                } else {
                    previous
                },
                None => Some(n - 1),
            }
        }
    }
}

/// The system volume: the one holding the running executable, or else the
/// one mounted at "/".
pub open spec fn system_index(roots: Seq<RawScanRoot>, executable: Option<Vec<u8>>) -> Option<int> {
    let by_executable = match executable {
        Some(path) => deepest_container(roots, path@, roots.len() as int),
        None => None,
    };
    match by_executable {
        Some(i) => Some(i),
        None => first_at(roots, root_location()),
    }
}

/// A scan root describes a kept root: its name for people, its paths as
/// text, its sizes with the available space clamped to the total, and its
/// flags.
pub open spec fn describes(item: ScanRoot, root: RawScanRoot, system_path: Option<Seq<u8>>) -> bool {
    let is_system = match system_path {
        Some(path) => same_path(path, root.path@),
        None => false,
    };
    &&& item.name@ == spec_display_name(root.name@, shown_path(root), is_system)
    &&& item.path@ == utf8_lossy(root.path@)
    &&& item.display_path@ == utf8_lossy(shown_path(root))
    &&& item.total_bytes == root.total_bytes
    &&& item.available_bytes == (if root.available_bytes < root.total_bytes {
        root.available_bytes
    } else {
        root.total_bytes
    })
    &&& item.is_removable == root.is_removable
    &&& item.is_read_only == root.is_read_only
}

/// The offering order: the system volume first, then internal before
/// removable storage, then by lowercased name, then by path text.
pub open spec fn root_order(a: ScanRoot, b: ScanRoot, system_text: Option<Seq<char>>) -> Order {
    let a_system = system_text matches Some(text) && a.path@ == text;
    let b_system = system_text matches Some(text) && b.path@ == text;
    int_order(
        if a_system {
            0int
        } else {
            1int
        },
        if b_system {
            0int
        } else {
            1int
        },
    ).and_next(
        int_order(
            if a.is_removable {
                1int
            } else {
                0int
            },
            if b.is_removable {
                1int
            } else {
                0int
            },
        ),
    ).and_next(
        bytes_order(
            vstd::utf8::encode_utf8(lowercase(a.name@)),
            vstd::utf8::encode_utf8(lowercase(b.name@)),
        ),
    ).and_next(bytes_order(vstd::utf8::encode_utf8(a.path@), vstd::utf8::encode_utf8(b.path@)))
}

proof fn lemma_bytes_order_facts(a: Seq<u8>, b: Seq<u8>, c: Seq<u8>)
    ensures
        bytes_order(b, a) == bytes_order(a, b).flip(),
        bytes_order(a, b) == Order::Equal <==> a == b,
        bytes_order(a, b) != Order::Greater && bytes_order(b, c) != Order::Greater ==> bytes_order(
            a,
            c,
        ) != Order::Greater,
{
    crate::text::lemma_lex_order_flip(byte_ints(a), byte_ints(b));
    crate::text::lemma_lex_order_equal(byte_ints(a), byte_ints(b));
    crate::text::lemma_lex_order_equal(byte_ints(b), byte_ints(c));
    crate::text::lemma_lex_order_equal(byte_ints(a), byte_ints(c));
    if a == b {
        assert(byte_ints(a) == byte_ints(b));
    }
    if byte_ints(a) == byte_ints(b) {
        assert(a =~= b) by {
            assert forall|i: int| 0 <= i < a.len() implies a[i] == b[i] by {
                assert(byte_ints(a)[i] == byte_ints(b)[i]);
            }
        }
    }
    if bytes_order(a, b) == Order::Less && bytes_order(b, c) == Order::Less {
        crate::text::lemma_lex_order_transitive(byte_ints(a), byte_ints(b), byte_ints(c));
    }
}

proof fn lemma_root_order_facts(a: ScanRoot, b: ScanRoot, c: ScanRoot, system_text: Option<Seq<char>>)
    ensures
        root_order(b, a, system_text) == root_order(a, b, system_text).flip(),
        root_order(a, b, system_text) != Order::Greater && root_order(b, c, system_text)
            != Order::Greater ==> root_order(a, c, system_text) != Order::Greater,
{
    let la = vstd::utf8::encode_utf8(lowercase(a.name@));
    let lb = vstd::utf8::encode_utf8(lowercase(b.name@));
    let lc = vstd::utf8::encode_utf8(lowercase(c.name@));
    let pa = vstd::utf8::encode_utf8(a.path@);
    let pb = vstd::utf8::encode_utf8(b.path@);
    let pc = vstd::utf8::encode_utf8(c.path@);
    lemma_bytes_order_facts(la, lb, lc);
    lemma_bytes_order_facts(lb, lc, la);
    lemma_bytes_order_facts(la, lc, lb);
    lemma_bytes_order_facts(pa, pb, pc);
    lemma_bytes_order_facts(pb, pc, pa);
    lemma_bytes_order_facts(pa, pc, pb);
}

} // verus!

verus! {

fn position_at_exec(kept: &Vec<RawScanRoot>, path: &Vec<u8>) -> (found: Option<usize>)
    ensures
        match found {
            Some(i) => position_at(kept@, path@) == Some(i as int),
            None => position_at(kept@, path@) is None,
        },
        found matches Some(i) ==> i < kept@.len(),
{
    let mut end: usize = kept.len();
    proof {
        assert(kept@.take(end as int) =~= kept@);
    }
    while end > 0
        invariant
            0 <= end <= kept@.len(),
            position_at(kept@, path@) == position_at(kept@.take(end as int), path@),
        decreases end,
    {
        proof {
            assert(kept@.take(end as int).drop_last() =~= kept@.take(end as int - 1));
            assert(kept@.take(end as int).last() == kept@[end as int - 1]);
        }
        if same_path_exec(&kept[end - 1].path, path) {
            return Some(end - 1);
        }
        end = end - 1;
    }
    None
}

fn shown_path_exec(root: &RawScanRoot) -> (path: &Vec<u8>)
    ensures
        path@ == shown_path(*root),
{
    match &root.display_path {
        Some(path) => path,
        None => &root.path,
    }
}

fn component_count_exec(path: &Vec<u8>) -> (count: u128)
    ensures
        count == component_count(path@),
{
    let parts = path_segments(path);
    proof {
        assert(parts@.map_values(|s: Vec<u8>| s@).len() == parts@.len());
    }
    if absolute(path) {
        parts.len() as u128 + 1
    } else {
        parts.len() as u128
    }
}

fn system_index_exec(roots: &Vec<RawScanRoot>, executable: &Option<Vec<u8>>) -> (found: Option<usize>)
    ensures
        match found {
            Some(i) => system_index(roots@, *executable) == Some(i as int),
            None => system_index(roots@, *executable) is None,
        },
        found matches Some(i) ==> i < roots@.len(),
{
    let mut best: Option<usize> = None;
    if let Some(path) = executable {
        let mut best_count: u128 = 0;
        let mut index: usize = 0;
        while index < roots.len()
            invariant
                0 <= index <= roots@.len(),
                match best {
                    Some(b) => deepest_container(roots@, path@, index as int) == Some(b as int) && b
                        < index && best_count == component_count(roots@[b as int].path@),
                    None => deepest_container(roots@, path@, index as int) is None,
                },
            decreases roots@.len() - index,
        {
            let root = &roots[index];
            if starts_with_path(path, shown_path_exec(root)) {
                let count = component_count_exec(&root.path);
                match best {
                    Some(_) => {
                        if count >= best_count {
                            best = Some(index);
                            best_count = count;
                        }
                    },
                    None => {
                        best = Some(index);
                        best_count = count;
                    },
                }
            }
            index = index + 1;
        }
    }
    match best {
        Some(b) => Some(b),
        None => {
            let slash: Vec<u8> = vec![47u8];
            assert(slash@ =~= root_location());
            let found = first_at_exec(roots, &slash);
            proof {
                lemma_first_at_range(roots@, root_location());
            }
            found
        },
    }
}

fn compare_roots(a: &ScanRoot, b: &ScanRoot, system_text: &Option<String>) -> (order: Order)
    ensures
        order == root_order(
            *a,
            *b,
            match system_text {
                Some(text) => Some(text@),
                None => None,
            },
        ),
{
    let a_system = match system_text {
        Some(text) => a.path == *text,
        None => false,
    };
    let b_system = match system_text {
        Some(text) => b.path == *text,
        None => false,
    };
    if a_system != b_system {
        return if a_system {
            Order::Less
        } else {
            Order::Greater
        };
    }
    if a.is_removable != b.is_removable {
        return if a.is_removable {
            Order::Greater
        } else {
            Order::Less
        };
    }
    let a_lower = to_lowercase(a.name.as_str());
    let b_lower = to_lowercase(b.name.as_str());
    let a_lower_bytes = text_bytes(a_lower.as_str());
    let b_lower_bytes = text_bytes(b_lower.as_str());
    match compare_bytes(a_lower_bytes.as_slice(), b_lower_bytes.as_slice()) {
        Order::Equal => {},
        other => {
            return other;
        },
    }
    let a_path = text_bytes(a.path.as_str());
    let b_path = text_bytes(b.path.as_str());
    compare_bytes(a_path.as_slice(), b_path.as_slice())
}

fn describe_root(root: &RawScanRoot, system_path: &Option<Vec<u8>>) -> (item: ScanRoot)
    ensures
        describes(
            item,
            *root,
            match system_path {
                Some(p) => Some(p@),
                None => None,
            },
        ),
{
    let is_system = match system_path {
        Some(path) => same_path_exec(path, &root.path),
        None => false,
    };
    let shown = shown_path_exec(root);
    ScanRoot {
        name: display_name(root.name.as_str(), shown, is_system),
        path: lossy_text(root.path.as_slice()),
        display_path: lossy_text(shown.as_slice()),
        total_bytes: root.total_bytes,
        available_bytes: if root.available_bytes < root.total_bytes {
            root.available_bytes
        } else {
            root.total_bytes
        },
        is_removable: root.is_removable,
        is_read_only: root.is_read_only,
    }
}

/// The roots offered for scanning: the usable roots, one per mount point,
/// each described for people, in offering order.
pub fn normalize_scan_roots(roots: Vec<RawScanRoot>, current_executable: Option<Vec<u8>>) -> (offered:
    Vec<ScanRoot>)
    ensures
        ({
            let kept = deduplicated(roots@);
            let system_path = match system_index(kept, current_executable) {
                Some(i) => Some(kept[i].path@),
                None => None,
            };
            let system_text = match system_path {
                Some(p) => Some(utf8_lossy(p)),
                None => None,
            };
            &&& exists|items: Seq<ScanRoot>|
                {
                    &&& items.len() == kept.len()
                    &&& forall|i: int|
                        0 <= i < kept.len() ==> #[trigger] describes(items[i], kept[i], system_path)
                    &&& offered@.to_multiset() == items.to_multiset()
                }
            &&& offered@.len() == kept.len()
            &&& forall|i: int, j: int|
                0 <= i < j < offered@.len() ==> root_order(offered@[i], offered@[j], system_text)
                    != Order::Greater
        }),
{
    let ghost original = roots@;
    let total = roots.len();
    let mut remaining = roots;
    let mut kept: Vec<RawScanRoot> = Vec::new();
    let mut consumed: usize = 0;
    proof {
        assert(original.take(0) =~= Seq::<RawScanRoot>::empty());
        assert(remaining@ =~= original.skip(0));
    }
    while remaining.len() > 0
        invariant
            0 <= consumed <= original.len(),
            original.len() == total,
            remaining@ == original.skip(consumed as int),
            kept@ == deduplicated(original.take(consumed as int)),
        decreases remaining@.len(),
    {
        let root = remaining.remove(0);
        proof {
            assert(root == original[consumed as int]);
            assert(original.take(consumed as int + 1).drop_last() =~= original.take(consumed as int));
            assert(original.take(consumed as int + 1).last() == root);
        }
        if root.total_bytes != 0 && absolute(&root.path) {
            match position_at_exec(&kept, &root.path) {
                Some(i) => {
                    if root.total_bytes > kept[i].total_bytes {
                        kept.set(i, root);
                    }
                },
                None => {
                    kept.push(root);
                },
            }
        }
        consumed = consumed + 1;
        proof {
            assert(remaining@ =~= original.skip(consumed as int));
        }
    }
    proof {
        assert(original.take(consumed as int) =~= original);
    }
    let system = system_index_exec(&kept, &current_executable);
    let system_path: Option<Vec<u8>> = match system {
        Some(i) => Some(kept[i].path.clone()),
        None => None,
    };
    let system_text: Option<String> = match &system_path {
        Some(p) => Some(lossy_text(p.as_slice())),
        None => None,
    };
    let ghost system_spec = match &system_path {
        Some(p) => Some(p@),
        None => None::<Seq<u8>>,
    };
    let ghost text_spec = match &system_text {
        Some(t) => Some(t@),
        None => None::<Seq<char>>,
    };
    let mut items: Vec<ScanRoot> = Vec::new();
    let mut index: usize = 0;
    while index < kept.len()
        invariant
            0 <= index <= kept@.len(),
            items@.len() == index,
            system_spec == (match system_path {
                Some(p) => Some(p@),
                None => None::<Seq<u8>>,
            }),
            forall|i: int| 0 <= i < index ==> #[trigger] describes(items@[i], kept@[i], system_spec),
        decreases kept@.len() - index,
    {
        items.push(describe_root(&kept[index], &system_path));
        index = index + 1;
    }
    let mut offered: Vec<ScanRoot> = Vec::new();
    let mut taken: usize = 0;
    let item_count = items.len();
    let ghost all = items@;
    proof {
        assert(all.take(0) =~= Seq::<ScanRoot>::empty());
        assert(items@ =~= all.skip(0));
    }
    while items.len() > 0
        invariant
            0 <= taken <= all.len(),
            all.len() <= usize::MAX,
            text_spec == (match system_text {
                Some(t) => Some(t@),
                None => None::<Seq<char>>,
            }),
            items@ == all.skip(taken as int),
            offered@.to_multiset() == all.take(taken as int).to_multiset(),
            offered@.len() == taken,
            forall|i: int, j: int|
                0 <= i < j < offered@.len() ==> root_order(offered@[i], offered@[j], text_spec)
                    != Order::Greater,
        decreases items@.len(),
    {
        let item = items.remove(0);
        proof {
            assert(item == all[taken as int]);
        }
        let mut position: usize = 0;
        while position < offered.len() && compare_roots(&offered[position], &item, &system_text)
            != Order::Greater
            invariant
                0 <= position <= offered@.len(),
                text_spec == (match system_text {
                    Some(t) => Some(t@),
                    None => None::<Seq<char>>,
                }),
                forall|i: int|
                    0 <= i < position ==> root_order(offered@[i], item, text_spec) != Order::Greater,
            decreases offered@.len() - position,
        {
            position = position + 1;
        }
        proof {
            assert forall|i: int| position <= i < offered@.len() implies root_order(
                item,
                offered@[i],
                text_spec,
            ) != Order::Greater by {
                if position < offered@.len() {
                    lemma_root_order_facts(offered@[position as int], item, offered@[i], text_spec);
                    lemma_root_order_facts(item, offered@[position as int], offered@[i], text_spec);
                }
            }
            assert(all.take(taken as int + 1) =~= all.take(taken as int).push(item));
            vstd::seq_lib::to_multiset_build(all.take(taken as int), item);
        }
        let ghost before = offered@;
        offered.insert(position, item);
        proof {
            vstd::seq_lib::to_multiset_insert(before, position as int, item);
            assert(offered@ == before.insert(position as int, item));
            assert forall|i: int, j: int|
                0 <= i < j < offered@.len() implies root_order(offered@[i], offered@[j], text_spec)
                != Order::Greater by {
                if j < position {
                    assert(offered@[i] == before[i] && offered@[j] == before[j]);
                } else if j == position {
                    assert(offered@[i] == before[i]);
                } else if i < position {
                    assert(offered@[i] == before[i] && offered@[j] == before[j - 1]);
                    lemma_root_order_facts(before[i], item, before[j - 1], text_spec);
                } else if i == position {
                    assert(offered@[j] == before[j - 1]);
                } else {
                    assert(offered@[i] == before[i - 1] && offered@[j] == before[j - 1]);
                }
            }
        }
        taken = taken + 1;
        proof {
            assert(items@ =~= all.skip(taken as int));
        }
    }
    proof {
        assert(all.take(taken as int) =~= all);
        assert(system_spec == (match system_index(kept@, current_executable) {
            Some(i) => Some(kept@[i].path@),
            None => None::<Seq<u8>>,
        }));
    }
    offered
}

} // verus!

//! The records a scan reports: progress, results, folder views and search
//! results, and the measurements the benchmarks return.
use vstd::prelude::*;

verus! {

/// What a scanned filesystem entry is. Links are never followed.
#[derive(Clone, Copy, Debug, PartialEq, Eq, Structural)]
pub enum EntryKind {
    Directory,
    File,
    Symlink,
    Other,
}

/// Which byte count orders and filters a view.
#[derive(Clone, Copy, Debug, PartialEq, Eq, Structural)]
pub enum SizeMetric {
    Allocated,
    Logical,
}

/// Whether the scan is still traversing or is aggregating the finished tree.
#[derive(Clone, Copy, Debug, PartialEq, Eq, Structural)]
pub enum ScanPhase {
    Scanning,
    Finishing,
}

/// One entry of a folder listing or a ranking.
#[derive(Clone, Debug)]
pub struct ScanItem {
    pub id: u64,
    pub name: String,
    pub kind: EntryKind,
    pub logical_bytes: u64,
    pub allocated_bytes: u64,
    pub file_count: u64,
    pub directory_count: u64,
}

/// One step of the path from the scan root to an open folder.
#[derive(Clone, Debug)]
pub struct Breadcrumb {
    pub id: u64,
    pub name: String,
}

/// One segment of the bounded storage chart; an aggregate segment has no id.
#[derive(Debug)]
pub struct ChartItem {
    pub id: Option<u64>,
    pub name: String,
    pub kind: EntryKind,
    pub logical_bytes: u64,
    pub allocated_bytes: u64,
    pub children: Vec<ChartItem>,
}

/// The number of chart segments in an item and all of its descendants.
pub open spec fn spec_chart_item_count(item: ChartItem) -> nat
    decreases item,
{
    1 + spec_chart_items_count(item.children@)
}

/// The number of chart segments in a list of items and their descendants.
pub open spec fn spec_chart_items_count(items: Seq<ChartItem>) -> nat
    decreases items,
{
    if items.len() == 0 {
        0
    } else {
        spec_chart_items_count(items.drop_last()) + spec_chart_item_count(items.last())
    }
}

/// Counts the chart segments of an item and its descendants.
pub fn chart_item_count(item: &ChartItem) -> (count: usize)
    requires
        spec_chart_item_count(*item) <= usize::MAX,
    ensures
        count == spec_chart_item_count(*item),
    decreases *item,
{
    let mut total: usize = 1;
    let mut index: usize = 0;
    while index < item.children.len()
        invariant
            0 <= index <= item.children.len(),
            spec_chart_item_count(*item) <= usize::MAX,
            spec_chart_item_count(*item) == 1 + spec_chart_items_count(item.children@),
            total == 1 + spec_chart_items_count(item.children@.take(index as int)),
        decreases item.children.len() - index,
    {
        proof {
            assert(item.children@.take(index as int + 1).drop_last() =~= item.children@.take(
                index as int,
            ));
            lemma_chart_items_count_prefix(item.children@, index as int + 1);
        }
        let child = &item.children[index];
        proof {
            assert(decreases_to!(*item => item.children));
            assert(decreases_to!(item.children => item.children@[index as int]));
        }
        let child_count = chart_item_count(child);
        total = total + child_count;
        index = index + 1;
    }
    proof {
        assert(item.children@.take(index as int) =~= item.children@);
    }
    total
}

proof fn lemma_chart_items_count_prefix(items: Seq<ChartItem>, k: int)
    requires
        0 <= k <= items.len(),
    ensures
        spec_chart_items_count(items.take(k)) <= spec_chart_items_count(items),
    decreases items.len(),
{
    if k < items.len() {
        assert(items.drop_last().take(k) =~= items.take(k));
        lemma_chart_items_count_prefix(items.drop_last(), k);
    } else {
        assert(items.take(k) =~= items);
    }
}

/// A bounded, ranked view of one scanned folder.
#[derive(Debug)]
pub struct DirectoryView {
    pub scan_id: u64,
    pub node_id: u64,
    pub root: String,
    pub path: String,
    pub display_name: String,
    pub logical_bytes: u64,
    pub allocated_bytes: u64,
    pub total_items: usize,
    pub suppressed_items: usize,
    pub items_truncated: bool,
    pub breadcrumbs: Vec<Breadcrumb>,
    pub items: Vec<ScanItem>,
    pub chart_items: Vec<ChartItem>,
}

/// The bounded result of searching the direct children of a folder by name.
#[derive(Clone, Debug)]
pub struct DirectorySearchResult {
    pub scan_id: u64,
    pub node_id: u64,
    pub query: String,
    pub metric: SizeMetric,
    pub total_matches: usize,
    pub items_truncated: bool,
    pub items: Vec<ScanItem>,
}

/// A progress report published while a scan runs.
#[derive(Clone, Debug)]
pub struct ScanProgress {
    pub phase: ScanPhase,
    pub entries_scanned: u64,
    pub files_scanned: u64,
    pub directories_scanned: u64,
    pub logical_bytes: u64,
    pub allocated_bytes: u64,
    pub skipped_entries: u64,
    pub current_path: String,
    pub elapsed_ms: u64,
    pub largest_items: Vec<ScanItem>,
}

/// The totals and semantics of a completed scan.
#[derive(Clone, Debug)]
pub struct ScanResult {
    pub root: String,
    pub display_name: String,
    pub backend: &'static str,
    pub logical_bytes: u64,
    pub allocated_bytes: u64,
    pub file_count: u64,
    pub directory_count: u64,
    pub skipped_entries: u64,
    pub skipped_filesystems: u64,
    pub skipped_cloud_entries: u64,
    pub duplicate_hard_links: u64,
    pub traversal_us: u64,
    pub aggregation_us: u64,
    pub indexing_us: u64,
    pub elapsed_ms: u64,
    pub allocated_size_is_estimate: bool,
    pub hard_link_deduplication_supported: bool,
    pub same_filesystem_enforced: bool,
}

/// The names of the accounting fields on which two results differ, in field
/// order; backend identity and timings are never compared.
pub open spec fn spec_accounting_mismatches(a: ScanResult, b: ScanResult) -> Seq<Seq<char>> {
    Seq::<Seq<char>>::empty()
        + (if a.root@ != b.root@ { seq!["root"@] } else { Seq::empty() })
        + (if a.display_name@ != b.display_name@ { seq!["display_name"@] } else { Seq::empty() })
        + (if a.logical_bytes != b.logical_bytes { seq!["logical_bytes"@] } else { Seq::empty() })
        + (if a.allocated_bytes != b.allocated_bytes { seq!["allocated_bytes"@] } else { Seq::empty() })
        + (if a.file_count != b.file_count { seq!["file_count"@] } else { Seq::empty() })
        + (if a.directory_count != b.directory_count { seq!["directory_count"@] } else { Seq::empty() })
        + (if a.skipped_entries != b.skipped_entries { seq!["skipped_entries"@] } else { Seq::empty() })
        + (if a.skipped_filesystems != b.skipped_filesystems { seq!["skipped_filesystems"@] } else { Seq::empty() })
        + (if a.skipped_cloud_entries != b.skipped_cloud_entries { seq!["skipped_cloud_entries"@] } else { Seq::empty() })
        + (if a.duplicate_hard_links != b.duplicate_hard_links { seq!["duplicate_hard_links"@] } else { Seq::empty() })
        + (if a.allocated_size_is_estimate != b.allocated_size_is_estimate { seq!["allocated_size_is_estimate"@] } else { Seq::empty() })
        + (if a.hard_link_deduplication_supported != b.hard_link_deduplication_supported { seq!["hard_link_deduplication_supported"@] } else { Seq::empty() })
        + (if a.same_filesystem_enforced != b.same_filesystem_enforced { seq!["same_filesystem_enforced"@] } else { Seq::empty() })
}

/// The views of a list of static strings.
pub open spec fn str_views(names: Seq<&'static str>) -> Seq<Seq<char>> {
    names.map_values(|name: &'static str| name@)
}

fn push_if(names: &mut Vec<&'static str>, differs: bool, name: &'static str)
    ensures
        str_views(final(names)@) == str_views(old(names)@) + (if differs {
            seq![name@]
        } else {
            Seq::<Seq<char>>::empty()
        }),
{
    if differs {
        names.push(name);
    }
    assert(str_views(final(names)@) =~= str_views(old(names)@) + (if differs {
        seq![name@]
    } else {
        Seq::<Seq<char>>::empty()
    }));
}

impl ScanResult {
    /// Returns the correctness-relevant fields that differ, excluding backend
    /// identity and timing measurements.
    pub fn accounting_mismatches(&self, other: &Self) -> (mismatches: Vec<&'static str>)
        ensures
            str_views(mismatches@) == spec_accounting_mismatches(*self, *other),
    {
        let mut mismatches: Vec<&'static str> = Vec::new();
        assert(str_views(mismatches@) =~= Seq::<Seq<char>>::empty());
        push_if(&mut mismatches, !(self.root == other.root), "root");
        push_if(&mut mismatches, !(self.display_name == other.display_name), "display_name");
        push_if(&mut mismatches, self.logical_bytes != other.logical_bytes, "logical_bytes");
        push_if(&mut mismatches, self.allocated_bytes != other.allocated_bytes, "allocated_bytes");
        push_if(&mut mismatches, self.file_count != other.file_count, "file_count");
        push_if(&mut mismatches, self.directory_count != other.directory_count, "directory_count");
        push_if(&mut mismatches, self.skipped_entries != other.skipped_entries, "skipped_entries");
        push_if(
            &mut mismatches,
            self.skipped_filesystems != other.skipped_filesystems,
            "skipped_filesystems",
        );
        push_if(
            &mut mismatches,
            self.skipped_cloud_entries != other.skipped_cloud_entries,
            "skipped_cloud_entries",
        );
        push_if(
            &mut mismatches,
            self.duplicate_hard_links != other.duplicate_hard_links,
            "duplicate_hard_links",
        );
        push_if(
            &mut mismatches,
            self.allocated_size_is_estimate != other.allocated_size_is_estimate,
            "allocated_size_is_estimate",
        );
        push_if(
            &mut mismatches,
            self.hard_link_deduplication_supported != other.hard_link_deduplication_supported,
            "hard_link_deduplication_supported",
        );
        push_if(
            &mut mismatches,
            self.same_filesystem_enforced != other.same_filesystem_enforced,
            "same_filesystem_enforced",
        );
        mismatches
    }
}

/// Which traversal implementation a scan uses.
#[derive(Clone, Copy, Debug, PartialEq, Eq, Structural)]
pub enum ScanBackend {
    Auto,
    Jwalk,
    Getattrlistbulk,
    Mft,
    Statx,
}

impl ScanBackend {
    /// The stable wire name of the backend.
    pub open spec fn spec_name(self) -> Seq<char> {
        match self {
            ScanBackend::Auto => "auto"@,
            ScanBackend::Jwalk => "jwalk"@,
            ScanBackend::Getattrlistbulk => "getattrlistbulk"@,
            ScanBackend::Mft => "mft"@,
            ScanBackend::Statx => "statx"@,
        }
    }

    /// Returns the stable wire name of the backend.
    pub fn as_str(self) -> (name: &'static str)
        ensures
            name@ == self.spec_name(),
    {
        match self {
            ScanBackend::Auto => "auto",
            ScanBackend::Jwalk => "jwalk",
            ScanBackend::Getattrlistbulk => "getattrlistbulk",
            ScanBackend::Mft => "mft",
            ScanBackend::Statx => "statx",
        }
    }

    /// Parses a wire name; anything else is rejected with a message.
    pub fn parse(value: &str) -> (r: Result<ScanBackend, String>)
        ensures
            match r {
                Ok(backend) => backend.spec_name() == value@,
                Err(message) => (forall|backend: ScanBackend| backend.spec_name() != value@)
                    && message@ == unknown_backend_text(value@),
            },
    {
        let all = [
            ScanBackend::Auto,
            ScanBackend::Jwalk,
            ScanBackend::Getattrlistbulk,
            ScanBackend::Mft,
            ScanBackend::Statx,
        ];
        let mut index: usize = 0;
        while index < 5
            invariant
                0 <= index <= 5,
                all@ == seq![
                    ScanBackend::Auto,
                    ScanBackend::Jwalk,
                    ScanBackend::Getattrlistbulk,
                    ScanBackend::Mft,
                    ScanBackend::Statx,
                ],
                forall|k: int| 0 <= k < index ==> all@[k].spec_name() != value@,
            decreases 5 - index,
        {
            let backend = all[index];
            if crate::text::str_eq(backend.as_str(), value) {
                return Ok(backend);
            }
            index = index + 1;
        }
        proof {
            assert forall|backend: ScanBackend| backend.spec_name() != value@ by {
                match backend {
                    ScanBackend::Auto => assert(all@[0] == backend),
                    ScanBackend::Jwalk => assert(all@[1] == backend),
                    ScanBackend::Getattrlistbulk => assert(all@[2] == backend),
                    ScanBackend::Mft => assert(all@[3] == backend),
                    ScanBackend::Statx => assert(all@[4] == backend),
                }
            }
        }
        Err(unknown_backend_message(value))
    }
}

/// What the `Debug` formatting of a string writes: the text in double
/// quotes, with quotes, backslashes and unprintable characters escaped.
pub uninterp spec fn debug_quoted(text: Seq<char>) -> Seq<char>;

/// The rejection of an unknown backend name.
pub open spec fn unknown_backend_text(value: Seq<char>) -> Seq<char> {
    "unknown backend "@ + debug_quoted(value)
        + "; expected auto, jwalk, getattrlistbulk, mft, or statx"@
}

/// Calls `format!` with the name in its `Debug` form to reject an unknown
/// backend name.
#[verifier::external_body]
fn unknown_backend_message(value: &str) -> (message: String)
    ensures
        message@ == "unknown backend "@ + debug_quoted(value@)
            + "; expected auto, jwalk, getattrlistbulk, mft, or statx"@,
{
    format!("unknown backend {value:?}; expected auto, jwalk, getattrlistbulk, mft, or statx")
}

/// The timing of a name search over the retained scan.
#[derive(Clone, Debug)]
pub struct SearchMeasurement {
    pub elapsed_us: u64,
    pub total_matches: usize,
    pub returned_items: usize,
    pub items_truncated: bool,
}

/// The size and cost of serializing the first response of a scan.
#[derive(Clone, Debug)]
pub struct InitialResponseMeasurement {
    pub response_bytes: usize,
    pub serialization_us: u64,
    pub list_items: usize,
    pub chart_items: usize,
}

/// How quickly a traversal returns after cancellation is requested.
#[derive(Clone, Debug)]
pub struct CancellationMeasurement {
    pub entries_at_request: u64,
    pub scan_elapsed_us: u64,
    pub cancellation_latency_us: u64,
}

/// How quickly aggregation returns after cancellation is requested.
#[derive(Clone, Debug)]
pub struct AggregationCancellationMeasurement {
    pub nodes_at_request: usize,
    pub nodes_at_return: usize,
    pub foreground_elapsed_us: u64,
    pub cancellation_latency_us: u64,
    pub background_release_us: u64,
}

/// The cost of hashing a file's content, completed or cancelled.
#[derive(Clone, Debug)]
pub struct ContentIntegrityMeasurement {
    pub logical_bytes: u64,
    pub bytes_read: u64,
    pub elapsed_us: u64,
    pub cancelled: bool,
    pub cancel_requested_at_bytes: Option<u64>,
    pub cancellation_latency_us: Option<u64>,
}

} // verus!

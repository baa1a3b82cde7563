//! Parsing the version-2 USN records that an NTFS master file table
//! enumeration returns, and naming the filesystem drivers to refuse.
use vstd::prelude::*;
use vstd::string::StringExecFns;

verus! {

/// The bytes before the first record: the continuation reference.
pub const CONTINUATION_BYTES: usize = 8;
/// The fixed part of a version-2 record.
pub const V2_FIXED_BYTES: usize = 60;

/// One enumerated file: its reference, its parent's reference, its
/// attributes and its UTF-16 name.
#[derive(Clone, Debug)]
pub struct Record {
    pub reference: u64,
    pub parent_reference: u64,
    pub attributes: u32,
    pub name: Vec<u16>,
}

/// Why a batch could not be parsed.
#[derive(Clone, Copy, Debug, PartialEq, Eq, Structural)]
pub enum ParseError {
    TruncatedContinuation,
    TruncatedRecord,
    InvalidRecordLength,
    UnsupportedVersion(u16),
    InvalidNameRange,
}

/// A little-endian 16-bit value at an offset.
pub open spec fn le16(bytes: Seq<u8>, at: int) -> int {
    bytes[at] + 256 * bytes[at + 1]
}

/// A little-endian 32-bit value at an offset.
pub open spec fn le32(bytes: Seq<u8>, at: int) -> int {
    le16(bytes, at) + 65536 * le16(bytes, at + 2)
}

/// A little-endian 64-bit value at an offset.
pub open spec fn le64(bytes: Seq<u8>, at: int) -> int {
    le32(bytes, at) + 4294967296 * le32(bytes, at + 4)
}

/// The UTF-16 units of a little-endian byte string.
pub open spec fn utf16_units(bytes: Seq<u8>) -> Seq<u16> {
    Seq::new(bytes.len() / 2, |i: int| le16(bytes, 2 * i) as u16)
}

/// What a record holds, as parsed.
pub struct RecordView {
    pub reference: u64,
    pub parent_reference: u64,
    pub attributes: u32,
    pub name: Seq<u16>,
}

/// The record that starts at `offset`, and its length, or the reason it
/// cannot be read. The length field must cover the fixed part and stay in
/// the batch; only version 2 is read; the name must lie after the fixed part,
/// inside the record, and hold whole UTF-16 units.
pub open spec fn record_at(bytes: Seq<u8>, offset: int) -> Result<(RecordView, int), ParseError> {
    if offset + 4 > bytes.len() {
        Err(ParseError::TruncatedRecord)
    } else {
        let length = le32(bytes, offset);
        if length < V2_FIXED_BYTES || length > bytes.len() - offset {
            Err(ParseError::InvalidRecordLength)
        } else {
            let record = bytes.subrange(offset, offset + length);
            let major = le16(record, 4);
            if major != 2 {
                Err(ParseError::UnsupportedVersion(major as u16))
            } else {
                let name_length = le16(record, 56);
                let name_offset = le16(record, 58);
                if name_offset < V2_FIXED_BYTES || name_offset + name_length > length
                    || name_length % 2 != 0 {
                    Err(ParseError::InvalidNameRange)
                } else {
                    Ok(
                        (
                            RecordView {
                                reference: le64(record, 8) as u64,
                                parent_reference: le64(record, 16) as u64,
                                attributes: le32(record, 52) as u32,
                                name: utf16_units(
                                    record.subrange(name_offset, name_offset + name_length),
                                ),
                            },
                            length,
                        ),
                    )
                }
            }
        }
    }
}

/// The records of a batch from `offset` on, or the first reason one cannot
/// be read.
pub open spec fn records_from(bytes: Seq<u8>, offset: int) -> Result<Seq<RecordView>, ParseError>
    decreases bytes.len() - offset,
{
    if offset >= bytes.len() {
        Ok(Seq::empty())
    } else {
        match record_at(bytes, offset) {
            Err(error) => Err(error),
            Ok((record, length)) => if length <= 0 {
                Err(ParseError::InvalidRecordLength)
            } else {
                match records_from(bytes, offset + length) {
                    Err(error) => Err(error),
                    Ok(rest) => Ok(seq![record] + rest),
                }
            },
        }
    }
}

/// A record describes a parsed record view.
pub open spec fn record_matches(record: Record, view: RecordView) -> bool {
    &&& record.reference == view.reference
    &&& record.parent_reference == view.parent_reference
    &&& record.attributes == view.attributes
    &&& record.name@ == view.name
}

/// What parsing a batch yields: the continuation reference and the kept
/// records, in batch order, when every record is well formed; otherwise the
/// first reason one is not.
pub open spec fn batch_parsed(bytes: Seq<u8>, r: Result<(u64, Vec<Record>), ParseError>) -> bool {
    let parsed = records_from(bytes, CONTINUATION_BYTES as int);
    if bytes.len() < CONTINUATION_BYTES {
        r == Err::<(u64, Vec<Record>), ParseError>(ParseError::TruncatedContinuation)
    } else if parsed is Err {
        r is Err && r->Err_0 == parsed->Err_0
    } else {
        &&& r is Ok
        &&& r->Ok_0.0 == le64(bytes, 0)
        &&& exists|kept: Seq<int>| #[trigger] kept_records(r->Ok_0.1@, parsed->Ok_0, kept)
    }
}

proof fn lemma_batch_ok(
    bytes: Seq<u8>,
    continuation: u64,
    records: Vec<Record>,
    views: Seq<RecordView>,
    kept: Seq<int>,
)
    requires
        bytes.len() >= CONTINUATION_BYTES,
        records_from(bytes, CONTINUATION_BYTES as int) == Ok::<Seq<RecordView>, ParseError>(views),
        continuation == le64(bytes, 0),
        kept_records(records@, views, kept),
    ensures
        batch_parsed(bytes, Ok((continuation, records))),
{
    let r = Ok::<(u64, Vec<Record>), ParseError>((continuation, records));
    let parsed = records_from(bytes, CONTINUATION_BYTES as int);
    assert(!(parsed is Err));
    assert(parsed->Ok_0 == views);
    assert(r is Ok);
    assert(r->Ok_0.0 == le64(bytes, 0));
    assert(r->Ok_0.1 == records);
    assert(kept_records(r->Ok_0.1@, parsed->Ok_0, kept));
    assert(batch_parsed(bytes, r));
}

/// The records are the views at strictly increasing positions `kept`.
pub open spec fn kept_records(records: Seq<Record>, views: Seq<RecordView>, kept: Seq<int>) -> bool {
    &&& kept.len() == records.len()
    &&& forall|i: int, j: int| 0 <= i < j < kept.len() ==> kept[i] < kept[j]
    &&& forall|i: int|
        0 <= i < kept.len() ==> 0 <= #[trigger] kept[i] < views.len() && record_matches(
            records[i],
            views[kept[i]],
        )
}

pub(crate) fn read_le16(bytes: &[u8], at: usize) -> (value: u16)
    requires
        at + 2 <= bytes@.len(),
    ensures
        value == le16(bytes@, at as int),
{
    (bytes[at] as u16) + 256 * (bytes[at + 1] as u16)
}

pub(crate) fn read_le32(bytes: &[u8], at: usize) -> (value: u32)
    requires
        at + 4 <= bytes@.len(),
    ensures
        value == le32(bytes@, at as int),
{
    let len = bytes.len();
    assert(at + 4 <= len);
    let low = read_le16(bytes, at) as u32;
    let high = read_le16(bytes, at + 2) as u32;
    assert(high <= 65535 && low <= 65535);
    assert(65536 * high + low <= 4294967295) by (nonlinear_arith)
        requires
            high <= 65535,
            low <= 65535,
    ;
    low + 65536 * high
}

pub(crate) fn read_le64(bytes: &[u8], at: usize) -> (value: u64)
    requires
        at + 8 <= bytes@.len(),
    ensures
        value == le64(bytes@, at as int),
{
    let len = bytes.len();
    assert(at + 8 <= len);
    let low = read_le32(bytes, at) as u64;
    let high = read_le32(bytes, at + 4) as u64;
    assert(4294967296 * high + low <= 18446744073709551615) by (nonlinear_arith)
        requires
            high <= 4294967295,
            low <= 4294967295,
    ;
    low + 4294967296 * high
}

proof fn lemma_le_subrange(bytes: Seq<u8>, start: int, end: int, at: int, width: int)
    requires
        0 <= start <= end <= bytes.len(),
        0 <= at,
        at + width <= end - start,
        width == 2 || width == 4 || width == 8,
    ensures
        width == 2 ==> le16(bytes.subrange(start, end), at) == le16(bytes, start + at),
        width == 4 ==> le32(bytes.subrange(start, end), at) == le32(bytes, start + at),
        width == 8 ==> le64(bytes.subrange(start, end), at) == le64(bytes, start + at),
{
}

/// Parses a batch: the continuation reference, then every record, keeping
/// those that `accept` accepts by reference, parent reference and
/// attributes; names are decoded only for kept records. The first malformed
/// record fails the whole batch.
pub fn parse_batch_filtered<P: FnMut(u64, u64, u32) -> bool>(bytes: &[u8], accept: &mut P) -> (r:
    Result<(u64, Vec<Record>), ParseError>)
    requires
        forall|reference: u64, parent: u64, attributes: u32|
            call_requires(*old(accept), (reference, parent, attributes)),
    ensures
        batch_parsed(bytes@, r),
{
    if bytes.len() < CONTINUATION_BYTES {
        return Err(ParseError::TruncatedContinuation);
    }
    let continuation = read_le64(bytes, 0);
    let mut records: Vec<Record> = Vec::new();
    let mut offset: usize = CONTINUATION_BYTES;
    let ghost mut seen: Seq<RecordView> = Seq::empty();
    let ghost mut kept: Seq<int> = Seq::empty();
    while offset < bytes.len()
        invariant
            CONTINUATION_BYTES <= offset <= bytes@.len(),
            forall|reference: u64, parent: u64, attributes: u32|
                call_requires(*accept, (reference, parent, attributes)),
            records_from(bytes@, CONTINUATION_BYTES as int) == match records_from(
                bytes@,
                offset as int,
            ) {
                Err(error) => Err(error),
                Ok(rest) => Ok(seen + rest),
            },
            kept.len() == records@.len(),
            forall|i: int, j: int| 0 <= i < j < kept.len() ==> kept[i] < kept[j],
            forall|i: int|
                0 <= i < kept.len() ==> 0 <= #[trigger] kept[i] < seen.len() && record_matches(
                    records@[i],
                    seen[kept[i]],
                ),
        decreases bytes@.len() - offset,
    {
        if bytes.len() - offset < 4 {
            return Err(ParseError::TruncatedRecord);
        }
        let record_length = read_le32(bytes, offset) as usize;
        if record_length < V2_FIXED_BYTES || record_length > bytes.len() - offset {
            return Err(ParseError::InvalidRecordLength);
        }
        let end = offset + record_length;
        proof {
            lemma_le_subrange(bytes@, offset as int, end as int, 4, 2);
            lemma_le_subrange(bytes@, offset as int, end as int, 56, 2);
            lemma_le_subrange(bytes@, offset as int, end as int, 58, 2);
            lemma_le_subrange(bytes@, offset as int, end as int, 8, 8);
            lemma_le_subrange(bytes@, offset as int, end as int, 16, 8);
            lemma_le_subrange(bytes@, offset as int, end as int, 52, 4);
        }
        let major_version = read_le16(bytes, offset + 4);
        if major_version != 2 {
            return Err(ParseError::UnsupportedVersion(major_version));
        }
        let name_length = read_le16(bytes, offset + 56) as usize;
        let name_offset = read_le16(bytes, offset + 58) as usize;
        if name_offset < V2_FIXED_BYTES || name_offset + name_length > record_length
            || name_length % 2 != 0 {
            return Err(ParseError::InvalidNameRange);
        }
        let reference = read_le64(bytes, offset + 8);
        let parent_reference = read_le64(bytes, offset + 16);
        let attributes = read_le32(bytes, offset + 52);
        let ghost record_bytes = bytes@.subrange(offset as int, end as int);
        let ghost view = RecordView {
            reference,
            parent_reference,
            attributes,
            name: utf16_units(
                record_bytes.subrange(name_offset as int, (name_offset + name_length) as int),
            ),
        };
        proof {
            assert(record_at(bytes@, offset as int) == Ok::<(RecordView, int), ParseError>(
                (view, record_length as int),
            ));
        }
        if accept(reference, parent_reference, attributes) {
            let mut name: Vec<u16> = Vec::new();
            let start = offset + name_offset;
            let mut unit: usize = 0;
            while unit < name_length / 2
                invariant
                    0 <= unit <= name_length / 2,
                    start + name_length <= bytes@.len(),
                    start == offset + name_offset,
                    end <= bytes@.len(),
                    offset <= end,
                    record_bytes == bytes@.subrange(offset as int, end as int),
                    name_offset + name_length <= record_length,
                    end == offset + record_length,
                    name@ == utf16_units(
                        record_bytes.subrange(name_offset as int, (name_offset + name_length) as int),
                    ).take(unit as int),
                decreases name_length / 2 - unit,
            {
                let value = read_le16(bytes, start + 2 * unit);
                proof {
                    let names = record_bytes.subrange(name_offset as int, (name_offset + name_length) as int);
                    assert(names[2 * unit as int] == bytes@[start + 2 * unit as int]);
                    assert(names[2 * unit as int + 1] == bytes@[start + 2 * unit as int + 1]);
                }
                name.push(value);
                unit = unit + 1;
                proof {
                    let names = record_bytes.subrange(name_offset as int, (name_offset + name_length) as int);
                    assert(name@ =~= utf16_units(names).take(unit as int));
                }
            }
            proof {
                let names = record_bytes.subrange(name_offset as int, (name_offset + name_length) as int);
                assert(utf16_units(names).take((name_length / 2) as int) =~= utf16_units(names));
            }
            records.push(Record { reference, parent_reference, attributes, name });
            proof {
                kept = kept.push(seen.len() as int);
            }
        }
        proof {
            assert(records_from(bytes@, offset as int) == match records_from(bytes@, end as int) {
                Err(error) => Err(error),
                Ok(rest) => Ok(seq![view] + rest),
            });
            match records_from(bytes@, end as int) {
                Ok(rest) => {
                    assert(seen + (seq![view] + rest) =~= seen.push(view) + rest);
                },
                Err(_) => {},
            }
            seen = seen.push(view);
        }
        offset = end;
    }
    proof {
        assert(records_from(bytes@, offset as int) == Ok::<Seq<RecordView>, ParseError>(Seq::empty()));
        assert(seen + Seq::<RecordView>::empty() =~= seen);
        assert(kept_records(records@, seen, kept));
        assert(records_from(bytes@, CONTINUATION_BYTES as int) == Ok::<Seq<RecordView>, ParseError>(seen));
        lemma_batch_ok(bytes@, continuation, records, seen, kept);
    }
    Ok((continuation, records))
}

/// Whether a filesystem driver belongs to Google Drive's streaming volume:
/// its name is "googledrivefs", ignoring ASCII case, followed only by ASCII
/// digits.
pub open spec fn spec_is_google_drive_driver(name: Seq<u8>) -> bool {
    let prefix = seq![103u8, 111u8, 111u8, 103u8, 108u8, 101u8, 100u8, 114u8, 105u8, 118u8, 101u8, 102u8, 115u8];
    &&& name.len() >= prefix.len()
    &&& forall|i: int| 0 <= i < prefix.len() ==> crate::roots::ascii_lower(name[i]) == prefix[i]
    &&& forall|i: int| prefix.len() <= i < name.len() ==> 48 <= #[trigger] name[i] <= 57
}

/// Recognizes the driver names of Google Drive's streaming volume.
pub fn is_google_drive_driver(name: &str) -> (google: bool)
    ensures
        google == spec_is_google_drive_driver(crate::text::utf8_bytes(name)),
{
    let bytes = crate::text::text_bytes(name);
    let prefix: [u8; 13] = [103, 111, 111, 103, 108, 101, 100, 114, 105, 118, 101, 102, 115];
    assert(prefix@ =~= seq![103u8, 111u8, 111u8, 103u8, 108u8, 101u8, 100u8, 114u8, 105u8, 118u8, 101u8, 102u8, 115u8]);
    if bytes.len() < 13 {
        return false;
    }
    let mut index: usize = 0;
    while index < 13
        invariant
            0 <= index <= 13,
            bytes@.len() >= 13,
            bytes@ == crate::text::utf8_bytes(name),
            prefix@ == seq![103u8, 111u8, 111u8, 103u8, 108u8, 101u8, 100u8, 114u8, 105u8, 118u8, 101u8, 102u8, 115u8],
            forall|i: int| 0 <= i < index ==> crate::roots::ascii_lower(bytes@[i]) == prefix@[i],
        decreases 13 - index,
    {
        let byte = bytes[index];
        let lower = if 65 <= byte && byte <= 90 {
            byte + 32
        } else {
            byte
        };
        if lower != prefix[index] {
            proof {
                assert(crate::roots::ascii_lower(bytes@[index as int]) != prefix@[index as int]);
                assert(!spec_is_google_drive_driver(bytes@));
            }
            return false;
        }
        index = index + 1;
    }
    while index < bytes.len()
        invariant
            13 <= index <= bytes@.len(),
            bytes@ == crate::text::utf8_bytes(name),
            forall|i: int| 0 <= i < 13 ==> crate::roots::ascii_lower(bytes@[i]) == prefix@[i],
            prefix@ == seq![103u8, 111u8, 111u8, 103u8, 108u8, 101u8, 100u8, 114u8, 105u8, 118u8, 101u8, 102u8, 115u8],
            forall|i: int| 13 <= i < index ==> 48 <= #[trigger] bytes@[i] <= 57,
        decreases bytes@.len() - index,
    {
        if bytes[index] < 48 || bytes[index] > 57 {
            proof {
                assert(!(48 <= bytes@[index as int] <= 57));
                assert(!spec_is_google_drive_driver(bytes@));
            }
            return false;
        }
        index = index + 1;
    }
    true
}

/// Whether a counted UTF-16 string returned by the object manager lies
/// inside the returned part of its buffer: an even length, an even offset
/// from the buffer's start, and an end within both the bytes returned and
/// the buffer.
pub fn object_string_in_bounds(offset: Option<usize>, length: usize, returned: usize, buffer_len: usize) -> (in_bounds:
    bool)
    ensures
        in_bounds == (offset matches Some(o) && length % 2 == 0 && o % 2 == 0 && o + length <= (
        if returned < buffer_len {
            returned
        } else {
            buffer_len
        })),
{
    let offset = match offset {
        Some(offset) => offset,
        None => {
            return false;
        },
    };
    let limit = if returned < buffer_len {
        returned
    } else {
        buffer_len
    };
    length % 2 == 0 && offset % 2 == 0 && match offset.checked_add(length) {
        Some(end) => end <= limit,
        None => false,
    }
}

} // verus!

verus! {

broadcast use vstd::std_specs::hash::group_hash_axioms;

/// Record `j` repeats the reference of an earlier record.
pub open spec fn repeats_reference(records: Seq<Record>, j: int) -> bool {
    exists|i: int| 0 <= i < j && records[i].reference == records[j].reference
}

/// The first record that repeats an earlier reference, if any.
pub open spec fn first_duplicate(records: Seq<Record>) -> Option<int>
    decreases records.len(),
{
    if records.len() == 0 {
        None
    } else {
        match first_duplicate(records.drop_last()) {
            Some(j) => Some(j),
            None => if repeats_reference(records, records.len() - 1) {
                Some(records.len() - 1)
            } else {
                None
            },
        }
    }
}

/// The message for a repeated file reference.
pub open spec fn duplicate_message(reference: u64) -> Seq<char> {
    "the MFT enumeration returned duplicate file reference "@ + crate::chart::decimal_digits(
        reference as nat,
    )
}

/// The message for a subtree that reaches a file twice.
pub open spec fn cycle_message(reference: u64) -> Seq<char> {
    "the MFT subtree contains a cycle at file reference "@ + crate::chart::decimal_digits(
        reference as nat,
    )
}

/// The repeated-reference message.
fn format_duplicate(reference: u64) -> (message: String)
    ensures
        message@ == duplicate_message(reference),
{
    let mut message = "the MFT enumeration returned duplicate file reference ".to_string();
    message.append(crate::chart::decimal_text(reference).as_str());
    message
}

/// The cycle message.
fn format_cycle(reference: u64) -> (message: String)
    ensures
        message@ == cycle_message(reference),
{
    let mut message = "the MFT subtree contains a cycle at file reference ".to_string();
    message.append(crate::chart::decimal_text(reference).as_str());
    message
}

/// The sibling order: by UTF-16 name, then by reference.
pub open spec fn sibling_order(a: Record, b: Record) -> crate::text::Order {
    crate::text::lex_order(crate::text::unit_ints(a.name@), crate::text::unit_ints(b.name@)).and_next(
        crate::text::int_order(a.reference as int, b.reference as int),
    )
}

/// An order lists each record at most once, and every listed record hangs
/// directly below the subtree's root or below a record listed before it.
pub open spec fn parents_first(records: Seq<Record>, order: Seq<usize>, root_reference: u64) -> bool {
    &&& forall|k: int| 0 <= k < order.len() ==> (#[trigger] order[k] as int) < records.len()
    &&& forall|k1: int, k2: int|
        0 <= k1 < k2 < order.len() ==> #[trigger] order[k1] != #[trigger] order[k2]
    &&& forall|k: int|
        0 <= k < order.len() ==> {
            let parent = #[trigger] records[order[k] as int].parent_reference;
            parent == root_reference || exists|p: int|
                0 <= p < k && records[order[p] as int].reference == parent
        }
}

fn find_first_duplicate(records: &Vec<Record>) -> (found: Option<usize>)
    ensures
        match found {
            Some(j) => first_duplicate(records@) == Some(j as int),
            None => first_duplicate(records@) is None,
        },
{
    let mut seen: std::collections::HashSet<u64> = std::collections::HashSet::new();
    let mut index: usize = 0;
    proof {
        assert(records@.take(0) =~= Seq::<Record>::empty());
    }
    while index < records.len()
        invariant
            0 <= index <= records@.len(),
            first_duplicate(records@.take(index as int)) is None,
            forall|r: u64|
                seen@.contains(r) <==> exists|i: int| 0 <= i < index && records@[i].reference == r,
        decreases records@.len() - index,
    {
        let reference = records[index].reference;
        let fresh = seen.insert(reference);
        proof {
            let prefix = records@.take(index as int + 1);
            assert(prefix.drop_last() =~= records@.take(index as int));
            if !fresh {
                let i = choose|i: int| 0 <= i < index && records@[i].reference == reference;
                assert(prefix[i].reference == prefix[index as int].reference);
                assert(repeats_reference(prefix, index as int));
            } else {
                assert forall|i: int| 0 <= i < index implies prefix[i].reference
                    != prefix[index as int].reference by {
                    assert(records@[i].reference != reference);
                }
                assert(!repeats_reference(prefix, index as int));
            }
        }
        if !fresh {
            proof {
                lemma_first_duplicate_prefix(records@, index as int + 1);
            }
            return Some(index);
        }
        index = index + 1;
    }
    proof {
        assert(records@.take(index as int) =~= records@);
    }
    None
}

proof fn lemma_first_duplicate_prefix(records: Seq<Record>, n: int)
    requires
        0 <= n <= records.len(),
        first_duplicate(records.take(n)) is Some,
    ensures
        first_duplicate(records) == first_duplicate(records.take(n)),
    decreases records.len(),
{
    if n < records.len() {
        assert(records.drop_last().take(n) =~= records.take(n));
        lemma_first_duplicate_prefix(records.drop_last(), n);
        let j = first_duplicate(records.take(n)).unwrap();
        assert(first_duplicate(records.drop_last()) == Some(j));
    } else {
        assert(records.take(n) =~= records);
    }
}

fn compare_siblings(records: &Vec<Record>, a: usize, b: usize) -> (order: crate::text::Order)
    requires
        a < records@.len(),
        b < records@.len(),
    ensures
        order == sibling_order(records@[a as int], records@[b as int]),
{
    match crate::text::compare_units(records[a].name.as_slice(), records[b].name.as_slice()) {
        crate::text::Order::Equal => crate::text::compare_u64(records[a].reference, records[b].reference),
        other => other,
    }
}

/// Records with the same parent appear in sibling order.
pub open spec fn siblings_in_order(records: Seq<Record>, order: Seq<usize>) -> bool {
    forall|k1: int, k2: int|
        0 <= k1 < k2 < order.len() && records[order[k1] as int].parent_reference
            == records[order[k2] as int].parent_reference ==> sibling_order(
            #[trigger] records[order[k1] as int],
            #[trigger] records[order[k2] as int],
        ) != crate::text::Order::Greater
}

/// Whether a key has been expanded: it is the subtree's root or the
/// reference of a record already ordered.
pub open spec fn expanded(records: Seq<Record>, order: Seq<usize>, root_reference: u64, key: u64) -> bool {
    key == root_reference || exists|p: int|
        0 <= p < order.len() && records[order[p] as int].reference == key
}

proof fn lemma_expanded_push(
    records: Seq<Record>,
    order: Seq<usize>,
    root_reference: u64,
    x: usize,
    key: u64,
)
    requires
        (x as int) < records.len(),
    ensures
        expanded(records, order.push(x), root_reference, key) == (expanded(
            records,
            order,
            root_reference,
            key,
        ) || records[x as int].reference == key),
{
    let pushed = order.push(x);
    if exists|p: int| 0 <= p < order.len() && records[order[p] as int].reference == key {
        let p = choose|p: int| 0 <= p < order.len() && records[order[p] as int].reference == key;
        assert(pushed[p] == order[p]);
    }
    if records[x as int].reference == key {
        assert(pushed[order.len() as int] == x);
    }
    if exists|p: int| 0 <= p < pushed.len() && records[pushed[p] as int].reference == key {
        let p = choose|p: int| 0 <= p < pushed.len() && records[pushed[p] as int].reference == key;
        if p < order.len() {
            assert(pushed[p] == order[p]);
        }
    }
}

/// Position `a` is position `b` or one of its ancestors, following the
/// parent positions `pp`; -1 stands for the subtree's root.
pub open spec fn on_chain(pp: Seq<int>, a: int, b: int) -> bool
    decreases b + 1,
{
    if b < 0 {
        a == -1
    } else if a == b {
        true
    } else if b < pp.len() && -1 <= pp[b] < b {
        on_chain(pp, a, pp[b])
    } else {
        false
    }
}

/// The reference at a position of an order; -1 stands for the subtree's
/// root.
pub open spec fn reference_at(records: Seq<Record>, order: Seq<usize>, root_reference: u64, p: int) -> u64 {
    if p < 0 {
        root_reference
    } else {
        records[order[p] as int].reference
    }
}

/// Parent positions that show an order to be depth first: each record hangs
/// below the record at its parent position, which comes before it, and that
/// position is the record just before it or one of that record's
/// ancestors. So every subtree is listed contiguously.
pub open spec fn depth_first_with(
    records: Seq<Record>,
    order: Seq<usize>,
    root_reference: u64,
    pp: Seq<int>,
) -> bool {
    &&& pp.len() == order.len()
    &&& forall|n: int| 0 <= n < order.len() ==> -1 <= #[trigger] pp[n] < n
    &&& forall|n: int|
        0 <= n < order.len() ==> records[order[n] as int].parent_reference == reference_at(
            records,
            order,
            root_reference,
            #[trigger] pp[n],
        )
    &&& forall|n: int| 0 <= n < order.len() ==> on_chain(pp, #[trigger] pp[n], n - 1)
}

/// The order is depth first: some parent positions show it.
pub open spec fn depth_first(records: Seq<Record>, order: Seq<usize>, root_reference: u64) -> bool {
    exists|pp: Seq<int>| depth_first_with(records, order, root_reference, pp)
}

proof fn lemma_on_chain_extend(pp: Seq<int>, v: int, a: int, b: int)
    requires
        b < pp.len(),
    ensures
        on_chain(pp.push(v), a, b) == on_chain(pp, a, b),
    decreases b + 1,
{
    if b >= 0 && a != b && -1 <= pp[b] < b {
        lemma_on_chain_extend(pp, v, a, pp[b]);
    }
}

/// Orders the records below `root_reference` for ingestion: each folder's
/// children by name then reference, depth first, so that every parent
/// precedes its children and every subtree is contiguous. Exactly the
/// records that hang below the root, or below a record of the subtree, are
/// ordered; records outside the subtree are left out. A repeated file
/// reference is refused, and is the only refusal.
#[verifier::spinoff_prover]
#[verifier::rlimit(80)]
pub fn subtree_order(records: &Vec<Record>, root_reference: u64) -> (r: Result<Vec<usize>, String>)
    ensures
        r is Ok <==> first_duplicate(records@) is None,
        first_duplicate(records@) matches Some(j) ==> (r matches Err(message) && message@
            == duplicate_message(records@[j].reference)),
        r matches Ok(order) ==> parents_first(records@, order@, root_reference),
        r matches Ok(order) ==> forall|i: int|
            0 <= i < records@.len() && #[trigger] expanded(
                records@,
                order@,
                root_reference,
                records@[i].parent_reference,
            ) ==> order@.contains(i as usize),
        r matches Ok(order) ==> siblings_in_order(records@, order@),
        r matches Ok(order) ==> depth_first(records@, order@, root_reference),
{
    match find_first_duplicate(records) {
        Some(j) => {
            proof {
                lemma_first_duplicate_range(records@);
            }
            return Err(format_duplicate(records[j].reference));
        },
        None => {},
    }
    let mut children: std::collections::HashMap<u64, Vec<usize>> = std::collections::HashMap::new();
    let mut index: usize = 0;
    while index < records.len()
        invariant
            0 <= index <= records@.len(),
            forall|key: u64|
                #[trigger] children@.contains_key(key) ==> forall|k: int|
                    0 <= k < children@[key]@.len() ==> (#[trigger] children@[key]@[k] as int)
                        < index && records@[children@[key]@[k] as int].parent_reference == key,
            forall|key: u64| #[trigger]
                children@.contains_key(key) ==> children@[key]@.no_duplicates(),
            forall|i: int|
                0 <= i < index ==> children@.contains_key(#[trigger] records@[i].parent_reference)
                    && children@[records@[i].parent_reference]@.contains(i as usize),
        decreases records@.len() - index,
    {
        let parent = records[index].parent_reference;
        let ghost before = children@;
        let mut list = match children.remove(&parent) {
            Some(list) => list,
            None => Vec::new(),
        };
        let ghost old_list = list@;
        proof {
            if !before.contains_key(parent) {
                assert(old_list.len() == 0);
            }
        }
        list.push(index);
        proof {
            assert(!old_list.contains(index)) by {
                if old_list.contains(index) {
                    let k = choose|k: int| 0 <= k < old_list.len() && old_list[k] == index;
                    assert(before[parent]@[k] == index);
                }
            }
            assert(list@.no_duplicates()) by {
                assert forall|i: int, j: int|
                    0 <= i < list@.len() && 0 <= j < list@.len() && i != j implies list@[i]
                    != list@[j] by {
                    if i < old_list.len() && j < old_list.len() {
                        assert(list@[i] == old_list[i] && list@[j] == old_list[j]);
                    } else if i < old_list.len() {
                        assert(list@[i] == old_list[i]);
                        assert(old_list.contains(old_list[i]));
                    } else if j < old_list.len() {
                        assert(list@[j] == old_list[j]);
                        assert(old_list.contains(old_list[j]));
                    }
                }
            }
        }
        children.insert(parent, list);
        proof {
            assert forall|i: int| 0 <= i < index + 1 implies children@.contains_key(
                #[trigger] records@[i].parent_reference,
            ) && children@[records@[i].parent_reference]@.contains(i as usize) by {
                let key = records@[i].parent_reference;
                if i == index {
                    assert(children@[key]@[old_list.len() as int] == index);
                } else if key == parent {
                    let k = choose|k: int| 0 <= k < before[key]@.len() && before[key]@[k] == i as usize;
                    assert(children@[key]@[k] == i as usize);
                } else {
                    assert(children@[key] == before[key]);
                }
            }
        }
        index = index + 1;
    }
    let mut ordered: Vec<usize> = Vec::new();
    let mut visited: std::collections::HashSet<u64> = std::collections::HashSet::new();
    let mut stack: Vec<usize> = Vec::new();
    let ghost initial = children@;
    let first = sorted_children(records, &mut children, root_reference);
    push_reversed(&mut stack, &first);
    proof {
        assert forall|s1: int, s2: int|
            0 <= s1 < stack@.len() && 0 <= s2 < stack@.len() && s1 != s2 implies stack@[s1]
            != stack@[s2] by {
            let d1 = first@.len() - 1 - s1;
            let d2 = first@.len() - 1 - s2;
            assert(stack@[s1] == first@[d1] && stack@[s2] == first@[d2]);
        }
        assert forall|i: int| 0 <= i < records@.len() implies {
            let key = #[trigger] records@[i].parent_reference;
            &&& (expanded(records@, ordered@, root_reference, key) ==> (ordered@.contains(i as usize)
                || stack@.contains(i as usize)))
            &&& (!expanded(records@, ordered@, root_reference, key) ==> children@.contains_key(key)
                && children@[key]@.contains(i as usize))
        } by {
            let key = records@[i].parent_reference;
            if key == root_reference {
                assert(first@.contains(i as usize));
                let d = choose|d: int| 0 <= d < first@.len() && first@[d] == i as usize;
                assert(stack@[first@.len() - 1 - d] == i as usize);
            } else {
                assert(children@[key] == initial[key]);
            }
        }
    }
    let ghost mut pp: Seq<int> = Seq::empty();
    let ghost mut sp: Seq<int> = Seq::new(stack@.len(), |s: int| -1int);
    loop
        invariant
            forall|key: u64|
                #[trigger] children@.contains_key(key) ==> forall|k: int|
                    0 <= k < children@[key]@.len() ==> (#[trigger] children@[key]@[k] as int)
                        < records@.len() && records@[children@[key]@[k] as int].parent_reference
                        == key,
            forall|key: u64| #[trigger]
                children@.contains_key(key) ==> !expanded(records@, ordered@, root_reference, key)
                    && children@[key]@.no_duplicates(),
            forall|s: int|
                0 <= s < stack@.len() ==> (#[trigger] stack@[s] as int) < records@.len()
                    && expanded(
                    records@,
                    ordered@,
                    root_reference,
                    records@[stack@[s] as int].parent_reference,
                ),
            forall|s1: int, s2: int|
                0 <= s1 < stack@.len() && 0 <= s2 < stack@.len() && s1 != s2 ==> #[trigger] stack@[s1]
                    != #[trigger] stack@[s2],
            forall|s: int, k: int|
                0 <= s < stack@.len() && 0 <= k < ordered@.len() ==> #[trigger] stack@[s]
                    != #[trigger] ordered@[k],
            forall|i: int|
                0 <= i < records@.len() ==> {
                    let key = #[trigger] records@[i].parent_reference;
                    &&& (expanded(records@, ordered@, root_reference, key) ==> (ordered@.contains(
                        i as usize,
                    ) || stack@.contains(i as usize)))
                    &&& (!expanded(records@, ordered@, root_reference, key)
                        ==> children@.contains_key(key) && children@[key]@.contains(i as usize))
                },
            pp.len() == ordered@.len(),
            sp.len() == stack@.len(),
            forall|n: int| 0 <= n < pp.len() ==> -1 <= #[trigger] pp[n] < n,
            forall|n: int|
                0 <= n < pp.len() ==> records@[ordered@[n] as int].parent_reference == reference_at(
                    records@,
                    ordered@,
                    root_reference,
                    #[trigger] pp[n],
                ),
            forall|n: int| 0 <= n < pp.len() ==> on_chain(pp, #[trigger] pp[n], n - 1),
            forall|t: int| 0 <= t < sp.len() ==> -1 <= #[trigger] sp[t] < ordered@.len(),
            forall|t: int|
                0 <= t < sp.len() ==> records@[stack@[t] as int].parent_reference == reference_at(
                    records@,
                    ordered@,
                    root_reference,
                    #[trigger] sp[t],
                ),
            forall|t1: int, t2: int|
                0 <= t1 < t2 < sp.len() ==> on_chain(pp, #[trigger] sp[t1], #[trigger] sp[t2]),
            sp.len() > 0 ==> on_chain(pp, sp[sp.len() - 1], ordered@.len() - 1),
            parents_first(records@, ordered@, root_reference),
            forall|r: u64|
                visited@.contains(r) <==> exists|p: int|
                    0 <= p < ordered@.len() && records@[ordered@[p] as int].reference == r,
            first_duplicate(records@) is None,
            siblings_in_order(records@, ordered@),
            forall|s1: int, s2: int|
                0 <= s1 < s2 < stack@.len() && records@[stack@[s1] as int].parent_reference
                    == records@[stack@[s2] as int].parent_reference ==> sibling_order(
                    #[trigger] records@[stack@[s2] as int],
                    #[trigger] records@[stack@[s1] as int],
                ) != crate::text::Order::Greater,
            forall|k: int, s: int|
                0 <= k < ordered@.len() && 0 <= s < stack@.len() && records@[ordered@[k] as int].parent_reference
                    == records@[stack@[s] as int].parent_reference ==> sibling_order(
                    #[trigger] records@[ordered@[k] as int],
                    #[trigger] records@[stack@[s] as int],
                ) != crate::text::Order::Greater,
        ensures
            stack@.len() == 0,
            depth_first_with(records@, ordered@, root_reference, pp),
            siblings_in_order(records@, ordered@),
            forall|i: int|
                0 <= i < records@.len() ==> {
                    let key = #[trigger] records@[i].parent_reference;
                    expanded(records@, ordered@, root_reference, key) ==> (ordered@.contains(
                        i as usize,
                    ) || stack@.contains(i as usize))
                },
            parents_first(records@, ordered@, root_reference),
        decreases records@.len() - ordered@.len(),
    {
        let ghost stack_before_pop = stack@;
        let next = stack.pop();
        let index = match next {
            Some(index) => index,
            None => {
                break;
            },
        };
        let ghost top_parent = sp[sp.len() - 1];
        let ghost sp_before_pop = sp;
        proof {
            sp = sp.drop_last();
        }
        let reference = records[index].reference;
        proof {
            let top = stack_before_pop.len() - 1;
            assert(stack_before_pop[top] == index);
            assert(!visited@.contains(reference)) by {
                if visited@.contains(reference) {
                    let p = choose|p: int|
                        0 <= p < ordered@.len() && records@[ordered@[p] as int].reference == reference;
                    let o = ordered@[p] as int;
                    if o < index {
                        lemma_no_duplicate_distinct(records@, o, index as int);
                    } else if index < o {
                        lemma_no_duplicate_distinct(records@, index as int, o);
                    }
                    assert(stack_before_pop[top] != ordered@[p]);
                }
            }
        }
        if !visited.insert(reference) {
            return Err(format_cycle(reference));
        }
        proof {
            lemma_distinct_references_distinct_indices(records@, ordered@, index as int);
            assert(ordered@.len() < records@.len()) by {
                lemma_distinct_bound(records@, ordered@.push(index));
            }
        }
        let ghost before = ordered@;
        let ghost key_was_expanded = expanded(records@, before, root_reference, reference);
        let ghost pp_before = pp;
        ordered.push(index);
        proof {
            pp = pp.push(top_parent);

            assert forall|key: u64| #[trigger] expanded(records@, ordered@, root_reference, key)
                == (expanded(records@, before, root_reference, key) || records@[index as int].reference
                == key) by {
                lemma_expanded_push(records@, before, root_reference, index, key);
            }
            assert forall|k: int| 0 <= k < ordered@.len() implies {
                let parent = #[trigger] records@[ordered@[k] as int].parent_reference;
                parent == root_reference || exists|p: int|
                    0 <= p < k && records@[ordered@[p] as int].reference == parent
            } by {
                if k < before.len() {
                    assert(ordered@[k] == before[k]);
                    let parent = records@[before[k] as int].parent_reference;
                    if parent != root_reference {
                        let p = choose|p: int|
                            0 <= p < k && records@[before[p] as int].reference == parent;
                        assert(ordered@[p] == before[p]);
                    }
                } else {
                    let parent = records@[index as int].parent_reference;
                    assert(expanded(records@, before, root_reference, parent));
                    if parent != root_reference {
                        let p = choose|p: int|
                            0 <= p < before.len() && records@[before[p] as int].reference == parent;
                        assert(ordered@[p] == before[p]);
                    }
                }
            }
            assert forall|r: u64| visited@.contains(r) <==> exists|p: int|
                0 <= p < ordered@.len() && records@[ordered@[p] as int].reference == r by {
                if visited@.contains(r) {
                    if r != reference {
                        let p = choose|p: int|
                            0 <= p < before.len() && records@[before[p] as int].reference == r;
                        assert(ordered@[p] == before[p]);
                    } else {
                        assert(ordered@[before.len() as int] == index);
                        assert(records@[ordered@[before.len() as int] as int].reference == r);
                    }
                }
                if exists|p: int| 0 <= p < ordered@.len() && records@[ordered@[p] as int].reference == r {
                    let p = choose|p: int| 0 <= p < ordered@.len() && records@[ordered@[p] as int].reference == r;
                    if p < before.len() {
                        assert(ordered@[p] == before[p]);
                        assert(exists|q: int| 0 <= q < before.len() && records@[before[q] as int].reference == r);
                    } else {
                        assert(ordered@[p] == index);
                    }
                }
            }
        }
        let ghost map_before = children@;
        let descendants = sorted_children(records, &mut children, reference);
        let ghost stack_before = stack@;
        push_reversed(&mut stack, &descendants);
        let ghost sp_mid = sp;
        proof {
            sp = sp + Seq::new(descendants@.len(), |d: int| before.len() as int);

            // What the expansion removed from the map were exactly the
            // records hanging below the newly ordered one.
            if map_before.contains_key(reference) {
                assert(!key_was_expanded);
            } else {
                assert(descendants@.len() == 0);
            }
            assert forall|d: int| 0 <= d < descendants@.len() implies records@[#[trigger] descendants@[d] as int].parent_reference
                == reference && !expanded(records@, before, root_reference, reference) by {
                assert(map_before.contains_key(reference));
            }
            assert forall|s: int| 0 <= s < stack@.len() implies (#[trigger] stack@[s] as int)
                < records@.len() && expanded(
                records@,
                ordered@,
                root_reference,
                records@[stack@[s] as int].parent_reference,
            ) by {
                if s >= stack_before.len() {
                    let d = descendants@.len() - 1 - (s - stack_before.len());
                    assert(stack@[s] == descendants@[d]);
                } else {
                    assert(stack@[s] == stack_before[s]);
                    assert(stack_before[s] == stack_before_pop[s]);
                }
            }
            assert forall|s1: int, s2: int|
                0 <= s1 < stack@.len() && 0 <= s2 < stack@.len() && s1 != s2 implies #[trigger] stack@[s1]
                != #[trigger] stack@[s2] by {
                let n = stack_before.len();
                if s1 < n && s2 < n {
                    assert(stack@[s1] == stack_before_pop[s1] && stack@[s2] == stack_before_pop[s2]);
                } else if s1 >= n && s2 >= n {
                    let d1 = descendants@.len() - 1 - (s1 - n);
                    let d2 = descendants@.len() - 1 - (s2 - n);
                    assert(stack@[s1] == descendants@[d1] && stack@[s2] == descendants@[d2]);
                    assert(map_before[reference]@.no_duplicates());
                } else {
                    let (old_s, new_s) = if s1 < n {
                        (s1, s2)
                    } else {
                        (s2, s1)
                    };
                    let d = descendants@.len() - 1 - (new_s - n);
                    assert(stack@[new_s] == descendants@[d]);
                    assert(stack@[old_s] == stack_before_pop[old_s]);
                    assert(expanded(
                        records@,
                        before,
                        root_reference,
                        records@[stack_before_pop[old_s] as int].parent_reference,
                    ));
                }
            }
            assert forall|s: int, k: int| 0 <= s < stack@.len() && 0 <= k < ordered@.len() implies #[trigger] stack@[s]
                != #[trigger] ordered@[k] by {
                let n = stack_before.len();
                if s < n {
                    assert(stack@[s] == stack_before_pop[s]);
                    if k < before.len() {
                        assert(ordered@[k] == before[k]);
                    } else {
                        assert(ordered@[k] == index);
                        assert(stack_before_pop[s] != stack_before_pop[n as int]);
                    }
                } else {
                    let d = descendants@.len() - 1 - (s - n);
                    assert(stack@[s] == descendants@[d]);
                    let parent = records@[ordered@[k] as int].parent_reference;
                    if k < before.len() {
                        assert(ordered@[k] == before[k]);
                        assert(expanded(records@, before, root_reference, parent)) by {
                            if parent != root_reference {
                                let p = choose|p: int|
                                    0 <= p < k && records@[ordered@[p] as int].reference == parent;
                                assert(ordered@[p] == before[p]);
                            }
                        }
                    } else {
                        assert(ordered@[k] == index);
                        assert(expanded(records@, before, root_reference, records@[stack_before_pop[n as int] as int].parent_reference));
                    }
                }
            }
            assert forall|key: u64| #[trigger] children@.contains_key(key) implies !expanded(
                records@,
                ordered@,
                root_reference,
                key,
            ) && children@[key]@.no_duplicates() by {
                assert(map_before.contains_key(key) && key != reference);
            }
            assert forall|i: int| 0 <= i < records@.len() implies {
                let key = #[trigger] records@[i].parent_reference;
                &&& (expanded(records@, ordered@, root_reference, key) ==> (ordered@.contains(
                    i as usize,
                ) || stack@.contains(i as usize)))
                &&& (!expanded(records@, ordered@, root_reference, key) ==> children@.contains_key(key)
                    && children@[key]@.contains(i as usize))
            } by {
                let key = records@[i].parent_reference;
                let n = stack_before.len();
                if expanded(records@, before, root_reference, key) {
                    if ordered@.contains(i as usize) {
                    } else if before.contains(i as usize) {
                        let k = choose|k: int| 0 <= k < before.len() && before[k] == i as usize;
                        assert(ordered@[k] == i as usize);
                    } else if i as usize == index {
                        assert(ordered@[before.len() as int] == index);
                    } else {
                        assert(stack_before_pop.contains(i as usize));
                        let s = choose|s: int| 0 <= s < stack_before_pop.len() && stack_before_pop[s] == i as usize;
                        assert(s != n);
                        assert(stack@[s] == i as usize);
                    }
                } else if key == reference {
                    assert(map_before.contains_key(key) && map_before[key]@.contains(i as usize));
                    assert(descendants@.contains(i as usize));
                    let d = choose|d: int| 0 <= d < descendants@.len() && descendants@[d] == i as usize;
                    assert(stack@[n + descendants@.len() - 1 - d] == i as usize);
                } else {
                    assert(children@[key] == map_before[key]);
                }
            }
        }
        proof {
            let n0 = before.len() as int;
            assert(stack_before_pop.len() == sp_before_pop.len());
            assert(-1 <= top_parent < n0);
            assert(records@[index as int].parent_reference == reference_at(
                records@,
                before,
                root_reference,
                top_parent,
            ));
            assert(on_chain(pp_before, top_parent, n0 - 1));
            assert forall|n: int| 0 <= n < pp.len() implies -1 <= #[trigger] pp[n] < n by {
                if n < n0 {
                    assert(pp[n] == pp_before[n]);
                }
            }
            assert forall|n: int| 0 <= n < pp.len() implies records@[ordered@[n] as int].parent_reference
                == reference_at(records@, ordered@, root_reference, #[trigger] pp[n]) by {
                if n < n0 {
                    assert(pp[n] == pp_before[n]);
                    assert(ordered@[n] == before[n]);
                    if pp[n] >= 0 {
                        assert(ordered@[pp[n]] == before[pp[n]]);
                    }
                } else {
                    assert(ordered@[n] == index);
                    if top_parent >= 0 {
                        assert(ordered@[top_parent] == before[top_parent]);
                    }
                }
            }
            assert forall|n: int| 0 <= n < pp.len() implies on_chain(pp, #[trigger] pp[n], n - 1) by {
                if n < n0 {
                    assert(pp[n] == pp_before[n]);
                    lemma_on_chain_extend(pp_before, top_parent, pp_before[n], n - 1);
                } else {
                    lemma_on_chain_extend(pp_before, top_parent, top_parent, n0 - 1);
                }
            }
            let nd = descendants@.len() as int;
            let m = sp_mid.len() as int;
            assert(m == stack_before.len());
            assert forall|t: int| 0 <= t < sp.len() implies -1 <= #[trigger] sp[t] < ordered@.len() by {
                if t < m {
                    assert(sp[t] == sp_before_pop[t]);
                }
            }
            assert forall|t: int| 0 <= t < sp.len() implies records@[stack@[t] as int].parent_reference
                == reference_at(records@, ordered@, root_reference, #[trigger] sp[t]) by {
                if t < m {
                    assert(sp[t] == sp_before_pop[t]);
                    assert(stack@[t] == stack_before_pop[t]);
                    if sp[t] >= 0 {
                        assert(ordered@[sp[t]] == before[sp[t]]);
                    }
                } else {
                    let d = nd - 1 - (t - m);
                    assert(stack@[t] == descendants@[d]);
                    assert(sp[t] == n0);
                    assert(ordered@[n0] == index);
                }
            }
            assert forall|t1: int, t2: int| 0 <= t1 < t2 < sp.len() implies on_chain(
                pp,
                #[trigger] sp[t1],
                #[trigger] sp[t2],
            ) by {
                if t2 < m {
                    assert(sp[t1] == sp_before_pop[t1] && sp[t2] == sp_before_pop[t2]);
                    lemma_on_chain_extend(pp_before, top_parent, sp_before_pop[t1], sp_before_pop[t2]);
                } else if t1 < m {
                    assert(sp[t1] == sp_before_pop[t1]);
                    assert(sp[t2] == n0);
                    assert(on_chain(pp_before, sp_before_pop[t1], top_parent));
                    lemma_on_chain_extend(pp_before, top_parent, sp_before_pop[t1], top_parent);
                    assert(on_chain(pp, sp[t1], n0));
                } else {
                    assert(sp[t1] == n0 && sp[t2] == n0);
                }
            }
            if sp.len() > 0 {
                let t = sp.len() - 1;
                if t >= m {
                    assert(sp[t] == n0);
                } else {
                    assert(sp[t] == sp_before_pop[t]);
                    assert(on_chain(pp_before, sp_before_pop[t], top_parent));
                    lemma_on_chain_extend(pp_before, top_parent, sp_before_pop[t], top_parent);
                    assert(on_chain(pp, sp[t], n0));
                }
            }
        }
    }
    proof {
        assert forall|i: int|
            0 <= i < records@.len() && #[trigger] expanded(
                records@,
                ordered@,
                root_reference,
                records@[i].parent_reference,
            ) implies ordered@.contains(i as usize) by {
            if stack@.contains(i as usize) {
                let s = choose|s: int| 0 <= s < stack@.len() && stack@[s] == i as usize;
            }
        }
        assert(depth_first_with(records@, ordered@, root_reference, pp));
    }
    Ok(ordered)
}

proof fn lemma_first_duplicate_range(records: Seq<Record>)
    ensures
        first_duplicate(records) matches Some(j) ==> 0 <= j < records.len(),
    decreases records.len(),
{
    if records.len() > 0 {
        lemma_first_duplicate_range(records.drop_last());
    }
}

proof fn lemma_no_duplicate_distinct(records: Seq<Record>, i: int, j: int)
    requires
        first_duplicate(records) is None,
        0 <= i < j < records.len(),
    ensures
        records[i].reference != records[j].reference,
    decreases records.len(),
{
    if j < records.len() - 1 {
        lemma_no_duplicate_distinct(records.drop_last(), i, j);
    } else {
        assert(!repeats_reference(records, j));
    }
}

proof fn lemma_distinct_references_distinct_indices(records: Seq<Record>, ordered: Seq<usize>, index: int)
    requires
        first_duplicate(records) is None,
        0 <= index < records.len(),
        forall|k: int| 0 <= k < ordered.len() ==> (#[trigger] ordered[k] as int) < records.len(),
        !(exists|p: int|
            0 <= p < ordered.len() && records[ordered[p] as int].reference
                == records[index].reference),
    ensures
        forall|k: int| 0 <= k < ordered.len() ==> ordered[k] != index,
{
    assert forall|k: int| 0 <= k < ordered.len() implies ordered[k] != index by {
        if ordered[k] == index {
            assert(records[ordered[k] as int].reference == records[index].reference);
        }
    }
}

proof fn lemma_distinct_bound(records: Seq<Record>, ordered: Seq<usize>)
    requires
        forall|k: int| 0 <= k < ordered.len() ==> (#[trigger] ordered[k] as int) < records.len(),
        forall|k1: int, k2: int|
            0 <= k1 < k2 < ordered.len() ==> #[trigger] ordered[k1] != #[trigger] ordered[k2],
    ensures
        ordered.len() <= records.len(),
{
    let ints = ordered.map_values(|x: usize| x as int);
    assert(ints.no_duplicates()) by {
        assert forall|i: int, j: int|
            0 <= i < ints.len() && 0 <= j < ints.len() && i != j implies ints[i] != ints[j] by {
            if i < j {
                assert(ordered[i] != ordered[j]);
            } else {
                assert(ordered[j] != ordered[i]);
            }
        }
    }
    ints.unique_seq_to_set();
    let range = vstd::set_lib::set_int_range(0, records.len() as int);
    vstd::set_lib::lemma_int_range(0, records.len() as int);
    assert(ints.to_set().subset_of(range)) by {
        assert forall|x: int| ints.to_set().contains(x) implies range.contains(x) by {
            let k = choose|k: int| 0 <= k < ints.len() && ints[k] == x;
            assert((ordered[k] as int) < records.len());
        }
    }
    vstd::set_lib::lemma_len_subset(ints.to_set(), range);
}

} // verus!

verus! {

fn sorted_children(
    records: &Vec<Record>,
    children: &mut std::collections::HashMap<u64, Vec<usize>>,
    parent: u64,
) -> (sorted: Vec<usize>)
    requires
        forall|key: u64|
            #[trigger] old(children)@.contains_key(key) ==> forall|k: int|
                0 <= k < old(children)@[key]@.len() ==> (#[trigger] old(children)@[key]@[k] as int)
                    < records@.len() && records@[old(children)@[key]@[k] as int].parent_reference
                    == key,
    ensures
        final(children)@ == old(children)@.remove(parent),
        forall|k: int|
            0 <= k < sorted@.len() ==> (#[trigger] sorted@[k] as int) < records@.len()
                && records@[sorted@[k] as int].parent_reference == parent,
        forall|i: int, j: int|
            0 <= i < j < sorted@.len() ==> sibling_order(
                records@[sorted@[i] as int],
                records@[sorted@[j] as int],
            ) != crate::text::Order::Greater,
        old(children)@.contains_key(parent) ==> forall|x: usize|
            sorted@.contains(x) <==> old(children)@[parent]@.contains(x),
        old(children)@.contains_key(parent) && old(children)@[parent]@.no_duplicates()
            ==> sorted@.no_duplicates(),
        !old(children)@.contains_key(parent) ==> sorted@.len() == 0,
{
    let list = match children.remove(&parent) {
        Some(list) => list,
        None => Vec::new(),
    };
    let mut sorted: Vec<usize> = Vec::new();
    let mut index: usize = 0;
    while index < list.len()
        invariant
            0 <= index <= list@.len(),
            forall|k: int|
                0 <= k < list@.len() ==> (#[trigger] list@[k] as int) < records@.len()
                    && records@[list@[k] as int].parent_reference == parent,
            forall|k: int|
                0 <= k < sorted@.len() ==> (#[trigger] sorted@[k] as int) < records@.len()
                    && records@[sorted@[k] as int].parent_reference == parent,
            forall|i: int, j: int|
                0 <= i < j < sorted@.len() ==> sibling_order(
                    records@[sorted@[i] as int],
                    records@[sorted@[j] as int],
                ) != crate::text::Order::Greater,
            forall|x: usize| sorted@.contains(x) <==> list@.take(index as int).contains(x),
            list@.no_duplicates() ==> sorted@.no_duplicates(),
            sorted@.len() == index,
        decreases list@.len() - index,
    {
        let item = list[index];
        let mut position: usize = 0;
        while position < sorted.len() && compare_siblings(records, sorted[position], item)
            != crate::text::Order::Greater
            invariant
                0 <= position <= sorted@.len(),
                (item as int) < records@.len(),
                forall|k: int|
                    0 <= k < sorted@.len() ==> (#[trigger] sorted@[k] as int) < records@.len(),
                forall|i: int|
                    0 <= i < position ==> sibling_order(records@[sorted@[i] as int], records@[item as int])
                        != crate::text::Order::Greater,
            decreases sorted@.len() - position,
        {
            position = position + 1;
        }
        proof {
            assert forall|i: int| position <= i < sorted@.len() implies sibling_order(
                records@[item as int],
                records@[sorted@[i] as int],
            ) != crate::text::Order::Greater by {
                if position < sorted@.len() {
                    lemma_sibling_order_facts(
                        records@[sorted@[position as int] as int],
                        records@[item as int],
                        records@[sorted@[i] as int],
                    );
                    lemma_sibling_order_facts(
                        records@[item as int],
                        records@[sorted@[position as int] as int],
                        records@[sorted@[i] as int],
                    );
                }
            }
        }
        let ghost before = sorted@;
        sorted.insert(position, item);
        proof {
            assert forall|i: int, j: int| 0 <= i < j < sorted@.len() implies sibling_order(
                records@[sorted@[i] as int],
                records@[sorted@[j] as int],
            ) != crate::text::Order::Greater by {
                if j < position {
                    assert(sorted@[i] == before[i] && sorted@[j] == before[j]);
                } else if j == position {
                    assert(sorted@[i] == before[i]);
                } else if i < position {
                    assert(sorted@[i] == before[i] && sorted@[j] == before[j - 1]);
                    lemma_sibling_order_facts(
                        records@[before[i] as int],
                        records@[item as int],
                        records@[before[j - 1] as int],
                    );
                } else if i == position {
                    assert(sorted@[j] == before[j - 1]);
                } else {
                    assert(sorted@[i] == before[i - 1] && sorted@[j] == before[j - 1]);
                }
            }
            assert forall|k: int| 0 <= k < sorted@.len() implies (#[trigger] sorted@[k] as int)
                < records@.len() && records@[sorted@[k] as int].parent_reference == parent by {
                if k < position {
                    assert(sorted@[k] == before[k]);
                } else if k > position {
                    assert(sorted@[k] == before[k - 1]);
                }
            }
            let taken = list@.take(index as int + 1);
            assert(taken =~= list@.take(index as int).push(item));
            assert forall|x: usize| sorted@.contains(x) <==> taken.contains(x) by {
                if sorted@.contains(x) {
                    let k = choose|k: int| 0 <= k < sorted@.len() && sorted@[k] == x;
                    if k < position {
                        assert(before[k] == x);
                        assert(before.contains(x));
                    } else if k > position {
                        assert(before[k - 1] == x);
                        assert(before.contains(x));
                    }
                    if x != item {
                        assert(list@.take(index as int).contains(x));
                        let m = choose|m: int| 0 <= m < index && list@.take(index as int)[m] == x;
                        assert(taken[m] == x);
                    } else {
                        assert(taken[index as int] == x);
                    }
                }
                if taken.contains(x) {
                    let m = choose|m: int| 0 <= m < taken.len() && taken[m] == x;
                    if m < index {
                        assert(list@.take(index as int)[m] == x);
                        assert(before.contains(x));
                        let k = choose|k: int| 0 <= k < before.len() && before[k] == x;
                        if k < position {
                            assert(sorted@[k] == x);
                        } else {
                            assert(sorted@[k + 1] == x);
                        }
                    } else {
                        assert(sorted@[position as int] == x);
                    }
                }
            }
            if list@.no_duplicates() {
                assert(!before.contains(item)) by {
                    if before.contains(item) {
                        assert(list@.take(index as int).contains(item));
                        let m = choose|m: int| 0 <= m < index && list@.take(index as int)[m] == item;
                        assert(list@[m] == list@[index as int]);
                    }
                }
                assert(sorted@.no_duplicates()) by {
                    assert forall|i: int, j: int|
                        0 <= i < sorted@.len() && 0 <= j < sorted@.len() && i != j implies sorted@[i]
                        != sorted@[j] by {
                        if i != position && j != position {
                            let bi = if i < position {
                                i
                            } else {
                                i - 1
                            };
                            let bj = if j < position {
                                j
                            } else {
                                j - 1
                            };
                            assert(sorted@[i] == before[bi] && sorted@[j] == before[bj]);
                        } else if i == position {
                            let bj = if j < position {
                                j
                            } else {
                                j - 1
                            };
                            assert(sorted@[j] == before[bj]);
                            assert(before.contains(before[bj]));
                        } else {
                            let bi = if i < position {
                                i
                            } else {
                                i - 1
                            };
                            assert(sorted@[i] == before[bi]);
                            assert(before.contains(before[bi]));
                        }
                    }
                }
            }
        }
        index = index + 1;
    }
    proof {
        assert(list@.take(index as int) =~= list@);
    }
    sorted
}

proof fn lemma_sibling_order_facts(a: Record, b: Record, c: Record)
    ensures
        sibling_order(b, a) == sibling_order(a, b).flip(),
        sibling_order(a, b) != crate::text::Order::Greater && sibling_order(b, c)
            != crate::text::Order::Greater ==> sibling_order(a, c) != crate::text::Order::Greater,
{
    let na = crate::text::unit_ints(a.name@);
    let nb = crate::text::unit_ints(b.name@);
    let nc = crate::text::unit_ints(c.name@);
    crate::text::lemma_lex_order_flip(na, nb);
    crate::text::lemma_lex_order_equal(na, nb);
    crate::text::lemma_lex_order_equal(nb, nc);
    crate::text::lemma_lex_order_equal(na, nc);
    if crate::text::lex_order(na, nb) == crate::text::Order::Less && crate::text::lex_order(nb, nc)
        == crate::text::Order::Less {
        crate::text::lemma_lex_order_transitive(na, nb, nc);
    }
}

fn push_reversed(stack: &mut Vec<usize>, items: &Vec<usize>)
    ensures
        final(stack)@.len() == old(stack)@.len() + items@.len(),
        forall|s: int| 0 <= s < old(stack)@.len() ==> final(stack)@[s] == old(stack)@[s],
        forall|s: int|
            old(stack)@.len() <= s < final(stack)@.len() ==> final(stack)@[s] == items@[items@.len()
                - 1 - (s - old(stack)@.len())],
{
    let mut remaining: usize = items.len();
    while remaining > 0
        invariant
            0 <= remaining <= items@.len(),
            stack@.len() == old(stack)@.len() + (items@.len() - remaining),
            forall|s: int| 0 <= s < old(stack)@.len() ==> stack@[s] == old(stack)@[s],
            forall|s: int|
                old(stack)@.len() <= s < stack@.len() ==> stack@[s] == items@[items@.len() - 1 - (s
                    - old(stack)@.len())],
        decreases remaining,
    {
        stack.push(items[remaining - 1]);
        remaining = remaining - 1;
    }
}

} // verus!

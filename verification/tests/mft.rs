use cepa::mft::{object_string_in_bounds, parse_batch_filtered, subtree_order, ParseError, Record};

fn encoded_record(reference: u64, parent: u64, attributes: u32, name: &str) -> Vec<u8> {
    let name = name.encode_utf16().collect::<Vec<_>>();
    let record_length = 60 + name.len() * 2;
    let mut bytes = vec![0_u8; record_length];
    bytes[0..4].copy_from_slice(&(record_length as u32).to_le_bytes());
    bytes[4..6].copy_from_slice(&2_u16.to_le_bytes());
    bytes[8..16].copy_from_slice(&reference.to_le_bytes());
    bytes[16..24].copy_from_slice(&parent.to_le_bytes());
    bytes[52..56].copy_from_slice(&attributes.to_le_bytes());
    bytes[56..58].copy_from_slice(&((name.len() * 2) as u16).to_le_bytes());
    bytes[58..60].copy_from_slice(&60_u16.to_le_bytes());
    for (index, unit) in name.into_iter().enumerate() {
        let start = 60 + index * 2;
        bytes[start..start + 2].copy_from_slice(&unit.to_le_bytes());
    }
    bytes
}

fn parse_all(bytes: &[u8]) -> Result<(u64, Vec<Record>), ParseError> {
    parse_batch_filtered(bytes, &mut |_, _, _| true)
}

fn record(reference: u64, parent_reference: u64, attributes: u32, name: &str) -> Record {
    Record {
        reference,
        parent_reference,
        attributes,
        name: name.encode_utf16().collect(),
    }
}

#[test]
fn orders_only_the_selected_subtree_with_parents_before_children() {
    let records = vec![
        record(4, 2, 0, "z.txt"),
        record(2, 1, 0x10, "folder"),
        record(3, 99, 0, "sibling.txt"),
        record(5, 1, 0, "a.txt"),
    ];

    let ordered = subtree_order(&records, 1).expect("resolve subtree");
    assert_eq!(ordered, vec![3, 1, 0]);
}

#[test]
fn rejects_duplicate_file_references() {
    let record = record(2, 1, 0, "");
    assert!(subtree_order(&vec![record.clone(), record], 1).is_err());
}

#[test]
fn names_the_first_repeated_reference() {
    let records = vec![record(7, 1, 0, "a"), record(8, 1, 0, "b"), record(7, 1, 0, "c")];
    assert_eq!(
        subtree_order(&records, 1),
        Err("the MFT enumeration returned duplicate file reference 7".to_string())
    );
}

#[test]
fn siblings_with_equal_names_are_ordered_by_reference() {
    let records = vec![record(9, 1, 0, "same"), record(3, 1, 0, "same")];
    assert_eq!(subtree_order(&records, 1), Ok(vec![1, 0]));
}

#[test]
fn parses_a_complete_v2_batch_without_assuming_nul_termination() {
    let mut bytes = 99_u64.to_le_bytes().to_vec();
    bytes.extend(encoded_record(10, 5, 0x20, "notes.txt"));
    bytes.extend(encoded_record(11, 5, 0x10, "photos"));

    let (continuation, records) = parse_all(&bytes).expect("parse batch");
    assert_eq!(continuation, 99);
    assert_eq!(records.len(), 2);
    assert_eq!(records[0].reference, 10);
    assert_eq!(records[0].parent_reference, 5);
    assert_eq!(records[0].attributes, 0x20);
    assert_eq!(
        records[0].name,
        "notes.txt".encode_utf16().collect::<Vec<_>>()
    );
}

#[test]
fn rejects_truncated_or_incompatible_records() {
    assert_eq!(parse_all(&[0; 7]).map(|_| ()), Err(ParseError::TruncatedContinuation));

    let mut invalid_length = 0_u64.to_le_bytes().to_vec();
    invalid_length.extend_from_slice(&20_u32.to_le_bytes());
    invalid_length.extend_from_slice(&[0; 16]);
    assert_eq!(
        parse_all(&invalid_length).map(|_| ()),
        Err(ParseError::InvalidRecordLength)
    );

    let mut incompatible = 0_u64.to_le_bytes().to_vec();
    let mut record = encoded_record(1, 0, 0, "file");
    record[4..6].copy_from_slice(&3_u16.to_le_bytes());
    incompatible.extend(record);
    assert_eq!(
        parse_all(&incompatible).map(|_| ()),
        Err(ParseError::UnsupportedVersion(3))
    );
}

#[test]
fn filters_records_before_allocating_names() {
    let mut bytes = 2_u64.to_le_bytes().to_vec();
    bytes.extend(encoded_record(10, 5, 0x20, "file.bin"));
    bytes.extend(encoded_record(11, 5, 0x10, "folder"));

    let (_, records) = parse_batch_filtered(&bytes, &mut |_, _, attributes| attributes == 0x10)
        .expect("parse filtered batch");
    assert_eq!(records.len(), 1);
    assert_eq!(records[0].reference, 11);
}

#[test]
fn refuses_names_outside_the_record() {
    let mut bytes = 0_u64.to_le_bytes().to_vec();
    let mut record = encoded_record(1, 0, 0, "ab");
    record[58..60].copy_from_slice(&62_u16.to_le_bytes());
    bytes.extend(record);
    assert_eq!(parse_all(&bytes).map(|_| ()), Err(ParseError::InvalidNameRange));

    let mut odd = 0_u64.to_le_bytes().to_vec();
    let mut record = encoded_record(1, 0, 0, "ab");
    record[56..58].copy_from_slice(&3_u16.to_le_bytes());
    odd.extend(record);
    assert_eq!(parse_all(&odd).map(|_| ()), Err(ParseError::InvalidNameRange));
}

#[test]
fn object_names_must_be_aligned_and_within_the_returned_buffer() {
    assert!(object_string_in_bounds(Some(0), 2, 2, 32));
    assert!(!object_string_in_bounds(Some(0), 2, 1, 32));
    assert!(!object_string_in_bounds(Some(0), 3, 8, 32));
    assert!(!object_string_in_bounds(Some(1), 2, 8, 32));
    assert!(!object_string_in_bounds(None, 2, 8, 32));
    assert!(!object_string_in_bounds(Some(usize::MAX - 1), 2, usize::MAX, usize::MAX));
}

#[test]
fn lists_each_subtree_before_the_next_sibling() {
    let records = vec![
        record(3, 1, 0x10, "b"),
        record(4, 2, 0, "x"),
        record(2, 1, 0x10, "a"),
        record(5, 3, 0, "y"),
    ];

    assert_eq!(subtree_order(&records, 1), Ok(vec![2, 1, 0, 3]));
}

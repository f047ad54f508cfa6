use heapdump_analyzer::parser::sub_record::{FieldValue, PrimArrayElement, SubRecord};
use heapdump_analyzer::parser::util::{
    fold_nul_pairs_at, read_bytes, read_i32, read_u16, read_u32, read_u64, read_u8, read_utf8,
    ParseError,
};
use heapdump_analyzer::parser::{
    Id, ParsedHeap, Record, Timestamp, Version, MAX_TIMESTAMP_MILLIS, MIN_TIMESTAMP_MILLIS,
};

const BANNER: &[u8] = b"JAVA PROFILE 1.0.2";

fn header_with(id_size: u32, millis: u64) -> Vec<u8> {
    let mut v = BANNER.to_vec();
    v.push(0);
    v.extend_from_slice(&id_size.to_be_bytes());
    v.extend_from_slice(&millis.to_be_bytes());
    v
}

fn header() -> Vec<u8> {
    header_with(8, 0)
}

fn record(tag: u8, micros: u32, payload: &[u8]) -> Vec<u8> {
    let mut v = vec![tag];
    v.extend_from_slice(&micros.to_be_bytes());
    v.extend_from_slice(&(payload.len() as u32).to_be_bytes());
    v.extend_from_slice(payload);
    v
}

fn end_record() -> Vec<u8> {
    record(0x2C, 0, &[])
}

fn dump(records: &[Vec<u8>]) -> Vec<u8> {
    let mut v = header();
    for r in records {
        v.extend_from_slice(r);
    }
    v.extend_from_slice(&end_record());
    v
}

fn segment_records(subs: &[u8]) -> Vec<u8> {
    dump(&[record(0x1C, 0, subs)])
}

fn only_segment(heap: &ParsedHeap) -> &Vec<SubRecord> {
    match &heap.records[0] {
        Record::HeapDumpSegment { sub_records, .. } => sub_records,
        other => panic!("expected a segment, got {:?}", other),
    }
}

fn class_dump_prefix(static_count: u16) -> Vec<u8> {
    let mut v = vec![0x20];
    v.extend_from_slice(&100u64.to_be_bytes());
    v.extend_from_slice(&1u32.to_be_bytes());
    for id in [2u64, 3, 4, 5, 6, 7] {
        v.extend_from_slice(&id.to_be_bytes());
    }
    v.extend_from_slice(&16u32.to_be_bytes());
    v.extend_from_slice(&0u16.to_be_bytes());
    v.extend_from_slice(&static_count.to_be_bytes());
    v
}

#[test]
fn minimal_valid_dump() {
    let bytes: Vec<u8> = vec![
        0x4A, 0x41, 0x56, 0x41, 0x20, 0x50, 0x52, 0x4F, 0x46, 0x49, 0x4C, 0x45, 0x20, 0x31, 0x2E,
        0x30, 0x2E, 0x32, 0x00, 0x00, 0x00, 0x00, 0x08, 0x00, 0x00, 0x00, 0x00, 0x00, 0x00, 0x00,
        0x00, 0x2C, 0x00, 0x00, 0x00, 0x00, 0x00, 0x00, 0x00, 0x00,
    ];
    let heap = ParsedHeap::parse(&bytes).unwrap();
    assert_eq!(heap.version, Version::JavaProfile102);
    assert_eq!(heap.timestamp, Timestamp { millis: 0 });
    assert_eq!(heap.records.len(), 1);
    assert!(matches!(heap.records[0], Record::HeapDumpEnd { micros: 0 }));
    let date = chrono::DateTime::from_timestamp_millis(heap.timestamp.millis).unwrap();
    assert_eq!(date.to_rfc3339(), "1970-01-01T00:00:00+00:00");
}

#[test]
fn utf8_record() {
    let mut bytes = header();
    bytes.extend_from_slice(&[
        0x01, 0x00, 0x00, 0x00, 0x01, 0x00, 0x00, 0x00, 0x0D, 0x00, 0x00, 0x00, 0x00, 0x00, 0x00,
        0x00, 0x07, 0x68, 0x65, 0x6C, 0x6C, 0x6F, 0xC0, 0x80, 0x21,
    ]);
    bytes.extend_from_slice(&end_record());
    // A length of 13 covers the id and "hello"; the bytes after it are read as
    // the next record.
    assert_eq!(ParsedHeap::parse(&bytes).unwrap_err(), ParseError::BadTag(0xC0));
    let (r, end) = Record::parse(&bytes, 31).unwrap();
    assert_eq!(end, 31 + 9 + 13);
    assert!(matches!(r, Record::Utf8 { micros: 1, name_id: Id(7), ref content } if content == "hello"));
}

#[test]
fn utf8_record_with_nul() {
    let mut bytes = header();
    bytes.extend_from_slice(&[
        0x01, 0x00, 0x00, 0x00, 0x01, 0x00, 0x00, 0x00, 0x10, 0x00, 0x00, 0x00, 0x00, 0x00, 0x00,
        0x00, 0x07, 0x68, 0x65, 0x6C, 0x6C, 0x6F, 0xC0, 0x80, 0x21,
    ]);
    bytes.extend_from_slice(&end_record());
    let heap = ParsedHeap::parse(&bytes).unwrap();
    assert_eq!(heap.records.len(), 2);
    match &heap.records[0] {
        Record::Utf8 { micros, name_id, content } => {
            assert_eq!(*micros, 1);
            assert_eq!(*name_id, Id(7));
            assert_eq!(content, "hello\0!");
        }
        other => panic!("unexpected record {:?}", other),
    }
}

#[test]
fn unsupported_identifier_size() {
    let mut bytes = header_with(4, 0);
    bytes.extend_from_slice(&end_record());
    assert_eq!(
        ParsedHeap::parse(&bytes).unwrap_err(),
        ParseError::UnsupportedIdentifierSize(4)
    );
}

#[test]
fn bad_field_type_in_class_dump() {
    let mut subs = class_dump_prefix(1);
    subs.extend_from_slice(&9u64.to_be_bytes());
    subs.push(0xFF);
    subs.extend_from_slice(&[0; 8]);
    subs.extend_from_slice(&0u16.to_be_bytes());
    let bytes = segment_records(&subs);
    assert_eq!(
        ParsedHeap::parse(&bytes).unwrap_err(),
        ParseError::BadFieldType(0xFF)
    );
}

#[test]
fn banner_mismatch_by_one_character() {
    let mut bytes = dump(&[]);
    bytes[17] = b'3';
    assert_eq!(
        ParsedHeap::parse(&bytes).unwrap_err(),
        ParseError::UnsupportedVersion
    );
}

#[test]
fn banner_checked_before_identifier_size() {
    let mut bytes = header_with(4, 0);
    bytes[0] = b'j';
    assert_eq!(
        ParsedHeap::parse(&bytes).unwrap_err(),
        ParseError::UnsupportedVersion
    );
}

#[test]
fn nul_after_banner_is_not_checked() {
    let mut bytes = dump(&[]);
    bytes[18] = 0x55;
    assert!(ParsedHeap::parse(&bytes).is_ok());
}

#[test]
fn truncated_header_is_eof() {
    assert_eq!(
        ParsedHeap::parse(&[]).unwrap_err(),
        ParseError::UnexpectedEof
    );
    let bytes = header();
    assert_eq!(
        ParsedHeap::parse(&bytes[..25]).unwrap_err(),
        ParseError::UnexpectedEof
    );
}

#[test]
fn missing_end_record_is_eof() {
    let bytes = header();
    assert_eq!(
        ParsedHeap::parse(&bytes).unwrap_err(),
        ParseError::UnexpectedEof
    );
}

#[test]
fn bytes_after_end_record_are_not_read() {
    let mut bytes = dump(&[]);
    bytes.push(0xEE);
    let heap = ParsedHeap::parse(&bytes).unwrap();
    assert_eq!(heap.records.len(), 1);
}

#[test]
fn unknown_record_tag() {
    let bytes = dump(&[record(0x03, 0, &[])]);
    assert_eq!(ParsedHeap::parse(&bytes).unwrap_err(), ParseError::BadTag(0x03));
}

#[test]
fn timestamp_is_kept() {
    let mut bytes = header_with(8, 1_700_000_000_123);
    bytes.extend_from_slice(&end_record());
    let heap = ParsedHeap::parse(&bytes).unwrap();
    assert_eq!(heap.timestamp.millis, 1_700_000_000_123);
}

#[test]
fn timestamp_range_edges() {
    for millis in [MIN_TIMESTAMP_MILLIS, MAX_TIMESTAMP_MILLIS] {
        let mut bytes = header_with(8, millis as u64);
        bytes.extend_from_slice(&end_record());
        assert!(chrono::DateTime::from_timestamp_millis(millis).is_some());
        assert_eq!(ParsedHeap::parse(&bytes).unwrap().timestamp.millis, millis);
    }
    for millis in [MIN_TIMESTAMP_MILLIS - 1, MAX_TIMESTAMP_MILLIS + 1, i64::MIN] {
        let mut bytes = header_with(8, millis as u64);
        bytes.extend_from_slice(&end_record());
        assert!(chrono::DateTime::from_timestamp_millis(millis).is_none());
        assert_eq!(
            ParsedHeap::parse(&bytes).unwrap_err(),
            ParseError::InvalidTimestamp(millis)
        );
    }
}

#[test]
fn load_class_record_fields() {
    let mut payload = Vec::new();
    payload.extend_from_slice(&5u32.to_be_bytes());
    payload.extend_from_slice(&100u64.to_be_bytes());
    payload.extend_from_slice(&6u32.to_be_bytes());
    payload.extend_from_slice(&42u64.to_be_bytes());
    let bytes = dump(&[record(0x02, 3, &payload)]);
    let heap = ParsedHeap::parse(&bytes).unwrap();
    match &heap.records[0] {
        Record::LoadClass {
            micros,
            class_serial_number,
            class_object_id,
            stack_trace_serial_number,
            class_name_id,
        } => {
            assert_eq!(*micros, 3);
            assert_eq!(*class_serial_number, 5);
            assert_eq!(*class_object_id, Id(100));
            assert_eq!(*stack_trace_serial_number, 6);
            assert_eq!(*class_name_id, Id(42));
        }
        other => panic!("unexpected record {:?}", other),
    }
}

#[test]
fn frame_record_fields() {
    let mut payload = Vec::new();
    for id in [10u64, 11, 12, 13] {
        payload.extend_from_slice(&id.to_be_bytes());
    }
    payload.extend_from_slice(&9u32.to_be_bytes());
    payload.extend_from_slice(&(-1i32).to_be_bytes());
    let bytes = dump(&[record(0x04, 0, &payload)]);
    let heap = ParsedHeap::parse(&bytes).unwrap();
    match &heap.records[0] {
        Record::Frame {
            stack_frame_id,
            method_name_id,
            method_signature_id,
            source_file_name_id,
            class_serial_number,
            line_number,
            ..
        } => {
            assert_eq!(*stack_frame_id, Id(10));
            assert_eq!(*method_name_id, Id(11));
            assert_eq!(*method_signature_id, Id(12));
            assert_eq!(*source_file_name_id, Id(13));
            assert_eq!(*class_serial_number, 9);
            assert_eq!(*line_number, -1);
        }
        other => panic!("unexpected record {:?}", other),
    }
}

#[test]
fn trace_record_with_frames() {
    let mut payload = Vec::new();
    payload.extend_from_slice(&1u32.to_be_bytes());
    payload.extend_from_slice(&2u32.to_be_bytes());
    payload.extend_from_slice(&2u32.to_be_bytes());
    payload.extend_from_slice(&0x0102030405060708u64.to_be_bytes());
    payload.extend_from_slice(&9u64.to_be_bytes());
    let bytes = dump(&[record(0x05, 0, &payload)]);
    let heap = ParsedHeap::parse(&bytes).unwrap();
    match &heap.records[0] {
        Record::Trace {
            stack_trace_serial_number,
            thread_serial_number,
            stack_frame_ids,
            ..
        } => {
            assert_eq!(*stack_trace_serial_number, 1);
            assert_eq!(*thread_serial_number, 2);
            assert_eq!(stack_frame_ids, &vec![Id(0x0102030405060708), Id(9)]);
        }
        other => panic!("unexpected record {:?}", other),
    }
}

#[test]
fn trace_record_without_frames() {
    let mut payload = Vec::new();
    payload.extend_from_slice(&1u32.to_be_bytes());
    payload.extend_from_slice(&2u32.to_be_bytes());
    payload.extend_from_slice(&0u32.to_be_bytes());
    let bytes = dump(&[record(0x05, 0, &payload)]);
    let heap = ParsedHeap::parse(&bytes).unwrap();
    assert!(matches!(&heap.records[0], Record::Trace { stack_frame_ids, .. } if stack_frame_ids.is_empty()));
}

#[test]
fn utf8_record_shorter_than_id() {
    let mut bytes = header();
    bytes.extend_from_slice(&[0x01, 0, 0, 0, 0, 0, 0, 0, 4]);
    bytes.extend_from_slice(&[0; 8]);
    bytes.extend_from_slice(&end_record());
    assert_eq!(
        ParsedHeap::parse(&bytes).unwrap_err(),
        ParseError::BadRecordLength(4)
    );
}

#[test]
fn utf8_record_with_invalid_text() {
    let mut payload = 1u64.to_be_bytes().to_vec();
    payload.extend_from_slice(&[0x61, 0xFF, 0x62]);
    let bytes = dump(&[record(0x01, 0, &payload)]);
    assert_eq!(ParsedHeap::parse(&bytes).unwrap_err(), ParseError::BadUtf8);
}

#[test]
fn empty_segment() {
    let bytes = segment_records(&[]);
    let heap = ParsedHeap::parse(&bytes).unwrap();
    assert_eq!(heap.records.len(), 2);
    assert!(only_segment(&heap).is_empty());
}

#[test]
fn segment_with_roots() {
    let mut subs = vec![0x01];
    subs.extend_from_slice(&1u64.to_be_bytes());
    subs.extend_from_slice(&2u64.to_be_bytes());
    subs.push(0x02);
    subs.extend_from_slice(&3u64.to_be_bytes());
    subs.extend_from_slice(&4u32.to_be_bytes());
    subs.extend_from_slice(&5u32.to_be_bytes());
    subs.push(0x03);
    subs.extend_from_slice(&6u64.to_be_bytes());
    subs.extend_from_slice(&7u32.to_be_bytes());
    subs.extend_from_slice(&8u32.to_be_bytes());
    subs.push(0x05);
    subs.extend_from_slice(&9u64.to_be_bytes());
    subs.push(0x08);
    subs.extend_from_slice(&10u64.to_be_bytes());
    subs.extend_from_slice(&11u32.to_be_bytes());
    subs.extend_from_slice(&12u32.to_be_bytes());
    let bytes = segment_records(&subs);
    let heap = ParsedHeap::parse(&bytes).unwrap();
    let s = only_segment(&heap);
    assert_eq!(s.len(), 5);
    assert!(matches!(s[0], SubRecord::JniGlobal { object_id: 1, global_ref_id: 2 }));
    assert!(matches!(
        s[1],
        SubRecord::JniLocal { object_id: 3, thread_serial_number: 4, frame_number: 5 }
    ));
    assert!(matches!(
        s[2],
        SubRecord::JavaFrame { object_id: 6, thread_serial_number: 7, frame_number: 8 }
    ));
    assert!(matches!(s[3], SubRecord::StickyClass { object_id: 9 }));
    assert!(matches!(
        s[4],
        SubRecord::ThreadObj { object_id: 10, sequence_number: 11, stack_trace_sequence_number: 12 }
    ));
}

#[test]
fn segment_overrun() {
    let mut subs = vec![0x05];
    subs.extend_from_slice(&9u64.to_be_bytes());
    let mut bytes = header();
    let mut rec = record(0x1C, 0, &subs);
    rec[8] = 4;
    bytes.extend_from_slice(&rec);
    bytes.extend_from_slice(&end_record());
    assert_eq!(
        ParsedHeap::parse(&bytes).unwrap_err(),
        ParseError::SegmentOverrun
    );
}

#[test]
fn unknown_sub_record_tag() {
    let bytes = segment_records(&[0x2C]);
    assert_eq!(
        ParsedHeap::parse(&bytes).unwrap_err(),
        ParseError::UnknownSubTag(0x2C)
    );
}

#[test]
fn class_dump_with_fields() {
    let mut subs = class_dump_prefix(2);
    subs.extend_from_slice(&20u64.to_be_bytes());
    subs.push(0x0A);
    subs.extend_from_slice(&0x11223344u32.to_be_bytes());
    subs.extend_from_slice(&21u64.to_be_bytes());
    subs.push(0x02);
    subs.extend_from_slice(&500u64.to_be_bytes());
    subs.extend_from_slice(&1u16.to_be_bytes());
    subs.extend_from_slice(&22u64.to_be_bytes());
    subs.push(0x0B);
    let bytes = segment_records(&subs);
    let heap = ParsedHeap::parse(&bytes).unwrap();
    match &only_segment(&heap)[0] {
        SubRecord::ClassDump {
            class_object_id,
            stack_trace_serial_number,
            super_class_object_id,
            reserved2,
            instance_size,
            number_of_static_fields,
            static_fields,
            number_of_instance_fields,
            instance_field_descriptors,
            ..
        } => {
            assert_eq!(*class_object_id, 100);
            assert_eq!(*stack_trace_serial_number, 1);
            assert_eq!(*super_class_object_id, 2);
            assert_eq!(*reserved2, 7);
            assert_eq!(*instance_size, 16);
            assert_eq!(*number_of_static_fields, 2);
            assert_eq!(static_fields.len(), 2);
            assert_eq!(static_fields[0].name_id, 20);
            assert_eq!(static_fields[0].value, FieldValue::Int(0x11223344));
            assert_eq!(static_fields[1].value, FieldValue::NormalObject { object_id: 500 });
            assert_eq!(*number_of_instance_fields, 1);
            assert_eq!(instance_field_descriptors[0].name_id, 22);
            assert_eq!(instance_field_descriptors[0].typ, 0x0B);
        }
        other => panic!("unexpected sub-record {:?}", other),
    }
}

#[test]
fn field_values_of_every_type() {
    let values: Vec<(u8, Vec<u8>, FieldValue)> = vec![
        (0x02, 7u64.to_be_bytes().to_vec(), FieldValue::NormalObject { object_id: 7 }),
        (0x04, vec![1], FieldValue::Boolean(1)),
        (0x05, 0x0041u16.to_be_bytes().to_vec(), FieldValue::Char(0x41)),
        (0x06, 1.5f32.to_bits().to_be_bytes().to_vec(), FieldValue::Float(1.5f32.to_bits())),
        (0x07, (-2.25f64).to_bits().to_be_bytes().to_vec(), FieldValue::Double((-2.25f64).to_bits())),
        (0x08, vec![0xFE], FieldValue::Byte(0xFE)),
        (0x09, 0x8001u16.to_be_bytes().to_vec(), FieldValue::Short(0x8001)),
        (0x0A, 0xDEADBEEFu32.to_be_bytes().to_vec(), FieldValue::Int(0xDEADBEEF)),
        (0x0B, u64::MAX.to_be_bytes().to_vec(), FieldValue::Long(u64::MAX)),
    ];
    for (typ, encoded, expected) in values {
        let mut subs = class_dump_prefix(1);
        subs.extend_from_slice(&1u64.to_be_bytes());
        subs.push(typ);
        subs.extend_from_slice(&encoded);
        subs.extend_from_slice(&0u16.to_be_bytes());
        let bytes = segment_records(&subs);
        let heap = ParsedHeap::parse(&bytes).unwrap();
        match &only_segment(&heap)[0] {
            SubRecord::ClassDump { static_fields, .. } => assert_eq!(static_fields[0].value, expected),
            other => panic!("unexpected sub-record {:?}", other),
        }
    }
}

#[test]
fn instance_dump_keeps_raw_bytes() {
    let mut subs = vec![0x21];
    subs.extend_from_slice(&500u64.to_be_bytes());
    subs.extend_from_slice(&3u32.to_be_bytes());
    subs.extend_from_slice(&100u64.to_be_bytes());
    subs.extend_from_slice(&3u32.to_be_bytes());
    subs.extend_from_slice(&[0xAA, 0xBB, 0xCC]);
    let bytes = segment_records(&subs);
    let heap = ParsedHeap::parse(&bytes).unwrap();
    match &only_segment(&heap)[0] {
        SubRecord::InstanceDump {
            object_id,
            stack_trace_serial_number,
            class_object_id,
            number_of_bytes,
            raw_field_bytes,
        } => {
            assert_eq!(*object_id, 500);
            assert_eq!(*stack_trace_serial_number, 3);
            assert_eq!(*class_object_id, 100);
            assert_eq!(*number_of_bytes, 3);
            assert_eq!(raw_field_bytes, &vec![0xAA, 0xBB, 0xCC]);
        }
        other => panic!("unexpected sub-record {:?}", other),
    }
}

#[test]
fn obj_array_count_precedes_class_id() {
    let mut subs = vec![0x22];
    subs.extend_from_slice(&1u64.to_be_bytes());
    subs.extend_from_slice(&2u32.to_be_bytes());
    subs.extend_from_slice(&2u32.to_be_bytes());
    subs.extend_from_slice(&300u64.to_be_bytes());
    subs.extend_from_slice(&7u64.to_be_bytes());
    subs.extend_from_slice(&8u64.to_be_bytes());
    let bytes = segment_records(&subs);
    let heap = ParsedHeap::parse(&bytes).unwrap();
    match &only_segment(&heap)[0] {
        SubRecord::ObjArrayDump { object_id, array_class_id, elements, .. } => {
            assert_eq!(*object_id, 1);
            assert_eq!(*array_class_id, 300);
            assert_eq!(elements, &vec![7, 8]);
        }
        other => panic!("unexpected sub-record {:?}", other),
    }
}

#[test]
fn prim_array_elements() {
    let mut subs = vec![0x23];
    subs.extend_from_slice(&1u64.to_be_bytes());
    subs.extend_from_slice(&2u32.to_be_bytes());
    subs.extend_from_slice(&3u32.to_be_bytes());
    subs.push(0x05);
    subs.extend_from_slice(&[0x00, 0x61, 0x00, 0x62, 0x12, 0x34]);
    let bytes = segment_records(&subs);
    let heap = ParsedHeap::parse(&bytes).unwrap();
    match &only_segment(&heap)[0] {
        SubRecord::PrimArrayDump { typ, elements, .. } => {
            assert_eq!(*typ, 0x05);
            assert_eq!(
                elements,
                &vec![
                    PrimArrayElement::Char(0x61),
                    PrimArrayElement::Char(0x62),
                    PrimArrayElement::Char(0x1234)
                ]
            );
        }
        other => panic!("unexpected sub-record {:?}", other),
    }
}

#[test]
fn prim_array_of_longs() {
    let mut subs = vec![0x23];
    subs.extend_from_slice(&1u64.to_be_bytes());
    subs.extend_from_slice(&2u32.to_be_bytes());
    subs.extend_from_slice(&1u32.to_be_bytes());
    subs.push(0x0B);
    subs.extend_from_slice(&0x0102030405060708u64.to_be_bytes());
    let bytes = segment_records(&subs);
    let heap = ParsedHeap::parse(&bytes).unwrap();
    match &only_segment(&heap)[0] {
        SubRecord::PrimArrayDump { elements, .. } => {
            assert_eq!(elements, &vec![PrimArrayElement::Long(0x0102030405060708)]);
        }
        other => panic!("unexpected sub-record {:?}", other),
    }
}

#[test]
fn empty_prim_array_with_any_type() {
    for typ in [0x02u8, 0xFF] {
        let mut subs = vec![0x23];
        subs.extend_from_slice(&1u64.to_be_bytes());
        subs.extend_from_slice(&2u32.to_be_bytes());
        subs.extend_from_slice(&0u32.to_be_bytes());
        subs.push(typ);
        let bytes = segment_records(&subs);
        let heap = ParsedHeap::parse(&bytes).unwrap();
        match &only_segment(&heap)[0] {
            SubRecord::PrimArrayDump { typ: t, elements, .. } => {
                assert_eq!(*t, typ);
                assert!(elements.is_empty());
            }
            other => panic!("unexpected sub-record {:?}", other),
        }
    }
}

#[test]
fn prim_array_of_objects_is_rejected() {
    let mut subs = vec![0x23];
    subs.extend_from_slice(&1u64.to_be_bytes());
    subs.extend_from_slice(&2u32.to_be_bytes());
    subs.extend_from_slice(&1u32.to_be_bytes());
    subs.push(0x02);
    subs.extend_from_slice(&0u64.to_be_bytes());
    let bytes = segment_records(&subs);
    assert_eq!(
        ParsedHeap::parse(&bytes).unwrap_err(),
        ParseError::BadArrayType(0x02)
    );
}

#[test]
fn sub_record_new_reports_end() {
    let mut data = vec![0x05];
    data.extend_from_slice(&9u64.to_be_bytes());
    let (s, end) = SubRecord::new(&data, 0).unwrap();
    assert!(matches!(s, SubRecord::StickyClass { object_id: 9 }));
    assert_eq!(end, 9);
    assert_eq!(SubRecord::new(&data[..5], 0).unwrap_err(), ParseError::UnexpectedEof);
}

#[test]
fn big_endian_reads() {
    let data = [0x01, 0x02, 0x03, 0x04, 0x05, 0x06, 0x07, 0x08, 0xFF];
    assert_eq!(read_u8(&data, 8), Ok((0xFF, 9)));
    assert_eq!(read_u16(&data, 0), Ok((0x0102, 2)));
    assert_eq!(read_u32(&data, 1), Ok((0x02030405, 5)));
    assert_eq!(read_u64(&data, 0), Ok((0x0102030405060708, 8)));
    assert_eq!(read_i32(&data, 5), Ok((0x060708FFu32 as i32, 9)));
    assert_eq!(read_i32(&[0xFF, 0xFF, 0xFF, 0xFE], 0), Ok((-2, 4)));
    assert_eq!(read_u8(&data, 9), Err(ParseError::UnexpectedEof));
    assert_eq!(read_u64(&data, 2), Err(ParseError::UnexpectedEof));
    assert_eq!(read_bytes(&data, 6, 3), Ok((vec![0x07, 0x08, 0xFF], 9)));
    assert_eq!(read_bytes(&data, 7, 3), Err(ParseError::UnexpectedEof));
}

#[test]
fn nul_pairs_are_folded() {
    let data = [0x61, 0xC0, 0x80, 0x62, 0xC0, 0x80, 0xC0];
    let folded = fold_nul_pairs_at(&data, 0, data.len());
    assert_eq!(folded, vec![0x61, 0x00, 0x62, 0x00, 0xC0]);
    assert_eq!(folded.len(), data.len() - 2);
    assert_eq!(fold_nul_pairs_at(&data, 2, 3), vec![0x80, 0x62, 0xC0]);
    assert_eq!(fold_nul_pairs_at(&[0xC0, 0xC0, 0x80], 0, 3), vec![0xC0, 0x00]);
}

#[test]
fn modified_utf8_decoding() {
    let data = [0x68, 0x69, 0xC0, 0x80, 0xC3, 0xA9];
    let (text, end) = read_utf8(&data, 0, 6).unwrap();
    assert_eq!(text, "hi\0é");
    assert_eq!(end, 6);
    assert_eq!(read_utf8(&[0xC0, 0x81], 0, 2), Err(ParseError::BadUtf8));
    assert_eq!(read_utf8(&data, 4, 3), Err(ParseError::UnexpectedEof));
}

#[test]
fn version_from_banner() {
    assert_eq!(Version::new(BANNER), Ok(Version::JavaProfile102));
    assert_eq!(Version::new(b"JAVA PROFILE 1.0.1"), Err(ParseError::UnsupportedVersion));
    assert_eq!(Version::new(b"JAVA PROFILE 1.0.2 "), Err(ParseError::UnsupportedVersion));
}

#[test]
fn record_parse_reports_end() {
    let data = record(0x2C, 5, &[1, 2, 3]);
    let (r, end) = Record::parse(&data, 0).unwrap();
    assert!(matches!(r, Record::HeapDumpEnd { micros: 5 }));
    assert_eq!(end, 9);
}

#[test]
fn id_from_raw_value() {
    assert_eq!(Id::from(42u64), Id(42));
}

#[test]
fn kind_names() {
    let heap = ParsedHeap::parse(&segment_records(&[0x05, 0, 0, 0, 0, 0, 0, 0, 1])).unwrap();
    assert_eq!(heap.records[0].kind_name(), "HeapDumpSegment");
    assert_eq!(heap.records[1].kind_name(), "HeapDumpEnd");
    assert_eq!(only_segment(&heap)[0].kind_name(), "StickyClass");
}

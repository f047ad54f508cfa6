//! Decoding of a whole heap dump: the header and the top-level records.

pub mod sub_record;
pub mod util;

use vstd::prelude::*;

use crate::parser::sub_record::{lemma_fields_span, parse_sub_record, SubRecord, SubRecordModel};
use crate::parser::util::{
    avail, available, be_i32, be_u16, be_u32, be_u64, fixed_read, get_u32, get_u64, modified_utf8_text,
    parsed_as, read_utf8, ParseError,
};

verus! {

/// The earliest instant, in milliseconds since the Unix epoch, that a date can
/// hold: the start of year -262143.
pub const MIN_TIMESTAMP_MILLIS: i64 = -8_334_601_228_800_000;

/// The latest instant, in milliseconds since the Unix epoch, that a date can
/// hold: the last millisecond of year 262142.
pub const MAX_TIMESTAMP_MILLIS: i64 = 8_210_266_876_799_999;

/// Relies on chrono's `DateTime::from_timestamp_millis`, which gives a date
/// exactly for the milliseconds from the start of year -262143 to the end of
/// year 262142.
#[verifier::external_body]
fn timestamp_is_representable(millis: i64) -> (r: bool)
    ensures
        r == (MIN_TIMESTAMP_MILLIS <= millis <= MAX_TIMESTAMP_MILLIS),
{
    chrono::DateTime::from_timestamp_millis(millis).is_some()
}

/// The format revisions this decoder reads.
#[derive(Debug, Clone, Copy, PartialEq, Eq, Structural)]
pub enum Version {
    JavaProfile102,
}

/// The capture time of a dump, in milliseconds since the Unix epoch.
#[derive(Debug, Clone, Copy, PartialEq, Eq, Structural)]
pub struct Timestamp {
    pub millis: i64,
}

/// An identifier of the dumped runtime: a string, class, object or frame handle.
#[derive(Debug, Clone, Copy, PartialEq, Eq, Hash, Structural)]
pub struct Id(pub u64);

impl From<u64> for Id {
    fn from(value: u64) -> (r: Id)
        ensures
            r == Id(value),
    {
        Id(value)
    }
}

impl vstd::std_specs::convert::FromSpecImpl<u64> for Id {
    open spec fn obeys_from_spec() -> bool {
        true
    }

    open spec fn from_spec(v: u64) -> Id {
        Id(v)
    }
}

/// The 18 bytes of `JAVA PROFILE 1.0.2`.
pub open spec fn is_supported_banner(b: Seq<u8>) -> bool {
    b == seq![
        0x4Au8, 0x41, 0x56, 0x41, 0x20, 0x50, 0x52, 0x4F, 0x46, 0x49, 0x4C, 0x45, 0x20, 0x31,
        0x2E, 0x30, 0x2E, 0x32,
    ]
}

impl Version {
    /// The version that a banner names.
    pub fn new(banner: &[u8]) -> (r: Result<Version, ParseError>)
        ensures
            r == (if is_supported_banner(banner@) {
                Ok::<Version, ParseError>(Version::JavaProfile102)
            } else {
                Err(ParseError::UnsupportedVersion)
            }),
    {
        if banner.len() == 18 && banner[0] == 0x4A && banner[1] == 0x41 && banner[2] == 0x56
            && banner[3] == 0x41 && banner[4] == 0x20 && banner[5] == 0x50 && banner[6] == 0x52
            && banner[7] == 0x4F && banner[8] == 0x46 && banner[9] == 0x49 && banner[10] == 0x4C
            && banner[11] == 0x45 && banner[12] == 0x20 && banner[13] == 0x31 && banner[14] == 0x2E
            && banner[15] == 0x30 && banner[16] == 0x2E && banner[17] == 0x32 {
            proof {
                assert(is_supported_banner(banner@)) by {
                    assert(banner@ =~= seq![
                        0x4Au8, 0x41, 0x56, 0x41, 0x20, 0x50, 0x52, 0x4F, 0x46, 0x49, 0x4C, 0x45,
                        0x20, 0x31, 0x2E, 0x30, 0x2E, 0x32,
                    ]);
                }
            }
            Ok(Version::JavaProfile102)
        } else {
            Err(ParseError::UnsupportedVersion)
        }
    }
}

#[derive(Debug)]
pub enum Record {
    Utf8 { micros: u32, name_id: Id, content: String },
    LoadClass {
        micros: u32,
        class_serial_number: u32,
        class_object_id: Id,
        stack_trace_serial_number: u32,
        class_name_id: Id,
    },
    Trace {
        micros: u32,
        stack_trace_serial_number: u32,
        thread_serial_number: u32,
        stack_frame_ids: Vec<Id>,
    },
    Frame {
        micros: u32,
        stack_frame_id: Id,
        method_name_id: Id,
        method_signature_id: Id,
        source_file_name_id: Id,
        class_serial_number: u32,
        line_number: i32,
    },
    HeapDumpSegment { micros: u32, sub_records: Vec<SubRecord> },
    HeapDumpEnd { micros: u32 },
}

/// A record as a mathematical value: text as characters, vectors as sequences.
pub enum RecordModel {
    Utf8 { micros: u32, name_id: Id, content: Seq<char> },
    LoadClass {
        micros: u32,
        class_serial_number: u32,
        class_object_id: Id,
        stack_trace_serial_number: u32,
        class_name_id: Id,
    },
    Trace {
        micros: u32,
        stack_trace_serial_number: u32,
        thread_serial_number: u32,
        stack_frame_ids: Seq<Id>,
    },
    Frame {
        micros: u32,
        stack_frame_id: Id,
        method_name_id: Id,
        method_signature_id: Id,
        source_file_name_id: Id,
        class_serial_number: u32,
        line_number: i32,
    },
    HeapDumpSegment { micros: u32, sub_records: Seq<SubRecordModel> },
    HeapDumpEnd { micros: u32 },
}

pub open spec fn sub_records_view(s: Seq<SubRecord>) -> Seq<SubRecordModel> {
    s.map_values(|r: SubRecord| r@)
}

impl View for Record {
    type V = RecordModel;

    open spec fn view(&self) -> RecordModel {
        match self {
            Record::Utf8 { micros, name_id, content } => RecordModel::Utf8 {
                micros: *micros,
                name_id: *name_id,
                content: content@,
            },
            Record::LoadClass {
                micros,
                class_serial_number,
                class_object_id,
                stack_trace_serial_number,
                class_name_id,
            } => RecordModel::LoadClass {
                micros: *micros,
                class_serial_number: *class_serial_number,
                class_object_id: *class_object_id,
                stack_trace_serial_number: *stack_trace_serial_number,
                class_name_id: *class_name_id,
            },
            Record::Trace {
                micros,
                stack_trace_serial_number,
                thread_serial_number,
                stack_frame_ids,
            } => RecordModel::Trace {
                micros: *micros,
                stack_trace_serial_number: *stack_trace_serial_number,
                thread_serial_number: *thread_serial_number,
                stack_frame_ids: stack_frame_ids@,
            },
            Record::Frame {
                micros,
                stack_frame_id,
                method_name_id,
                method_signature_id,
                source_file_name_id,
                class_serial_number,
                line_number,
            } => RecordModel::Frame {
                micros: *micros,
                stack_frame_id: *stack_frame_id,
                method_name_id: *method_name_id,
                method_signature_id: *method_signature_id,
                source_file_name_id: *source_file_name_id,
                class_serial_number: *class_serial_number,
                line_number: *line_number,
            },
            Record::HeapDumpSegment { micros, sub_records } => RecordModel::HeapDumpSegment {
                micros: *micros,
                sub_records: sub_records_view(sub_records@),
            },
            Record::HeapDumpEnd { micros } => RecordModel::HeapDumpEnd { micros: *micros },
        }
    }
}

/// A decoded dump.
#[derive(Debug)]
pub struct ParsedHeap {
    pub version: Version,
    pub timestamp: Timestamp,
    pub records: Vec<Record>,
}

pub struct ParsedHeapModel {
    pub version: Version,
    pub timestamp: Timestamp,
    pub records: Seq<RecordModel>,
}

pub open spec fn records_view(s: Seq<Record>) -> Seq<RecordModel> {
    s.map_values(|r: Record| r@)
}

impl View for ParsedHeap {
    type V = ParsedHeapModel;

    open spec fn view(&self) -> ParsedHeapModel {
        ParsedHeapModel {
            version: self.version,
            timestamp: self.timestamp,
            records: records_view(self.records@),
        }
    }
}

/// `prefix` put in front of the items of a successful decode.
pub open spec fn prefixed<T>(prefix: Seq<T>, r: Result<(Seq<T>, int), ParseError>) -> Result<
    (Seq<T>, int),
    ParseError,
> {
    match r {
        Ok((rest, q)) => Ok((prefix + rest, q)),
        Err(e) => Err(e),
    }
}

pub proof fn lemma_prefixed_assoc<T>(a: Seq<T>, b: Seq<T>, r: Result<(Seq<T>, int), ParseError>)
    ensures
        prefixed(a, prefixed(b, r)) == prefixed(a + b, r),
{
    if let Ok((rest, q)) = r {
        assert(a + (b + rest) =~= (a + b) + rest);
    }
}

/// A decoded sub-record ends inside the input, after where it starts.
pub proof fn lemma_sub_record_advances(d: Seq<u8>, p: int)
    requires
        parse_sub_record(d, p) is Ok,
    ensures
        p < parse_sub_record(d, p)->Ok_0.1 <= d.len(),
{
    if d[p] == 0x20 {
        lemma_fields_span(d, p + 69, be_u16(d, p + 67) as nat);
    }
}

#[via_fn]
proof fn parse_sub_records_decreases(d: Seq<u8>, p: int, end: int) {
    if p < end && parse_sub_record(d, p) is Ok {
        lemma_sub_record_advances(d, p);
    }
}

/// The sub-records from `p` on, while fewer than `end - p` bytes lie behind.
pub open spec fn parse_sub_records(d: Seq<u8>, p: int, end: int) -> Result<
    (Seq<SubRecordModel>, int),
    ParseError,
>
    decreases d.len() - p,
    via parse_sub_records_decreases
{
    if p >= end {
        Ok((Seq::empty(), p))
    } else {
        match parse_sub_record(d, p) {
            Ok((s, q)) => prefixed(seq![s], parse_sub_records(d, q, end)),
            Err(e) => Err(e),
        }
    }
}

/// A heap dump segment of `len` bytes at `p`: sub-records until exactly `len`
/// bytes are used; running past them is an error.
pub open spec fn parse_segment(d: Seq<u8>, p: int, micros: u32, len: u32) -> Result<
    (RecordModel, int),
    ParseError,
> {
    match parse_sub_records(d, p, p + len) {
        Ok((sub_records, q)) => if q > p + len {
            Err(ParseError::SegmentOverrun)
        } else {
            Ok((RecordModel::HeapDumpSegment { micros, sub_records }, q))
        },
        Err(e) => Err(e),
    }
}

/// One record at `p`: tag, time offset and payload length, then the payload.
pub open spec fn parse_record(d: Seq<u8>, p: int) -> Result<(RecordModel, int), ParseError> {
    if !avail(d, p, 9) {
        Err(ParseError::UnexpectedEof)
    } else {
        let micros = be_u32(d, p + 1);
        let len = be_u32(d, p + 5);
        let q = p + 9;
        match d[p] {
            0x01 => if !avail(d, q, 8) {
                Err(ParseError::UnexpectedEof)
            } else if len < 8 {
                Err(ParseError::BadRecordLength(len))
            } else {
                match modified_utf8_text(d, q + 8, len - 8) {
                    Ok((content, e)) => Ok(
                        (RecordModel::Utf8 { micros, name_id: Id(be_u64(d, q)), content }, e),
                    ),
                    Err(e) => Err(e),
                }
            },
            0x02 => fixed_read(
                d,
                q,
                24,
                RecordModel::LoadClass {
                    micros,
                    class_serial_number: be_u32(d, q),
                    class_object_id: Id(be_u64(d, q + 4)),
                    stack_trace_serial_number: be_u32(d, q + 12),
                    class_name_id: Id(be_u64(d, q + 16)),
                },
            ),
            0x04 => fixed_read(
                d,
                q,
                40,
                RecordModel::Frame {
                    micros,
                    stack_frame_id: Id(be_u64(d, q)),
                    method_name_id: Id(be_u64(d, q + 8)),
                    method_signature_id: Id(be_u64(d, q + 16)),
                    source_file_name_id: Id(be_u64(d, q + 24)),
                    class_serial_number: be_u32(d, q + 32),
                    line_number: be_i32(d, q + 36),
                },
            ),
            0x05 => if !avail(d, q, 12) {
                Err(ParseError::UnexpectedEof)
            } else {
                let n = be_u32(d, q + 8);
                fixed_read(
                    d,
                    q + 12,
                    8 * n,
                    RecordModel::Trace {
                        micros,
                        stack_trace_serial_number: be_u32(d, q),
                        thread_serial_number: be_u32(d, q + 4),
                        stack_frame_ids: Seq::new(n as nat, |i: int| Id(be_u64(d, q + 12 + 8 * i))),
                    },
                )
            },
            0x1C => parse_segment(d, q, micros, len),
            0x2C => Ok((RecordModel::HeapDumpEnd { micros }, q)),
            tag => Err(ParseError::BadTag(tag)),
        }
    }
}

/// Decoded sub-records end inside the input, at or after where they start.
pub proof fn lemma_sub_records_span(d: Seq<u8>, p: int, end: int)
    requires
        0 <= p <= d.len(),
        parse_sub_records(d, p, end) is Ok,
    ensures
        p <= parse_sub_records(d, p, end)->Ok_0.1 <= d.len(),
    decreases d.len() - p,
{
    if p < end {
        lemma_sub_record_advances(d, p);
        let q = parse_sub_record(d, p)->Ok_0.1;
        lemma_sub_records_span(d, q, end);
    }
}

/// A decoded record ends inside the input, after where it starts.
pub proof fn lemma_record_advances(d: Seq<u8>, p: int)
    requires
        parse_record(d, p) is Ok,
    ensures
        p < parse_record(d, p)->Ok_0.1 <= d.len(),
{
    if d[p] == 0x1C {
        lemma_sub_records_span(d, p + 9, p + 9 + be_u32(d, p + 5));
    }
}

#[via_fn]
proof fn parse_records_decreases(d: Seq<u8>, p: int) {
    if parse_record(d, p) is Ok {
        lemma_record_advances(d, p);
    }
}

/// Records from `p` on, up to and including the first end-of-dump record.
pub open spec fn parse_records(d: Seq<u8>, p: int) -> Result<(Seq<RecordModel>, int), ParseError>
    decreases d.len() - p,
    via parse_records_decreases
{
    match parse_record(d, p) {
        Ok((r, q)) => if r is HeapDumpEnd {
            Ok((seq![r], q))
        } else {
            prefixed(seq![r], parse_records(d, q))
        },
        Err(e) => Err(e),
    }
}

/// A whole dump: banner, a byte that is skipped, identifier size, capture time,
/// then the records. Bytes after the end-of-dump record are not read.
pub open spec fn parse_heap(d: Seq<u8>) -> Result<ParsedHeapModel, ParseError> {
    if !avail(d, 0, 18) {
        Err(ParseError::UnexpectedEof)
    } else if !is_supported_banner(d.subrange(0, 18)) {
        Err(ParseError::UnsupportedVersion)
    } else if !avail(d, 18, 5) {
        Err(ParseError::UnexpectedEof)
    } else if be_u32(d, 19) != 8 {
        Err(ParseError::UnsupportedIdentifierSize(be_u32(d, 19)))
    } else if !avail(d, 23, 8) {
        Err(ParseError::UnexpectedEof)
    } else {
        let millis = be_u64(d, 23) as i64;
        if !(MIN_TIMESTAMP_MILLIS <= millis <= MAX_TIMESTAMP_MILLIS) {
            Err(ParseError::InvalidTimestamp(millis))
        } else {
            match parse_records(d, 31) {
                Ok((records, _)) => Ok(
                    ParsedHeapModel {
                        version: Version::JavaProfile102,
                        timestamp: Timestamp { millis },
                        records,
                    },
                ),
                Err(e) => Err(e),
            }
        }
    }
}

impl Record {
    /// Decodes the record at `pos`.
    pub fn parse(data: &[u8], pos: usize) -> (r: Result<(Record, usize), ParseError>)
        ensures
            parsed_as(r, parse_record(data@, pos as int)),
    {
        if !available(data, pos, 9) {
            return Err(ParseError::UnexpectedEof);
        }
        let tag = data[pos];
        let micros = get_u32(data, pos + 1);
        let bytes_remaining = get_u32(data, pos + 5);
        let q = pos + 9;
        match tag {
            0x01 => Self::utf8(data, q, micros, bytes_remaining),
            0x02 => Self::load_class(data, q, micros),
            0x04 => Self::frame(data, q, micros),
            0x05 => Self::trace(data, q, micros),
            0x1C => Self::heap_dump_segment(data, q, micros, bytes_remaining),
            0x2C => Ok((Record::HeapDumpEnd { micros }, q)),
            _ => Err(ParseError::BadTag(tag)),
        }
    }

    fn utf8(data: &[u8], pos: usize, micros: u32, bytes_remaining: u32) -> (r: Result<
        (Record, usize),
        ParseError,
    >)
        ensures
            parsed_as(
                r,
                if !avail(data@, pos as int, 8) {
                    Err(ParseError::UnexpectedEof)
                } else if bytes_remaining < 8 {
                    Err(ParseError::BadRecordLength(bytes_remaining))
                } else {
                    match modified_utf8_text(data@, pos + 8, bytes_remaining - 8) {
                        Ok((content, e)) => Ok(
                            (
                                RecordModel::Utf8 {
                                    micros,
                                    name_id: Id(be_u64(data@, pos as int)),
                                    content,
                                },
                                e,
                            ),
                        ),
                        Err(e) => Err(e),
                    }
                },
            ),
    {
        if !available(data, pos, 8) {
            return Err(ParseError::UnexpectedEof);
        }
        let name_id = Id(get_u64(data, pos));
        if bytes_remaining < 8 {
            return Err(ParseError::BadRecordLength(bytes_remaining));
        }
        match read_utf8(data, pos + 8, (bytes_remaining - 8) as usize) {
            Ok((content, end)) => Ok((Record::Utf8 { micros, name_id, content }, end)),
            Err(e) => Err(e),
        }
    }

    fn load_class(data: &[u8], pos: usize, micros: u32) -> (r: Result<(Record, usize), ParseError>)
        ensures
            parsed_as(
                r,
                fixed_read(
                    data@,
                    pos as int,
                    24,
                    RecordModel::LoadClass {
                        micros,
                        class_serial_number: be_u32(data@, pos as int),
                        class_object_id: Id(be_u64(data@, pos + 4)),
                        stack_trace_serial_number: be_u32(data@, pos + 12),
                        class_name_id: Id(be_u64(data@, pos + 16)),
                    },
                ),
            ),
    {
        if !available(data, pos, 24) {
            return Err(ParseError::UnexpectedEof);
        }
        Ok(
            (
                Record::LoadClass {
                    micros,
                    class_serial_number: get_u32(data, pos),
                    class_object_id: Id(get_u64(data, pos + 4)),
                    stack_trace_serial_number: get_u32(data, pos + 12),
                    class_name_id: Id(get_u64(data, pos + 16)),
                },
                pos + 24,
            ),
        )
    }

    fn frame(data: &[u8], pos: usize, micros: u32) -> (r: Result<(Record, usize), ParseError>)
        ensures
            parsed_as(
                r,
                fixed_read(
                    data@,
                    pos as int,
                    40,
                    RecordModel::Frame {
                        micros,
                        stack_frame_id: Id(be_u64(data@, pos as int)),
                        method_name_id: Id(be_u64(data@, pos + 8)),
                        method_signature_id: Id(be_u64(data@, pos + 16)),
                        source_file_name_id: Id(be_u64(data@, pos + 24)),
                        class_serial_number: be_u32(data@, pos + 32),
                        line_number: be_i32(data@, pos + 36),
                    },
                ),
            ),
    {
        if !available(data, pos, 40) {
            return Err(ParseError::UnexpectedEof);
        }
        let raw_line = get_u32(data, pos + 36);
        Ok(
            (
                Record::Frame {
                    micros,
                    stack_frame_id: Id(get_u64(data, pos)),
                    method_name_id: Id(get_u64(data, pos + 8)),
                    method_signature_id: Id(get_u64(data, pos + 16)),
                    source_file_name_id: Id(get_u64(data, pos + 24)),
                    class_serial_number: get_u32(data, pos + 32),
                    line_number: #[verifier::truncate] (raw_line as i32),
                },
                pos + 40,
            ),
        )
    }

    fn trace(data: &[u8], pos: usize, micros: u32) -> (r: Result<(Record, usize), ParseError>)
        ensures
            parsed_as(
                r,
                if !avail(data@, pos as int, 12) {
                    Err(ParseError::UnexpectedEof)
                } else {
                    let n = be_u32(data@, pos + 8);
                    fixed_read(
                        data@,
                        pos + 12,
                        8 * n,
                        RecordModel::Trace {
                            micros,
                            stack_trace_serial_number: be_u32(data@, pos as int),
                            thread_serial_number: be_u32(data@, pos + 4),
                            stack_frame_ids: Seq::new(
                                n as nat,
                                |i: int| Id(be_u64(data@, pos + 12 + 8 * i)),
                            ),
                        },
                    )
                },
            ),
    {
        if !available(data, pos, 12) {
            return Err(ParseError::UnexpectedEof);
        }
        let n = get_u32(data, pos + 8);
        let base = pos + 12;
        if !available(data, base, 8 * n as u64) {
            return Err(ParseError::UnexpectedEof);
        }
        let mut stack_frame_ids: Vec<Id> = Vec::new();
        let mut i: u32 = 0;
        while i < n
            invariant
                i <= n,
                data@.len() <= usize::MAX,
                avail(data@, base as int, 8 * n),
                stack_frame_ids@ =~= Seq::new(i as nat, |k: int| Id(be_u64(data@, base + 8 * k))),
            decreases n - i,
        {
            stack_frame_ids.push(Id(get_u64(data, base + 8 * (i as usize))));
            i = i + 1;
        }
        Ok(
            (
                Record::Trace {
                    micros,
                    stack_trace_serial_number: get_u32(data, pos),
                    thread_serial_number: get_u32(data, pos + 4),
                    stack_frame_ids,
                },
                base + 8 * (n as usize),
            ),
        )
    }

    fn heap_dump_segment(data: &[u8], pos: usize, micros: u32, bytes_remaining: u32) -> (r: Result<
        (Record, usize),
        ParseError,
    >)
        requires
            pos <= data@.len(),
        ensures
            parsed_as(r, parse_segment(data@, pos as int, micros, bytes_remaining)),
    {
        let ghost end = pos + bytes_remaining;
        let mut sub_records: Vec<SubRecord> = Vec::new();
        let mut at = pos;
        proof {
            assert(sub_records_view(sub_records@) + Seq::empty() =~= Seq::<SubRecordModel>::empty());
        }
        while at - pos < bytes_remaining as usize
            invariant
                pos <= at <= data@.len(),
                end == pos + bytes_remaining,
                parse_sub_records(data@, pos as int, end) == prefixed(
                    sub_records_view(sub_records@),
                    parse_sub_records(data@, at as int, end),
                ),
            decreases data@.len() - at,
        {
            let ghost before = sub_records_view(sub_records@);
            match SubRecord::new(data, at) {
                Ok((sub_record, next)) => {
                    proof {
                        lemma_sub_record_advances(data@, at as int);
                        lemma_prefixed_assoc(
                            before,
                            seq![sub_record@],
                            parse_sub_records(data@, next as int, end),
                        );
                    }
                    sub_records.push(sub_record);
                    proof {
                        assert(sub_records_view(sub_records@) =~= before + seq![sub_record@]);
                    }
                    at = next;
                },
                Err(e) => {
                    return Err(e);
                },
            }
        }
        proof {
            assert(sub_records_view(sub_records@) + Seq::empty() =~= sub_records_view(sub_records@));
        }
        if at - pos > bytes_remaining as usize {
            return Err(ParseError::SegmentOverrun);
        }
        Ok((Record::HeapDumpSegment { micros, sub_records }, at))
    }
}

impl ParsedHeap {
    /// Decodes a whole dump held in `data`.
    pub fn parse(data: &[u8]) -> (r: Result<ParsedHeap, ParseError>)
        ensures
            match (r, parse_heap(data@)) {
                (Ok(heap), Ok(model)) => heap@ == model,
                (Err(e), Err(se)) => e == se,
                _ => false,
            },
    {
        if !available(data, 0, 18) {
            return Err(ParseError::UnexpectedEof);
        }
        let version = match Version::new(vstd::slice::slice_subrange(data, 0, 18)) {
            Ok(v) => v,
            Err(e) => return Err(e),
        };
        if !available(data, 18, 5) {
            return Err(ParseError::UnexpectedEof);
        }
        let identifier_size = get_u32(data, 19);
        if identifier_size != 8 {
            return Err(ParseError::UnsupportedIdentifierSize(identifier_size));
        }
        if !available(data, 23, 8) {
            return Err(ParseError::UnexpectedEof);
        }
        let raw_millis = get_u64(data, 23);
        let millis = #[verifier::truncate] (raw_millis as i64);
        if !timestamp_is_representable(millis) {
            return Err(ParseError::InvalidTimestamp(millis));
        }
        let mut records: Vec<Record> = Vec::new();
        let mut at: usize = 31;
        loop
            invariant
                31 <= at <= data@.len(),
                parse_heap(data@) == match parse_records(data@, 31) {
                    Ok((records, _)) => Ok(
                        ParsedHeapModel {
                            version: Version::JavaProfile102,
                            timestamp: Timestamp { millis },
                            records,
                        },
                    ),
                    Err(e) => Err(e),
                },
                version == Version::JavaProfile102,
                parse_records(data@, 31) == prefixed(
                    records_view(records@),
                    parse_records(data@, at as int),
                ),
            decreases data@.len() - at,
        {
            let ghost before = records_view(records@);
            match Record::parse(data, at) {
                Ok((record, next)) => {
                    proof {
                        lemma_record_advances(data@, at as int);
                    }
                    let is_end = matches!(record, Record::HeapDumpEnd { .. });
                    records.push(record);
                    proof {
                        assert(records_view(records@) =~= before + seq![record@]);
                    }
                    if is_end {
                        return Ok(ParsedHeap { version, timestamp: Timestamp { millis }, records });
                    }
                    proof {
                        lemma_prefixed_assoc(
                            before,
                            seq![record@],
                            parse_records(data@, next as int),
                        );
                    }
                    at = next;
                },
                Err(e) => {
                    return Err(e);
                },
            }
        }
    }
}

/// The name of a record's kind.
pub open spec fn record_kind_name(r: RecordModel) -> Seq<char> {
    match r {
        RecordModel::Utf8 { .. } => "Utf8"@,
        RecordModel::LoadClass { .. } => "LoadClass"@,
        RecordModel::Trace { .. } => "Trace"@,
        RecordModel::Frame { .. } => "Frame"@,
        RecordModel::HeapDumpSegment { .. } => "HeapDumpSegment"@,
        RecordModel::HeapDumpEnd { .. } => "HeapDumpEnd"@,
    }
}

impl Record {
    /// The name of this record's kind, as used in messages.
    pub fn kind_name(&self) -> (r: &'static str)
        ensures
            r@ == record_kind_name(self@),
    {
        match self {
            Record::Utf8 { .. } => "Utf8",
            Record::LoadClass { .. } => "LoadClass",
            Record::Trace { .. } => "Trace",
            Record::Frame { .. } => "Frame",
            Record::HeapDumpSegment { .. } => "HeapDumpSegment",
            Record::HeapDumpEnd { .. } => "HeapDumpEnd",
        }
    }
}

} // verus!

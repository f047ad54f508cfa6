//! Sub-records: the entries of a heap dump segment.

use vstd::prelude::*;

use crate::parser::util::{
    avail, available, be_u16, be_u32, be_u64, fixed_read, get_u16, get_u32, get_u64,
    lemma_u16_round_trip, lemma_u32_round_trip, lemma_u64_round_trip, parsed_as, read_agrees,
    read_bytes, u16_be_bytes, u32_be_bytes, u64_be_bytes, ParseError,
};

verus! {

/// The value of a static field; floating-point values keep their raw bits.
#[derive(Debug, Clone, Copy, PartialEq, Eq, Structural)]
pub enum FieldValue {
    NormalObject { object_id: u64 },
    Boolean(u8),
    Char(u16),
    Float(u32),
    Double(u64),
    Byte(u8),
    Short(u16),
    Int(u32),
    Long(u64),
}

#[derive(Debug, Clone, Copy, PartialEq, Eq, Structural)]
pub struct Field {
    pub name_id: u64,
    pub value: FieldValue,
}

/// The declaration of an instance field: its name and its type byte.
#[derive(Debug, Clone, Copy, PartialEq, Eq, Structural)]
pub struct FieldDescriptor {
    pub name_id: u64,
    pub typ: u8,
}

/// One element of a primitive array; floating-point values keep their raw bits.
#[derive(Debug, Clone, Copy, PartialEq, Eq, Structural)]
pub enum PrimArrayElement {
    Bool(u8),
    Byte(u8),
    Char(u16),
    Float(u32),
    Double(u64),
    Short(u16),
    Int(u32),
    Long(u64),
}

impl View for Field {
    type V = Field;

    open spec fn view(&self) -> Field {
        *self
    }
}

#[derive(Debug)]
#[allow(inconsistent_fields)]
pub enum SubRecord {
    ClassDump {
        class_object_id: u64,
        stack_trace_serial_number: u32,
        super_class_object_id: u64,
        class_loader_object_id: u64,
        signers_object_id: u64,
        protection_domain_object_id: u64,
        reserved1: u64,
        reserved2: u64,
        instance_size: u32,
        constant_pool_size: u16,
        number_of_static_fields: u16,
        static_fields: Vec<Field>,
        number_of_instance_fields: u16,
        instance_field_descriptors: Vec<FieldDescriptor>,
    },
    InstanceDump {
        object_id: u64,
        stack_trace_serial_number: u32,
        class_object_id: u64,
        number_of_bytes: u32,
        raw_field_bytes: Vec<u8>,
    },
    ObjArrayDump {
        object_id: u64,
        stack_trace_serial_number: u32,
        array_class_id: u64,
        elements: Vec<u64>,
    },
    PrimArrayDump {
        object_id: u64,
        stack_trace_serial_number: u32,
        typ: u8,
        elements: Vec<PrimArrayElement>,
    },
    ThreadObj { object_id: u64, sequence_number: u32, stack_trace_sequence_number: u32 },
    JavaFrame { object_id: u64, thread_serial_number: u32, frame_number: u32 },
    JniLocal { object_id: u64, thread_serial_number: u32, frame_number: u32 },
    JniGlobal { object_id: u64, global_ref_id: u64 },
    StickyClass { object_id: u64 },
    /// The end-of-dump marker; the decoder never produces it inside a segment.
    HeapDumpEnd,
}

/// A sub-record as a mathematical value: its vectors seen as sequences.
#[allow(inconsistent_fields)]
pub enum SubRecordModel {
    ClassDump {
        class_object_id: u64,
        stack_trace_serial_number: u32,
        super_class_object_id: u64,
        class_loader_object_id: u64,
        signers_object_id: u64,
        protection_domain_object_id: u64,
        reserved1: u64,
        reserved2: u64,
        instance_size: u32,
        constant_pool_size: u16,
        number_of_static_fields: u16,
        static_fields: Seq<Field>,
        number_of_instance_fields: u16,
        instance_field_descriptors: Seq<FieldDescriptor>,
    },
    InstanceDump {
        object_id: u64,
        stack_trace_serial_number: u32,
        class_object_id: u64,
        number_of_bytes: u32,
        raw_field_bytes: Seq<u8>,
    },
    ObjArrayDump {
        object_id: u64,
        stack_trace_serial_number: u32,
        array_class_id: u64,
        elements: Seq<u64>,
    },
    PrimArrayDump {
        object_id: u64,
        stack_trace_serial_number: u32,
        typ: u8,
        elements: Seq<PrimArrayElement>,
    },
    ThreadObj { object_id: u64, sequence_number: u32, stack_trace_sequence_number: u32 },
    JavaFrame { object_id: u64, thread_serial_number: u32, frame_number: u32 },
    JniLocal { object_id: u64, thread_serial_number: u32, frame_number: u32 },
    JniGlobal { object_id: u64, global_ref_id: u64 },
    StickyClass { object_id: u64 },
    HeapDumpEnd,
}

impl View for SubRecord {
    type V = SubRecordModel;

    open spec fn view(&self) -> SubRecordModel {
        match self {
            SubRecord::ClassDump {
                class_object_id,
                stack_trace_serial_number,
                super_class_object_id,
                class_loader_object_id,
                signers_object_id,
                protection_domain_object_id,
                reserved1,
                reserved2,
                instance_size,
                constant_pool_size,
                number_of_static_fields,
                static_fields,
                number_of_instance_fields,
                instance_field_descriptors,
            } => SubRecordModel::ClassDump {
                class_object_id: *class_object_id,
                stack_trace_serial_number: *stack_trace_serial_number,
                super_class_object_id: *super_class_object_id,
                class_loader_object_id: *class_loader_object_id,
                signers_object_id: *signers_object_id,
                protection_domain_object_id: *protection_domain_object_id,
                reserved1: *reserved1,
                reserved2: *reserved2,
                instance_size: *instance_size,
                constant_pool_size: *constant_pool_size,
                number_of_static_fields: *number_of_static_fields,
                static_fields: static_fields@,
                number_of_instance_fields: *number_of_instance_fields,
                instance_field_descriptors: instance_field_descriptors@,
            },
            SubRecord::InstanceDump {
                object_id,
                stack_trace_serial_number,
                class_object_id,
                number_of_bytes,
                raw_field_bytes,
            } => SubRecordModel::InstanceDump {
                object_id: *object_id,
                stack_trace_serial_number: *stack_trace_serial_number,
                class_object_id: *class_object_id,
                number_of_bytes: *number_of_bytes,
                raw_field_bytes: raw_field_bytes@,
            },
            SubRecord::ObjArrayDump {
                object_id,
                stack_trace_serial_number,
                array_class_id,
                elements,
            } => SubRecordModel::ObjArrayDump {
                object_id: *object_id,
                stack_trace_serial_number: *stack_trace_serial_number,
                array_class_id: *array_class_id,
                elements: elements@,
            },
            SubRecord::PrimArrayDump { object_id, stack_trace_serial_number, typ, elements } =>
                SubRecordModel::PrimArrayDump {
                object_id: *object_id,
                stack_trace_serial_number: *stack_trace_serial_number,
                typ: *typ,
                elements: elements@,
            },
            SubRecord::ThreadObj { object_id, sequence_number, stack_trace_sequence_number } =>
                SubRecordModel::ThreadObj {
                object_id: *object_id,
                sequence_number: *sequence_number,
                stack_trace_sequence_number: *stack_trace_sequence_number,
            },
            SubRecord::JavaFrame { object_id, thread_serial_number, frame_number } =>
                SubRecordModel::JavaFrame {
                object_id: *object_id,
                thread_serial_number: *thread_serial_number,
                frame_number: *frame_number,
            },
            SubRecord::JniLocal { object_id, thread_serial_number, frame_number } =>
                SubRecordModel::JniLocal {
                object_id: *object_id,
                thread_serial_number: *thread_serial_number,
                frame_number: *frame_number,
            },
            SubRecord::JniGlobal { object_id, global_ref_id } => SubRecordModel::JniGlobal {
                object_id: *object_id,
                global_ref_id: *global_ref_id,
            },
            SubRecord::StickyClass { object_id } => SubRecordModel::StickyClass {
                object_id: *object_id,
            },
            SubRecord::HeapDumpEnd => SubRecordModel::HeapDumpEnd,
        }
    }
}

/// Width in bytes of a value of the given type byte; 0 for an unknown type.
pub open spec fn field_width(typ: u8) -> int {
    match typ {
        0x02 => 8,
        0x04 => 1,
        0x05 => 2,
        0x06 => 4,
        0x07 => 8,
        0x08 => 1,
        0x09 => 2,
        0x0A => 4,
        0x0B => 8,
        _ => 0,
    }
}

/// Width of an array element of the given type byte; object references are not
/// primitive elements, so their type byte gets 0 like an unknown one.
pub open spec fn element_width(typ: u8) -> int {
    if typ == 0x02 {
        0
    } else {
        field_width(typ)
    }
}

pub open spec fn field_value_at(typ: u8, d: Seq<u8>, p: int) -> FieldValue {
    match typ {
        0x02 => FieldValue::NormalObject { object_id: be_u64(d, p) },
        0x04 => FieldValue::Boolean(d[p]),
        0x05 => FieldValue::Char(be_u16(d, p)),
        0x06 => FieldValue::Float(be_u32(d, p)),
        0x07 => FieldValue::Double(be_u64(d, p)),
        0x08 => FieldValue::Byte(d[p]),
        0x09 => FieldValue::Short(be_u16(d, p)),
        0x0A => FieldValue::Int(be_u32(d, p)),
        _ => FieldValue::Long(be_u64(d, p)),
    }
}

pub open spec fn element_at(typ: u8, d: Seq<u8>, p: int) -> PrimArrayElement {
    match typ {
        0x04 => PrimArrayElement::Bool(d[p]),
        0x05 => PrimArrayElement::Char(be_u16(d, p)),
        0x06 => PrimArrayElement::Float(be_u32(d, p)),
        0x07 => PrimArrayElement::Double(be_u64(d, p)),
        0x08 => PrimArrayElement::Byte(d[p]),
        0x09 => PrimArrayElement::Short(be_u16(d, p)),
        0x0A => PrimArrayElement::Int(be_u32(d, p)),
        _ => PrimArrayElement::Long(be_u64(d, p)),
    }
}

/// A static field: name id, type byte, then a value as wide as the type says.
pub open spec fn parse_field(d: Seq<u8>, p: int) -> Result<(Field, int), ParseError> {
    if !avail(d, p, 9) {
        Err(ParseError::UnexpectedEof)
    } else if field_width(d[p + 8]) == 0 {
        Err(ParseError::BadFieldType(d[p + 8]))
    } else {
        fixed_read(
            d,
            p + 9,
            field_width(d[p + 8]),
            Field { name_id: be_u64(d, p), value: field_value_at(d[p + 8], d, p + 9) },
        )
    }
}

/// `n` static fields in a row, starting at `p`.
pub open spec fn parse_fields(d: Seq<u8>, p: int, n: nat) -> Result<(Seq<Field>, int), ParseError>
    decreases n,
{
    if n == 0 {
        Ok((Seq::empty(), p))
    } else {
        match parse_fields(d, p, (n - 1) as nat) {
            Ok((fields, q)) => match parse_field(d, q) {
                Ok((f, r)) => Ok((fields.push(f), r)),
                Err(e) => Err(e),
            },
            Err(e) => Err(e),
        }
    }
}

/// `n` instance field descriptors of 9 bytes each, starting at `p`.
pub open spec fn descriptors_at(d: Seq<u8>, p: int, n: nat) -> Seq<FieldDescriptor> {
    Seq::new(n, |i: int| FieldDescriptor { name_id: be_u64(d, p + 9 * i), typ: d[p + 9 * i + 8] })
}

/// The body of a class dump, after its tag.
pub open spec fn parse_class_dump(d: Seq<u8>, p: int) -> Result<(SubRecordModel, int), ParseError> {
    if !avail(d, p, 68) {
        Err(ParseError::UnexpectedEof)
    } else {
        let n_static = be_u16(d, p + 66);
        match parse_fields(d, p + 68, n_static as nat) {
            Err(e) => Err(e),
            Ok((static_fields, q)) => if !avail(d, q, 2) {
                Err(ParseError::UnexpectedEof)
            } else {
                let n_inst = be_u16(d, q);
                fixed_read(
                    d,
                    q + 2,
                    9 * n_inst,
                    SubRecordModel::ClassDump {
                        class_object_id: be_u64(d, p),
                        stack_trace_serial_number: be_u32(d, p + 8),
                        super_class_object_id: be_u64(d, p + 12),
                        class_loader_object_id: be_u64(d, p + 20),
                        signers_object_id: be_u64(d, p + 28),
                        protection_domain_object_id: be_u64(d, p + 36),
                        reserved1: be_u64(d, p + 44),
                        reserved2: be_u64(d, p + 52),
                        instance_size: be_u32(d, p + 60),
                        constant_pool_size: be_u16(d, p + 64),
                        number_of_static_fields: n_static,
                        static_fields,
                        number_of_instance_fields: n_inst,
                        instance_field_descriptors: descriptors_at(d, q + 2, n_inst as nat),
                    },
                )
            },
        }
    }
}

/// The body of an instance dump: header, then its field bytes verbatim.
pub open spec fn parse_instance_dump(d: Seq<u8>, p: int) -> Result<(SubRecordModel, int), ParseError> {
    if !avail(d, p, 24) {
        Err(ParseError::UnexpectedEof)
    } else {
        let n = be_u32(d, p + 20);
        fixed_read(
            d,
            p + 24,
            n as int,
            SubRecordModel::InstanceDump {
                object_id: be_u64(d, p),
                stack_trace_serial_number: be_u32(d, p + 8),
                class_object_id: be_u64(d, p + 12),
                number_of_bytes: n,
                raw_field_bytes: d.subrange(p + 24, p + 24 + n),
            },
        )
    }
}

/// The body of an object array dump; its element count precedes its class id.
pub open spec fn parse_obj_array_dump(d: Seq<u8>, p: int) -> Result<(SubRecordModel, int), ParseError> {
    if !avail(d, p, 24) {
        Err(ParseError::UnexpectedEof)
    } else {
        let n = be_u32(d, p + 12);
        fixed_read(
            d,
            p + 24,
            8 * n,
            SubRecordModel::ObjArrayDump {
                object_id: be_u64(d, p),
                stack_trace_serial_number: be_u32(d, p + 8),
                array_class_id: be_u64(d, p + 16),
                elements: Seq::new(n as nat, |i: int| be_u64(d, p + 24 + 8 * i)),
            },
        )
    }
}

/// The body of a primitive array dump; an empty array is accepted whatever its
/// type byte.
pub open spec fn parse_prim_array_dump(d: Seq<u8>, p: int) -> Result<(SubRecordModel, int), ParseError> {
    if !avail(d, p, 17) {
        Err(ParseError::UnexpectedEof)
    } else {
        let n = be_u32(d, p + 12);
        let typ = d[p + 16];
        let w = element_width(typ);
        if n != 0 && w == 0 {
            Err(ParseError::BadArrayType(typ))
        } else {
            fixed_read(
                d,
                p + 17,
                w * n,
                SubRecordModel::PrimArrayDump {
                    object_id: be_u64(d, p),
                    stack_trace_serial_number: be_u32(d, p + 8),
                    typ,
                    elements: Seq::new(n as nat, |i: int| element_at(typ, d, p + 17 + w * i)),
                },
            )
        }
    }
}

/// One sub-record at `p`, dispatched on its tag byte.
pub open spec fn parse_sub_record(d: Seq<u8>, p: int) -> Result<(SubRecordModel, int), ParseError> {
    if !avail(d, p, 1) {
        Err(ParseError::UnexpectedEof)
    } else {
        let q = p + 1;
        match d[p] {
            0x01 => fixed_read(
                d,
                q,
                16,
                SubRecordModel::JniGlobal { object_id: be_u64(d, q), global_ref_id: be_u64(d, q + 8) },
            ),
            0x02 => fixed_read(
                d,
                q,
                16,
                SubRecordModel::JniLocal {
                    object_id: be_u64(d, q),
                    thread_serial_number: be_u32(d, q + 8),
                    frame_number: be_u32(d, q + 12),
                },
            ),
            0x03 => fixed_read(
                d,
                q,
                16,
                SubRecordModel::JavaFrame {
                    object_id: be_u64(d, q),
                    thread_serial_number: be_u32(d, q + 8),
                    frame_number: be_u32(d, q + 12),
                },
            ),
            0x05 => fixed_read(d, q, 8, SubRecordModel::StickyClass { object_id: be_u64(d, q) }),
            0x08 => fixed_read(
                d,
                q,
                16,
                SubRecordModel::ThreadObj {
                    object_id: be_u64(d, q),
                    sequence_number: be_u32(d, q + 8),
                    stack_trace_sequence_number: be_u32(d, q + 12),
                },
            ),
            0x20 => parse_class_dump(d, q),
            0x21 => parse_instance_dump(d, q),
            0x22 => parse_obj_array_dump(d, q),
            0x23 => parse_prim_array_dump(d, q),
            tag => Err(ParseError::UnknownSubTag(tag)),
        }
    }
}

/// The type byte and the bytes that encode a field value.
pub open spec fn encode_field_value(v: FieldValue) -> (u8, Seq<u8>) {
    match v {
        FieldValue::NormalObject { object_id } => (0x02, u64_be_bytes(object_id)),
        FieldValue::Boolean(b) => (0x04, seq![b]),
        FieldValue::Char(c) => (0x05, u16_be_bytes(c)),
        FieldValue::Float(bits) => (0x06, u32_be_bytes(bits)),
        FieldValue::Double(bits) => (0x07, u64_be_bytes(bits)),
        FieldValue::Byte(b) => (0x08, seq![b]),
        FieldValue::Short(x) => (0x09, u16_be_bytes(x)),
        FieldValue::Int(x) => (0x0A, u32_be_bytes(x)),
        FieldValue::Long(x) => (0x0B, u64_be_bytes(x)),
    }
}

/// The bytes of a static field: name id, type byte, value.
pub open spec fn encode_field(f: Field) -> Seq<u8> {
    u64_be_bytes(f.name_id) + seq![encode_field_value(f.value).0] + encode_field_value(f.value).1
}

/// The type byte and the bytes that encode an array element.
pub open spec fn encode_element(e: PrimArrayElement) -> (u8, Seq<u8>) {
    match e {
        PrimArrayElement::Bool(b) => (0x04, seq![b]),
        PrimArrayElement::Char(c) => (0x05, u16_be_bytes(c)),
        PrimArrayElement::Float(bits) => (0x06, u32_be_bytes(bits)),
        PrimArrayElement::Double(bits) => (0x07, u64_be_bytes(bits)),
        PrimArrayElement::Byte(b) => (0x08, seq![b]),
        PrimArrayElement::Short(x) => (0x09, u16_be_bytes(x)),
        PrimArrayElement::Int(x) => (0x0A, u32_be_bytes(x)),
        PrimArrayElement::Long(x) => (0x0B, u64_be_bytes(x)),
    }
}

/// Decoding the encoding of a field value under its own type byte gives the value
/// back, bit for bit for floating-point values.
pub proof fn lemma_field_value_round_trip(v: FieldValue, d: Seq<u8>, p: int)
    requires
        0 <= p && p + encode_field_value(v).1.len() <= d.len(),
        d.subrange(p, p + encode_field_value(v).1.len()) == encode_field_value(v).1,
    ensures
        field_width(encode_field_value(v).0) == encode_field_value(v).1.len(),
        field_value_at(encode_field_value(v).0, d, p) == v,
{
    match v {
        FieldValue::NormalObject { object_id } => lemma_u64_round_trip(object_id, d, p),
        FieldValue::Char(x) => lemma_u16_round_trip(x, d, p),
        FieldValue::Float(x) => lemma_u32_round_trip(x, d, p),
        FieldValue::Double(x) => lemma_u64_round_trip(x, d, p),
        FieldValue::Short(x) => lemma_u16_round_trip(x, d, p),
        FieldValue::Int(x) => lemma_u32_round_trip(x, d, p),
        FieldValue::Long(x) => lemma_u64_round_trip(x, d, p),
        _ => {
            assert(d[p] == d.subrange(p, p + 1)[0]);
        },
    }
}

/// Decoding the encoding of a static field gives the field back and ends right
/// after it.
pub proof fn lemma_field_round_trip(f: Field, d: Seq<u8>, p: int)
    requires
        0 <= p && p + encode_field(f).len() <= d.len(),
        d.subrange(p, p + encode_field(f).len()) == encode_field(f),
    ensures
        parse_field(d, p) == Ok::<(Field, int), ParseError>((f, p + encode_field(f).len())),
{
    let e = encode_field(f);
    let (typ, bytes) = encode_field_value(f.value);
    assert(d.subrange(p, p + 8) =~= e.subrange(0, 8));
    assert(e.subrange(0, 8) =~= u64_be_bytes(f.name_id));
    lemma_u64_round_trip(f.name_id, d, p);
    assert(d[p + 8] == e[8]);
    assert(d.subrange(p + 9, p + 9 + bytes.len()) =~= e.subrange(9, e.len() as int));
    assert(e.subrange(9, e.len() as int) =~= bytes);
    lemma_field_value_round_trip(f.value, d, p + 9);
}

/// Decoding the encoding of an array element under its own type byte gives the
/// element back, bit for bit for floating-point values.
pub proof fn lemma_element_round_trip(e: PrimArrayElement, d: Seq<u8>, p: int)
    requires
        0 <= p && p + encode_element(e).1.len() <= d.len(),
        d.subrange(p, p + encode_element(e).1.len()) == encode_element(e).1,
    ensures
        element_width(encode_element(e).0) == encode_element(e).1.len(),
        element_at(encode_element(e).0, d, p) == e,
{
    match e {
        PrimArrayElement::Char(x) => lemma_u16_round_trip(x, d, p),
        PrimArrayElement::Float(x) => lemma_u32_round_trip(x, d, p),
        PrimArrayElement::Double(x) => lemma_u64_round_trip(x, d, p),
        PrimArrayElement::Short(x) => lemma_u16_round_trip(x, d, p),
        PrimArrayElement::Int(x) => lemma_u32_round_trip(x, d, p),
        PrimArrayElement::Long(x) => lemma_u64_round_trip(x, d, p),
        _ => {
            assert(d[p] == d.subrange(p, p + 1)[0]);
        },
    }
}

/// Once `k` static fields fail to decode, so do any `n >= k`, with the same error.
pub proof fn lemma_fields_error_persists(d: Seq<u8>, p: int, k: nat, n: nat)
    requires
        k <= n,
        parse_fields(d, p, k) is Err,
    ensures
        parse_fields(d, p, n) == parse_fields(d, p, k),
    decreases n - k,
{
    if n > k {
        lemma_fields_error_persists(d, p, k, (n - 1) as nat);
    }
}

/// Decoded static fields end inside the input, at or after where they start.
pub proof fn lemma_fields_span(d: Seq<u8>, p: int, n: nat)
    requires
        0 <= p <= d.len(),
        parse_fields(d, p, n) is Ok,
    ensures
        p <= parse_fields(d, p, n)->Ok_0.1 <= d.len(),
    decreases n,
{
    if n > 0 {
        lemma_fields_span(d, p, (n - 1) as nat);
    }
}

fn field_type_width(typ: u8) -> (r: usize)
    ensures
        r == field_width(typ),
{
    match typ {
        0x02 => 8,
        0x04 => 1,
        0x05 => 2,
        0x06 => 4,
        0x07 => 8,
        0x08 => 1,
        0x09 => 2,
        0x0A => 4,
        0x0B => 8,
        _ => 0,
    }
}

fn element_type_width(typ: u8) -> (r: usize)
    ensures
        r == element_width(typ),
{
    if typ == 0x02 {
        0
    } else {
        field_type_width(typ)
    }
}

fn read_field_value(data: &[u8], pos: usize, typ: u8) -> (r: FieldValue)
    requires
        field_width(typ) > 0,
        avail(data@, pos as int, field_width(typ)),
    ensures
        r == field_value_at(typ, data@, pos as int),
{
    match typ {
        0x02 => FieldValue::NormalObject { object_id: get_u64(data, pos) },
        0x04 => FieldValue::Boolean(data[pos]),
        0x05 => FieldValue::Char(get_u16(data, pos)),
        0x06 => FieldValue::Float(get_u32(data, pos)),
        0x07 => FieldValue::Double(get_u64(data, pos)),
        0x08 => FieldValue::Byte(data[pos]),
        0x09 => FieldValue::Short(get_u16(data, pos)),
        0x0A => FieldValue::Int(get_u32(data, pos)),
        _ => FieldValue::Long(get_u64(data, pos)),
    }
}

fn read_element(data: &[u8], pos: usize, typ: u8) -> (r: PrimArrayElement)
    requires
        element_width(typ) > 0,
        avail(data@, pos as int, element_width(typ)),
    ensures
        r == element_at(typ, data@, pos as int),
{
    match typ {
        0x04 => PrimArrayElement::Bool(data[pos]),
        0x05 => PrimArrayElement::Char(get_u16(data, pos)),
        0x06 => PrimArrayElement::Float(get_u32(data, pos)),
        0x07 => PrimArrayElement::Double(get_u64(data, pos)),
        0x08 => PrimArrayElement::Byte(data[pos]),
        0x09 => PrimArrayElement::Short(get_u16(data, pos)),
        0x0A => PrimArrayElement::Int(get_u32(data, pos)),
        _ => PrimArrayElement::Long(get_u64(data, pos)),
    }
}

impl Field {
    /// Decodes one static field at `pos`.
    fn new(data: &[u8], pos: usize) -> (r: Result<(Field, usize), ParseError>)
        ensures
            read_agrees(r, parse_field(data@, pos as int)),
    {
        if !available(data, pos, 9) {
            return Err(ParseError::UnexpectedEof);
        }
        let name_id = get_u64(data, pos);
        let typ = data[pos + 8];
        let w = field_type_width(typ);
        if w == 0 {
            return Err(ParseError::BadFieldType(typ));
        }
        let vpos = pos + 9;
        if !available(data, vpos, w as u64) {
            return Err(ParseError::UnexpectedEof);
        }
        let value = read_field_value(data, vpos, typ);
        Ok((Field { name_id, value }, vpos + w))
    }
}

impl SubRecord {
    /// Decodes the sub-record at `pos`.
    pub fn new(data: &[u8], pos: usize) -> (r: Result<(SubRecord, usize), ParseError>)
        ensures
            parsed_as(r, parse_sub_record(data@, pos as int)),
    {
        if pos >= data.len() {
            return Err(ParseError::UnexpectedEof);
        }
        let tag = data[pos];
        let q = pos + 1;
        match tag {
            0x01 => Self::jni_global(data, q),
            0x02 => Self::jni_local(data, q),
            0x03 => Self::java_frame(data, q),
            0x05 => Self::sticky_class(data, q),
            0x08 => Self::thread_obj(data, q),
            0x20 => Self::class_dump(data, q),
            0x21 => Self::instance_dump(data, q),
            0x22 => Self::obj_array_dump(data, q),
            0x23 => Self::prim_array_dump(data, q),
            _ => Err(ParseError::UnknownSubTag(tag)),
        }
    }

    fn class_dump(data: &[u8], pos: usize) -> (r: Result<(SubRecord, usize), ParseError>)
        ensures
            parsed_as(r, parse_class_dump(data@, pos as int)),
    {
        if !available(data, pos, 68) {
            return Err(ParseError::UnexpectedEof);
        }
        let number_of_static_fields = get_u16(data, pos + 66);
        let start = pos + 68;
        let mut static_fields: Vec<Field> = Vec::new();
        let mut q = start;
        let mut i: u16 = 0;
        while i < number_of_static_fields
            invariant
                i <= number_of_static_fields,
                number_of_static_fields == be_u16(data@, pos + 66),
                avail(data@, pos as int, 68),
                start == pos + 68,
                parse_fields(data@, start as int, i as nat) == Ok::<(Seq<Field>, int), ParseError>(
                    (static_fields@, q as int),
                ),
            decreases number_of_static_fields - i,
        {
            match Field::new(data, q) {
                Ok((f, next)) => {
                    static_fields.push(f);
                    q = next;
                },
                Err(e) => {
                    proof {
                        assert(parse_fields(data@, start as int, (i + 1) as nat) == Err::<
                            (Seq<Field>, int),
                            ParseError,
                        >(e));
                        lemma_fields_error_persists(
                            data@,
                            start as int,
                            (i + 1) as nat,
                            number_of_static_fields as nat,
                        );
                    }
                    return Err(e);
                },
            }
            i = i + 1;
        }
        proof {
            lemma_fields_span(data@, start as int, number_of_static_fields as nat);
        }
        if !available(data, q, 2) {
            return Err(ParseError::UnexpectedEof);
        }
        let number_of_instance_fields = get_u16(data, q);
        let base = q + 2;
        if !available(data, base, 9 * number_of_instance_fields as u64) {
            return Err(ParseError::UnexpectedEof);
        }
        let mut instance_field_descriptors: Vec<FieldDescriptor> = Vec::new();
        let mut j: u16 = 0;
        while j < number_of_instance_fields
            invariant
                j <= number_of_instance_fields,
                data@.len() <= usize::MAX,
                avail(data@, base as int, 9 * number_of_instance_fields),
                instance_field_descriptors@ =~= descriptors_at(data@, base as int, j as nat),
            decreases number_of_instance_fields - j,
        {
            let at = base + 9 * (j as usize);
            let d = FieldDescriptor { name_id: get_u64(data, at), typ: data[at + 8] };
            instance_field_descriptors.push(d);
            j = j + 1;
        }
        let end = base + 9 * (number_of_instance_fields as usize);
        Ok(
            (
                SubRecord::ClassDump {
                    class_object_id: get_u64(data, pos),
                    stack_trace_serial_number: get_u32(data, pos + 8),
                    super_class_object_id: get_u64(data, pos + 12),
                    class_loader_object_id: get_u64(data, pos + 20),
                    signers_object_id: get_u64(data, pos + 28),
                    protection_domain_object_id: get_u64(data, pos + 36),
                    reserved1: get_u64(data, pos + 44),
                    reserved2: get_u64(data, pos + 52),
                    instance_size: get_u32(data, pos + 60),
                    constant_pool_size: get_u16(data, pos + 64),
                    number_of_static_fields,
                    static_fields,
                    number_of_instance_fields,
                    instance_field_descriptors,
                },
                end,
            ),
        )
    }

    fn instance_dump(data: &[u8], pos: usize) -> (r: Result<(SubRecord, usize), ParseError>)
        ensures
            parsed_as(r, parse_instance_dump(data@, pos as int)),
    {
        if !available(data, pos, 24) {
            return Err(ParseError::UnexpectedEof);
        }
        let number_of_bytes = get_u32(data, pos + 20);
        match read_bytes(data, pos + 24, number_of_bytes as usize) {
            Ok((raw_field_bytes, end)) => Ok(
                (
                    SubRecord::InstanceDump {
                        object_id: get_u64(data, pos),
                        stack_trace_serial_number: get_u32(data, pos + 8),
                        class_object_id: get_u64(data, pos + 12),
                        number_of_bytes,
                        raw_field_bytes,
                    },
                    end,
                ),
            ),
            Err(e) => Err(e),
        }
    }

    fn obj_array_dump(data: &[u8], pos: usize) -> (r: Result<(SubRecord, usize), ParseError>)
        ensures
            parsed_as(r, parse_obj_array_dump(data@, pos as int)),
    {
        if !available(data, pos, 24) {
            return Err(ParseError::UnexpectedEof);
        }
        let n = get_u32(data, pos + 12);
        let base = pos + 24;
        if !available(data, base, 8 * n as u64) {
            return Err(ParseError::UnexpectedEof);
        }
        let mut elements: Vec<u64> = Vec::new();
        let mut i: u32 = 0;
        while i < n
            invariant
                i <= n,
                data@.len() <= usize::MAX,
                avail(data@, base as int, 8 * n),
                elements@ =~= Seq::new(i as nat, |k: int| be_u64(data@, base + 8 * k)),
            decreases n - i,
        {
            elements.push(get_u64(data, base + 8 * (i as usize)));
            i = i + 1;
        }
        let end = base + 8 * (n as usize);
        Ok(
            (
                SubRecord::ObjArrayDump {
                    object_id: get_u64(data, pos),
                    stack_trace_serial_number: get_u32(data, pos + 8),
                    array_class_id: get_u64(data, pos + 16),
                    elements,
                },
                end,
            ),
        )
    }

    fn prim_array_dump(data: &[u8], pos: usize) -> (r: Result<(SubRecord, usize), ParseError>)
        ensures
            parsed_as(r, parse_prim_array_dump(data@, pos as int)),
    {
        if !available(data, pos, 17) {
            return Err(ParseError::UnexpectedEof);
        }
        let n = get_u32(data, pos + 12);
        let typ = data[pos + 16];
        let w = element_type_width(typ);
        if n != 0 && w == 0 {
            return Err(ParseError::BadArrayType(typ));
        }
        let base = pos + 17;
        proof {
            assert(w as int * n as int <= 8 * n as int) by (nonlinear_arith)
                requires
                    w <= 8,
            ;
        }
        if !available(data, base, (w as u64) * (n as u64)) {
            return Err(ParseError::UnexpectedEof);
        }
        let mut elements: Vec<PrimArrayElement> = Vec::new();
        let mut at = base;
        let mut i: u32 = 0;
        while i < n
            invariant
                i <= n,
                data@.len() <= usize::MAX,
                n > 0 ==> w > 0,
                w == element_width(typ),
                avail(data@, base as int, w * n),
                at == base + w * i,
                elements@ =~= Seq::new(i as nat, |k: int| element_at(typ, data@, base + w * k)),
            decreases n - i,
        {
            proof {
                assert(w * i + w <= w * n) by (nonlinear_arith)
                    requires
                        i < n,
                        w >= 0,
                ;
                assert(w * (i + 1) == w * i + w) by (nonlinear_arith);
            }
            elements.push(read_element(data, at, typ));
            at = at + w;
            i = i + 1;
        }
        Ok(
            (
                SubRecord::PrimArrayDump {
                    object_id: get_u64(data, pos),
                    stack_trace_serial_number: get_u32(data, pos + 8),
                    typ,
                    elements,
                },
                at,
            ),
        )
    }

    fn thread_obj(data: &[u8], pos: usize) -> (r: Result<(SubRecord, usize), ParseError>)
        ensures
            parsed_as(
                r,
                fixed_read(
                    data@,
                    pos as int,
                    16,
                    SubRecordModel::ThreadObj {
                        object_id: be_u64(data@, pos as int),
                        sequence_number: be_u32(data@, pos + 8),
                        stack_trace_sequence_number: be_u32(data@, pos + 12),
                    },
                ),
            ),
    {
        if !available(data, pos, 16) {
            return Err(ParseError::UnexpectedEof);
        }
        Ok(
            (
                SubRecord::ThreadObj {
                    object_id: get_u64(data, pos),
                    sequence_number: get_u32(data, pos + 8),
                    stack_trace_sequence_number: get_u32(data, pos + 12),
                },
                pos + 16,
            ),
        )
    }

    fn java_frame(data: &[u8], pos: usize) -> (r: Result<(SubRecord, usize), ParseError>)
        ensures
            parsed_as(
                r,
                fixed_read(
                    data@,
                    pos as int,
                    16,
                    SubRecordModel::JavaFrame {
                        object_id: be_u64(data@, pos as int),
                        thread_serial_number: be_u32(data@, pos + 8),
                        frame_number: be_u32(data@, pos + 12),
                    },
                ),
            ),
    {
        if !available(data, pos, 16) {
            return Err(ParseError::UnexpectedEof);
        }
        Ok(
            (
                SubRecord::JavaFrame {
                    object_id: get_u64(data, pos),
                    thread_serial_number: get_u32(data, pos + 8),
                    frame_number: get_u32(data, pos + 12),
                },
                pos + 16,
            ),
        )
    }

    fn jni_local(data: &[u8], pos: usize) -> (r: Result<(SubRecord, usize), ParseError>)
        ensures
            parsed_as(
                r,
                fixed_read(
                    data@,
                    pos as int,
                    16,
                    SubRecordModel::JniLocal {
                        object_id: be_u64(data@, pos as int),
                        thread_serial_number: be_u32(data@, pos + 8),
                        frame_number: be_u32(data@, pos + 12),
                    },
                ),
            ),
    {
        if !available(data, pos, 16) {
            return Err(ParseError::UnexpectedEof);
        }
        Ok(
            (
                SubRecord::JniLocal {
                    object_id: get_u64(data, pos),
                    thread_serial_number: get_u32(data, pos + 8),
                    frame_number: get_u32(data, pos + 12),
                },
                pos + 16,
            ),
        )
    }

    fn jni_global(data: &[u8], pos: usize) -> (r: Result<(SubRecord, usize), ParseError>)
        ensures
            parsed_as(
                r,
                fixed_read(
                    data@,
                    pos as int,
                    16,
                    SubRecordModel::JniGlobal {
                        object_id: be_u64(data@, pos as int),
                        global_ref_id: be_u64(data@, pos + 8),
                    },
                ),
            ),
    {
        if !available(data, pos, 16) {
            return Err(ParseError::UnexpectedEof);
        }
        Ok(
            (
                SubRecord::JniGlobal { object_id: get_u64(data, pos), global_ref_id: get_u64(data, pos + 8) },
                pos + 16,
            ),
        )
    }

    fn sticky_class(data: &[u8], pos: usize) -> (r: Result<(SubRecord, usize), ParseError>)
        ensures
            parsed_as(
                r,
                fixed_read(data@, pos as int, 8, SubRecordModel::StickyClass { object_id: be_u64(data@, pos as int) }),
            ),
    {
        if !available(data, pos, 8) {
            return Err(ParseError::UnexpectedEof);
        }
        Ok((SubRecord::StickyClass { object_id: get_u64(data, pos) }, pos + 8))
    }
}

/// The name of a sub-record's kind.
pub open spec fn sub_record_kind_name(r: SubRecordModel) -> Seq<char> {
    match r {
        SubRecordModel::ClassDump { .. } => "ClassDump"@,
        SubRecordModel::InstanceDump { .. } => "InstanceDump"@,
        SubRecordModel::ObjArrayDump { .. } => "ObjArrayDump"@,
        SubRecordModel::PrimArrayDump { .. } => "PrimArrayDump"@,
        SubRecordModel::ThreadObj { .. } => "ThreadObj"@,
        SubRecordModel::JavaFrame { .. } => "JavaFrame"@,
        SubRecordModel::JniLocal { .. } => "JniLocal"@,
        SubRecordModel::JniGlobal { .. } => "JniGlobal"@,
        SubRecordModel::StickyClass { .. } => "StickyClass"@,
        SubRecordModel::HeapDumpEnd => "HeapDumpEnd"@,
    }
}

impl SubRecord {
    /// The name of this sub-record's kind, as used in messages.
    pub fn kind_name(&self) -> (r: &'static str)
        ensures
            r@ == sub_record_kind_name(self@),
    {
        match self {
            SubRecord::ClassDump { .. } => "ClassDump",
            SubRecord::InstanceDump { .. } => "InstanceDump",
            SubRecord::ObjArrayDump { .. } => "ObjArrayDump",
            SubRecord::PrimArrayDump { .. } => "PrimArrayDump",
            SubRecord::ThreadObj { .. } => "ThreadObj",
            SubRecord::JavaFrame { .. } => "JavaFrame",
            SubRecord::JniLocal { .. } => "JniLocal",
            SubRecord::JniGlobal { .. } => "JniGlobal",
            SubRecord::StickyClass { .. } => "StickyClass",
            SubRecord::HeapDumpEnd => "HeapDumpEnd",
        }
    }
}

} // verus!

//! Resolution of a decoded dump: string ids to text, classes to their names,
//! frames to their method and file names, instances to their classes.

use std::collections::HashMap;

use vstd::prelude::*;

use crate::parser::sub_record::{SubRecord, SubRecordModel};
use crate::parser::{records_view, sub_records_view, Id, ParsedHeap, Record, RecordModel};

verus! {

broadcast use vstd::std_specs::hash::group_hash_axioms;

/// A reference that the resolver could not satisfy.
#[derive(Debug, Clone, Copy, PartialEq, Eq, Structural)]
pub enum AnalyzeError {
    /// No string record has this id.
    DanglingStringRef(Id),
    /// No class load record has this class object id.
    DanglingClassRef(Id),
}

#[derive(Debug, Clone)]
pub struct Class {
    pub id: Id,
    pub name: String,
}

#[derive(Debug)]
pub struct Instance {
    pub id: Id,
    pub class: Class,
}

#[derive(Debug)]
pub struct Frame {
    pub id: Id,
    pub method_name: String,
    pub method_signature: String,
    pub source_file_name: String,
    pub class_serial_number: u32,
    pub line_number: i32,
}

/// The tables of a resolved dump, keyed by the raw value of each id.
#[derive(Debug)]
pub struct AnalyzedHeap {
    pub strings: HashMap<u64, String>,
    pub classes: HashMap<u64, Class>,
    pub frames: Vec<Frame>,
    pub instances: HashMap<u64, Instance>,
}

pub struct ClassModel {
    pub id: Id,
    pub name: Seq<char>,
}

pub struct InstanceModel {
    pub id: Id,
    pub class: ClassModel,
}

pub struct FrameModel {
    pub id: Id,
    pub method_name: Seq<char>,
    pub method_signature: Seq<char>,
    pub source_file_name: Seq<char>,
    pub class_serial_number: u32,
    pub line_number: i32,
}

pub struct AnalyzedHeapModel {
    pub strings: Map<u64, Seq<char>>,
    pub classes: Map<u64, ClassModel>,
    pub frames: Seq<FrameModel>,
    pub instances: Map<u64, InstanceModel>,
}

impl View for Class {
    type V = ClassModel;

    open spec fn view(&self) -> ClassModel {
        ClassModel { id: self.id, name: self.name@ }
    }
}

impl View for Instance {
    type V = InstanceModel;

    open spec fn view(&self) -> InstanceModel {
        InstanceModel { id: self.id, class: self.class@ }
    }
}

impl View for Frame {
    type V = FrameModel;

    open spec fn view(&self) -> FrameModel {
        FrameModel {
            id: self.id,
            method_name: self.method_name@,
            method_signature: self.method_signature@,
            source_file_name: self.source_file_name@,
            class_serial_number: self.class_serial_number,
            line_number: self.line_number,
        }
    }
}

pub open spec fn strings_view(m: Map<u64, String>) -> Map<u64, Seq<char>> {
    m.map_values(|s: String| s@)
}

pub open spec fn classes_view(m: Map<u64, Class>) -> Map<u64, ClassModel> {
    m.map_values(|c: Class| c@)
}

pub open spec fn instances_view(m: Map<u64, Instance>) -> Map<u64, InstanceModel> {
    m.map_values(|i: Instance| i@)
}

pub open spec fn frames_view(s: Seq<Frame>) -> Seq<FrameModel> {
    s.map_values(|f: Frame| f@)
}

impl View for AnalyzedHeap {
    type V = AnalyzedHeapModel;

    open spec fn view(&self) -> AnalyzedHeapModel {
        AnalyzedHeapModel {
            strings: strings_view(self.strings@),
            classes: classes_view(self.classes@),
            frames: frames_view(self.frames@),
            instances: instances_view(self.instances@),
        }
    }
}

/// Id to text, over all string records; a later record with the same id wins.
pub open spec fn string_table(records: Seq<RecordModel>) -> Map<u64, Seq<char>>
    decreases records.len(),
{
    if records.len() == 0 {
        Map::empty()
    } else {
        let table = string_table(records.drop_last());
        match records.last() {
            RecordModel::Utf8 { name_id, content, .. } => table.insert(name_id.0, content),
            _ => table,
        }
    }
}

/// The tables built while walking the records in order.
pub struct Tables {
    pub classes: Map<u64, ClassModel>,
    pub frames: Seq<FrameModel>,
    pub instances: Map<u64, InstanceModel>,
}

pub open spec fn empty_tables() -> Tables {
    Tables { classes: Map::empty(), frames: Seq::empty(), instances: Map::empty() }
}

/// Adds the instance dumps among `subs`, each with the class it names.
pub open spec fn resolve_instances(
    classes: Map<u64, ClassModel>,
    instances: Map<u64, InstanceModel>,
    subs: Seq<SubRecordModel>,
) -> Result<Map<u64, InstanceModel>, AnalyzeError>
    decreases subs.len(),
{
    if subs.len() == 0 {
        Ok(instances)
    } else {
        match resolve_instances(classes, instances, subs.drop_last()) {
            Ok(m) => match subs.last() {
                SubRecordModel::InstanceDump { object_id, class_object_id, .. } => if classes.contains_key(
                    class_object_id,
                ) {
                    Ok(m.insert(object_id, InstanceModel { id: Id(object_id), class: classes[class_object_id] }))
                } else {
                    Err(AnalyzeError::DanglingClassRef(Id(class_object_id)))
                },
                _ => Ok(m),
            },
            Err(e) => Err(e),
        }
    }
}

/// The effect of one record on the tables.
pub open spec fn resolve_record(strings: Map<u64, Seq<char>>, t: Tables, r: RecordModel) -> Result<
    Tables,
    AnalyzeError,
> {
    match r {
        RecordModel::Frame {
            stack_frame_id,
            method_name_id,
            method_signature_id,
            source_file_name_id,
            class_serial_number,
            line_number,
            ..
        } => if !strings.contains_key(method_name_id.0) {
            Err(AnalyzeError::DanglingStringRef(method_name_id))
        } else if !strings.contains_key(method_signature_id.0) {
            Err(AnalyzeError::DanglingStringRef(method_signature_id))
        } else if !strings.contains_key(source_file_name_id.0) {
            Err(AnalyzeError::DanglingStringRef(source_file_name_id))
        } else {
            Ok(
                Tables {
                    classes: t.classes,
                    frames: t.frames.push(
                        FrameModel {
                            id: stack_frame_id,
                            method_name: strings[method_name_id.0],
                            method_signature: strings[method_signature_id.0],
                            source_file_name: strings[source_file_name_id.0],
                            class_serial_number,
                            line_number,
                        },
                    ),
                    instances: t.instances,
                },
            )
        },
        RecordModel::LoadClass { class_object_id, class_name_id, .. } => if !strings.contains_key(
            class_name_id.0,
        ) {
            Err(AnalyzeError::DanglingStringRef(class_name_id))
        } else {
            Ok(
                Tables {
                    classes: t.classes.insert(
                        class_object_id.0,
                        ClassModel { id: class_object_id, name: strings[class_name_id.0] },
                    ),
                    frames: t.frames,
                    instances: t.instances,
                },
            )
        },
        RecordModel::HeapDumpSegment { sub_records, .. } => match resolve_instances(
            t.classes,
            t.instances,
            sub_records,
        ) {
            Ok(instances) => Ok(Tables { classes: t.classes, frames: t.frames, instances }),
            Err(e) => Err(e),
        },
        _ => Ok(t),
    }
}

/// The records' effect on the tables, in order, against the full string table.
pub open spec fn resolve_records(strings: Map<u64, Seq<char>>, records: Seq<RecordModel>) -> Result<
    Tables,
    AnalyzeError,
>
    decreases records.len(),
{
    if records.len() == 0 {
        Ok(empty_tables())
    } else {
        match resolve_records(strings, records.drop_last()) {
            Ok(t) => resolve_record(strings, t, records.last()),
            Err(e) => Err(e),
        }
    }
}

/// What resolving a dump's records yields.
pub open spec fn analyze_records(records: Seq<RecordModel>) -> Result<AnalyzedHeapModel, AnalyzeError> {
    let strings = string_table(records);
    match resolve_records(strings, records) {
        Ok(t) => Ok(
            AnalyzedHeapModel {
                strings,
                classes: t.classes,
                frames: t.frames,
                instances: t.instances,
            },
        ),
        Err(e) => Err(e),
    }
}

/// `r` is a string record for the id `id`.
pub open spec fn is_string_record(r: RecordModel, id: u64) -> bool {
    match r {
        RecordModel::Utf8 { name_id, .. } => name_id.0 == id,
        _ => false,
    }
}

/// The number of string records among `records`.
pub open spec fn string_record_count(records: Seq<RecordModel>) -> nat
    decreases records.len(),
{
    if records.len() == 0 {
        0
    } else {
        string_record_count(records.drop_last()) + if records.last() is Utf8 {
            1nat
        } else {
            0nat
        }
    }
}

/// No two string records share an id.
pub open spec fn string_ids_unique(records: Seq<RecordModel>) -> bool {
    forall|i: int, j: int, id: u64|
        0 <= i < j < records.len() && #[trigger] is_string_record(records[i], id)
            ==> !#[trigger] is_string_record(records[j], id)
}

/// The string table holds an id exactly when some string record has it.
pub proof fn lemma_string_table_domain(records: Seq<RecordModel>)
    ensures
        string_table(records).dom().finite(),
        forall|id: u64|
            #[trigger] string_table(records).contains_key(id) <==> exists|j: int|
                0 <= j < records.len() && #[trigger] is_string_record(records[j], id),
    decreases records.len(),
{
    if records.len() > 0 {
        let prefix = records.drop_last();
        let last = records.len() - 1;
        lemma_string_table_domain(prefix);
        let t = string_table(prefix);
        assert forall|id: u64| #[trigger] string_table(records).contains_key(id) <==> exists|j: int|
            0 <= j < records.len() && #[trigger] is_string_record(records[j], id) by {
            assert(records.last() == records[last]);
            if is_string_record(records[last], id) {
                assert(string_table(records).contains_key(id));
            } else {
                assert(string_table(records).contains_key(id) == t.contains_key(id));
            }
            if t.contains_key(id) {
                let j = choose|j: int| 0 <= j < prefix.len() && #[trigger] is_string_record(prefix[j], id);
                assert(records[j] == prefix[j]);
            }
            if exists|j: int| 0 <= j < records.len() && #[trigger] is_string_record(records[j], id) {
                let j = choose|j: int| 0 <= j < records.len() && #[trigger] is_string_record(records[j], id);
                if j < last {
                    assert(prefix[j] == records[j]);
                }
            }
        }
    }
}

/// For an id that several string records share, the table holds the text of the
/// last of them.
pub proof fn lemma_string_table_last_wins(records: Seq<RecordModel>, j: int, id: u64)
    requires
        0 <= j < records.len(),
        is_string_record(records[j], id),
        forall|k: int| j < k < records.len() ==> !#[trigger] is_string_record(records[k], id),
    ensures
        string_table(records).contains_key(id),
        string_table(records)[id] == records[j]->Utf8_content,
    decreases records.len(),
{
    let prefix = records.drop_last();
    if j < records.len() - 1 {
        assert(!is_string_record(records[records.len() - 1], id));
        assert(prefix[j] == records[j]);
        assert forall|k: int| j < k < prefix.len() implies !#[trigger] is_string_record(prefix[k], id) by {
            assert(prefix[k] == records[k]);
        }
        lemma_string_table_last_wins(prefix, j, id);
    }
}

/// With no id repeated, the string table has one entry per string record.
pub proof fn lemma_string_table_size(records: Seq<RecordModel>)
    requires
        string_ids_unique(records),
    ensures
        string_table(records).len() == string_record_count(records),
    decreases records.len(),
{
    if records.len() > 0 {
        let prefix = records.drop_last();
        let last = records.len() - 1;
        assert(string_ids_unique(prefix)) by {
            assert forall|i: int, j: int, id: u64|
                0 <= i < j < prefix.len() && #[trigger] is_string_record(prefix[i], id)
                    implies !#[trigger] is_string_record(prefix[j], id) by {
                assert(prefix[i] == records[i] && prefix[j] == records[j]);
            }
        }
        lemma_string_table_size(prefix);
        lemma_string_table_domain(prefix);
        let t = string_table(prefix);
        if let RecordModel::Utf8 { name_id, .. } = records.last() {
            if t.contains_key(name_id.0) {
                let j = choose|j: int| 0 <= j < prefix.len() && #[trigger] is_string_record(prefix[j], name_id.0);
                assert(records[j] == prefix[j]);
                assert(is_string_record(records[last], name_id.0));
            }
        }
    }
}

/// `f` is the frame that the frame record `r` describes, with its texts looked up.
pub open spec fn names_frame(strings: Map<u64, Seq<char>>, r: RecordModel, f: FrameModel) -> bool {
    match r {
        RecordModel::Frame {
            stack_frame_id,
            method_name_id,
            method_signature_id,
            source_file_name_id,
            class_serial_number,
            line_number,
            ..
        } => {
            &&& f.id == stack_frame_id
            &&& strings.contains_key(method_name_id.0) && f.method_name == strings[method_name_id.0]
            &&& strings.contains_key(method_signature_id.0) && f.method_signature
                == strings[method_signature_id.0]
            &&& strings.contains_key(source_file_name_id.0) && f.source_file_name
                == strings[source_file_name_id.0]
            &&& f.class_serial_number == class_serial_number && f.line_number == line_number
        },
        _ => false,
    }
}

/// `c` is the class that the class load record `r` describes, with its name looked up.
pub open spec fn names_class(strings: Map<u64, Seq<char>>, r: RecordModel, c: ClassModel) -> bool {
    match r {
        RecordModel::LoadClass { class_object_id, class_name_id, .. } => {
            &&& c.id == class_object_id
            &&& strings.contains_key(class_name_id.0)
            &&& c.name == strings[class_name_id.0]
        },
        _ => false,
    }
}

/// Some record of `records` describes the frame `f`.
pub open spec fn frame_from_records(strings: Map<u64, Seq<char>>, records: Seq<RecordModel>, f: FrameModel) -> bool {
    exists|j: int| 0 <= j < records.len() && #[trigger] names_frame(strings, records[j], f)
}

/// Some record of `records` describes the class `c`.
pub open spec fn class_from_records(strings: Map<u64, Seq<char>>, records: Seq<RecordModel>, c: ClassModel) -> bool {
    exists|j: int| 0 <= j < records.len() && #[trigger] names_class(strings, records[j], c)
}

/// Each table entry comes from one of `records` and sits under its own id.
pub open spec fn tables_from_records(strings: Map<u64, Seq<char>>, records: Seq<RecordModel>, t: Tables) -> bool {
    &&& forall|k: int|
        0 <= k < t.frames.len() ==> #[trigger] frame_from_records(strings, records, t.frames[k])
    &&& forall|c: u64|
        #[trigger] t.classes.contains_key(c) ==> t.classes[c].id == Id(c) && class_from_records(
            strings,
            records,
            t.classes[c],
        )
    &&& forall|o: u64|
        #[trigger] t.instances.contains_key(o) ==> t.instances[o].id == Id(o) && class_from_records(
            strings,
            records,
            t.instances[o].class,
        )
}

/// An entry that comes from a prefix of the records comes from the records.
proof fn lemma_from_prefix(strings: Map<u64, Seq<char>>, records: Seq<RecordModel>)
    requires
        records.len() > 0,
    ensures
        forall|f: FrameModel|
            #[trigger] frame_from_records(strings, records.drop_last(), f) ==> frame_from_records(
                strings,
                records,
                f,
            ),
        forall|c: ClassModel|
            #[trigger] class_from_records(strings, records.drop_last(), c) ==> class_from_records(
                strings,
                records,
                c,
            ),
{
    let prefix = records.drop_last();
    assert forall|f: FrameModel| #[trigger] frame_from_records(strings, prefix, f) implies frame_from_records(
        strings,
        records,
        f,
    ) by {
        let j = choose|j: int| 0 <= j < prefix.len() && #[trigger] names_frame(strings, prefix[j], f);
        assert(records[j] == prefix[j]);
    }
    assert forall|c: ClassModel| #[trigger] class_from_records(strings, prefix, c) implies class_from_records(
        strings,
        records,
        c,
    ) by {
        let j = choose|j: int| 0 <= j < prefix.len() && #[trigger] names_class(strings, prefix[j], c);
        assert(records[j] == prefix[j]);
    }
}

proof fn lemma_instances_from_records(
    strings: Map<u64, Seq<char>>,
    records: Seq<RecordModel>,
    t: Tables,
    subs: Seq<SubRecordModel>,
)
    requires
        tables_from_records(strings, records, t),
        resolve_instances(t.classes, t.instances, subs) is Ok,
    ensures
        tables_from_records(
            strings,
            records,
            Tables {
                classes: t.classes,
                frames: t.frames,
                instances: resolve_instances(t.classes, t.instances, subs)->Ok_0,
            },
        ),
    decreases subs.len(),
{
    if subs.len() > 0 {
        lemma_instances_from_records(strings, records, t, subs.drop_last());
        let m = resolve_instances(t.classes, t.instances, subs.drop_last())->Ok_0;
        let m2 = resolve_instances(t.classes, t.instances, subs)->Ok_0;
        assert forall|o: u64| #[trigger] m2.contains_key(o) implies m2[o].id == Id(o)
            && class_from_records(strings, records, m2[o].class) by {
            let mt = Tables { classes: t.classes, frames: t.frames, instances: m };
            assert(tables_from_records(strings, records, mt));
            if let SubRecordModel::InstanceDump { object_id, class_object_id, .. } = subs.last() {
                assert(t.classes.contains_key(class_object_id));
                assert(m2 == m.insert(
                    object_id,
                    InstanceModel { id: Id(object_id), class: t.classes[class_object_id] },
                ));
                if o != object_id {
                    assert(mt.instances.contains_key(o));
                }
            } else {
                assert(m2 == m);
                assert(mt.instances.contains_key(o));
            }
        }
    }
}

proof fn lemma_tables_from_records(strings: Map<u64, Seq<char>>, records: Seq<RecordModel>)
    requires
        resolve_records(strings, records) is Ok,
    ensures
        tables_from_records(strings, records, resolve_records(strings, records)->Ok_0),
    decreases records.len(),
{
    if records.len() > 0 {
        let prefix = records.drop_last();
        let last = records.len() - 1;
        lemma_tables_from_records(strings, prefix);
        lemma_from_prefix(strings, records);
        let t = resolve_records(strings, prefix)->Ok_0;
        let t2 = resolve_records(strings, records)->Ok_0;
        assert forall|k: int| 0 <= k < t.frames.len() implies #[trigger] frame_from_records(
            strings,
            records,
            t.frames[k],
        ) by {
            assert(frame_from_records(strings, prefix, t.frames[k]));
        }
        assert forall|c: u64| #[trigger] t.classes.contains_key(c) implies class_from_records(
            strings,
            records,
            t.classes[c],
        ) by {
            assert(class_from_records(strings, prefix, t.classes[c]));
        }
        assert forall|o: u64| #[trigger] t.instances.contains_key(o) implies class_from_records(
            strings,
            records,
            t.instances[o].class,
        ) by {
            assert(class_from_records(strings, prefix, t.instances[o].class));
        }
        assert(tables_from_records(strings, records, t));
        match records.last() {
            RecordModel::Frame { .. } => {
                assert forall|k: int| 0 <= k < t2.frames.len() implies #[trigger] frame_from_records(
                    strings,
                    records,
                    t2.frames[k],
                ) by {
                    if k == t.frames.len() {
                        assert(names_frame(strings, records[last], t2.frames[k]));
                    } else {
                        assert(t2.frames[k] == t.frames[k]);
                    }
                }
            },
            RecordModel::LoadClass { class_object_id, .. } => {
                assert forall|c: u64| #[trigger] t2.classes.contains_key(c) implies t2.classes[c].id == Id(c)
                    && class_from_records(strings, records, t2.classes[c]) by {
                    if c == class_object_id.0 {
                        assert(names_class(strings, records[last], t2.classes[c]));
                    } else {
                        assert(t.classes.contains_key(c));
                    }
                }
            },
            RecordModel::HeapDumpSegment { sub_records, .. } => {
                lemma_instances_from_records(strings, records, t, sub_records);
            },
            _ => {},
        }
    }
}

/// Every frame, class and instance of a resolved dump comes from a record of the
/// dump: a frame from a frame record, a class (also the class of an instance)
/// from a class load record with the same class id; and each carries the texts
/// that the string table holds for the record's string ids.
pub proof fn lemma_resolved_entries_carry_their_strings(records: Seq<RecordModel>)
    requires
        analyze_records(records) is Ok,
    ensures
        ({
            let h = analyze_records(records)->Ok_0;
            tables_from_records(
                h.strings,
                records,
                Tables { classes: h.classes, frames: h.frames, instances: h.instances },
            )
        }),
{
    lemma_tables_from_records(string_table(records), records);
}

/// Once a prefix of the records fails to resolve, all of them fail the same way.
pub proof fn lemma_resolve_error_persists(strings: Map<u64, Seq<char>>, records: Seq<RecordModel>, k: int)
    requires
        0 <= k <= records.len(),
        resolve_records(strings, records.take(k)) is Err,
    ensures
        resolve_records(strings, records) == resolve_records(strings, records.take(k)),
    decreases records.len() - k,
{
    if k < records.len() {
        assert(records.take(k + 1).drop_last() =~= records.take(k));
        lemma_resolve_error_persists(strings, records, k + 1);
    } else {
        assert(records.take(k) =~= records);
    }
}

/// Once a prefix of a segment's instances fails to resolve, the whole segment
/// fails the same way.
pub proof fn lemma_instances_error_persists(
    classes: Map<u64, ClassModel>,
    instances: Map<u64, InstanceModel>,
    subs: Seq<SubRecordModel>,
    k: int,
)
    requires
        0 <= k <= subs.len(),
        resolve_instances(classes, instances, subs.take(k)) is Err,
    ensures
        resolve_instances(classes, instances, subs) == resolve_instances(classes, instances, subs.take(k)),
    decreases subs.len() - k,
{
    if k < subs.len() {
        assert(subs.take(k + 1).drop_last() =~= subs.take(k));
        lemma_instances_error_persists(classes, instances, subs, k + 1);
    } else {
        assert(subs.take(k) =~= subs);
    }
}

/// The string table of all string records; a later record with the same id wins.
fn build_string_table(records: &Vec<Record>) -> (r: HashMap<u64, String>)
    ensures
        strings_view(r@) == string_table(records_view(records@)),
{
    let ghost rv = records_view(records@);
    let mut strings: HashMap<u64, String> = HashMap::new();
    proof {
        assert(strings_view(strings@) =~= string_table(rv.take(0)));
    }
    let mut i: usize = 0;
    while i < records.len()
        invariant
            i <= records@.len(),
            rv == records_view(records@),
            strings_view(strings@) == string_table(rv.take(i as int)),
        decreases records@.len() - i,
    {
        proof {
            assert(rv.take(i + 1).drop_last() =~= rv.take(i as int));
        }
        match &records[i] {
            Record::Utf8 { name_id, content, .. } => {
                let ghost before = strings@;
                strings.insert(name_id.0, content.clone());
                proof {
                    assert(strings_view(strings@) =~= strings_view(before).insert(name_id.0, content@));
                }
            },
            _ => {},
        }
        i = i + 1;
    }
    proof {
        assert(rv.take(records@.len() as int) =~= rv);
    }
    strings
}

fn lookup_string(strings: &HashMap<u64, String>, id: Id) -> (r: Option<String>)
    ensures
        match r {
            Some(s) => strings_view(strings@).contains_key(id.0) && s@ == strings_view(strings@)[id.0],
            None => !strings_view(strings@).contains_key(id.0),
        },
{
    match strings.get(&id.0) {
        Some(s) => Some(s.clone()),
        None => None,
    }
}

/// Adds each instance dump of a segment to `instances`, with the class it names.
fn resolve_segment_instances(
    classes: &HashMap<u64, Class>,
    instances: &mut HashMap<u64, Instance>,
    subs: &Vec<SubRecord>,
) -> (r: Result<(), AnalyzeError>)
    ensures
        match (
            r,
            resolve_instances(classes_view(classes@), instances_view(old(instances)@), sub_records_view(subs@)),
        ) {
            (Ok(_), Ok(m)) => instances_view(final(instances)@) == m,
            (Err(e), Err(se)) => e == se,
            _ => false,
        },
{
    let ghost cv = classes_view(classes@);
    let ghost start = instances_view(instances@);
    let ghost sv = sub_records_view(subs@);
    let mut j: usize = 0;
    while j < subs.len()
        invariant
            j <= subs@.len(),
            cv == classes_view(classes@),
            start == instances_view(old(instances)@),
            sv == sub_records_view(subs@),
            resolve_instances(cv, start, sv.take(j as int)) == Ok::<
                Map<u64, InstanceModel>,
                AnalyzeError,
            >(instances_view(instances@)),
        decreases subs@.len() - j,
    {
        proof {
            assert(sv.take(j + 1).drop_last() =~= sv.take(j as int));
            assert(sv.take(j + 1).last() == subs@[j as int]@);
        }
        match &subs[j] {
            SubRecord::InstanceDump { object_id, class_object_id, .. } => {
                match classes.get(class_object_id) {
                    Some(c) => {
                        let ghost before = instances@;
                        let instance = Instance {
                            id: Id(*object_id),
                            class: Class { id: c.id, name: c.name.clone() },
                        };
                        instances.insert(*object_id, instance);
                        proof {
                            assert(instances_view(instances@) =~= instances_view(before).insert(
                                *object_id,
                                InstanceModel { id: Id(*object_id), class: cv[*class_object_id] },
                            ));
                        }
                    },
                    None => {
                        proof {
                            lemma_instances_error_persists(cv, start, sv, j + 1);
                        }
                        return Err(AnalyzeError::DanglingClassRef(Id(*class_object_id)));
                    },
                }
            },
            _ => {},
        }
        j = j + 1;
    }
    proof {
        assert(sv.take(subs@.len() as int) =~= sv);
    }
    Ok(())
}

impl AnalyzedHeap {
    /// Resolves the records of a decoded dump into its tables.
    pub fn analyze(parsed_heap: &ParsedHeap) -> (r: Result<AnalyzedHeap, AnalyzeError>)
        ensures
            match (r, analyze_records(parsed_heap@.records)) {
                (Ok(heap), Ok(model)) => heap@ == model,
                (Err(e), Err(se)) => e == se,
                _ => false,
            },
    {
        let records = &parsed_heap.records;
        let ghost rv = records_view(records@);
        let strings = build_string_table(records);
        let ghost sv = strings_view(strings@);
        let mut classes: HashMap<u64, Class> = HashMap::new();
        let mut frames: Vec<Frame> = Vec::new();
        let mut instances: HashMap<u64, Instance> = HashMap::new();
        proof {
            assert(classes_view(classes@) =~= Map::<u64, ClassModel>::empty());
            assert(instances_view(instances@) =~= Map::<u64, InstanceModel>::empty());
            assert(frames_view(frames@) =~= Seq::<FrameModel>::empty());
            assert(rv.take(0) =~= Seq::<RecordModel>::empty());
        }
        let mut i: usize = 0;
        while i < records.len()
            invariant
                i <= records@.len(),
                rv == records_view(records@),
                rv == parsed_heap@.records,
                sv == strings_view(strings@),
                sv == string_table(rv),
                resolve_records(sv, rv.take(i as int)) == Ok::<Tables, AnalyzeError>(
                    Tables {
                        classes: classes_view(classes@),
                        frames: frames_view(frames@),
                        instances: instances_view(instances@),
                    },
                ),
            decreases records@.len() - i,
        {
            proof {
                assert(rv.take(i + 1).drop_last() =~= rv.take(i as int));
                assert(rv.take(i + 1).last() == records@[i as int]@);
            }
            match &records[i] {
                Record::Frame {
                    stack_frame_id,
                    method_name_id,
                    method_signature_id,
                    source_file_name_id,
                    class_serial_number,
                    line_number,
                    ..
                } => {
                    let method_name = match lookup_string(&strings, *method_name_id) {
                        Some(s) => s,
                        None => {
                            proof {
                                lemma_resolve_error_persists(sv, rv, i + 1);
                                assert(resolve_records(sv, rv) == Err::<Tables, AnalyzeError>(AnalyzeError::DanglingStringRef(*method_name_id)));
                                assert(analyze_records(rv) == Err::<AnalyzedHeapModel, AnalyzeError>(AnalyzeError::DanglingStringRef(*method_name_id)));
                                assert(parsed_heap@.records == rv);
                                lemma_resolve_error_persists(sv, rv, i + 1);
                            }
                            return Err(AnalyzeError::DanglingStringRef(*method_name_id));
                        },
                    };
                    let method_signature = match lookup_string(&strings, *method_signature_id) {
                        Some(s) => s,
                        None => {
                            proof {
                                lemma_resolve_error_persists(sv, rv, i + 1);
                            }
                            return Err(AnalyzeError::DanglingStringRef(*method_signature_id));
                        },
                    };
                    let source_file_name = match lookup_string(&strings, *source_file_name_id) {
                        Some(s) => s,
                        None => {
                            proof {
                                lemma_resolve_error_persists(sv, rv, i + 1);
                            }
                            return Err(AnalyzeError::DanglingStringRef(*source_file_name_id));
                        },
                    };
                    let frame = Frame {
                        id: *stack_frame_id,
                        method_name,
                        method_signature,
                        source_file_name,
                        class_serial_number: *class_serial_number,
                        line_number: *line_number,
                    };
                    let ghost before = frames@;
                    frames.push(frame);
                    proof {
                        assert(frames_view(frames@) =~= frames_view(before).push(frame@));
                    }
                },
                Record::LoadClass { class_object_id, class_name_id, .. } => {
                    let name = match lookup_string(&strings, *class_name_id) {
                        Some(s) => s,
                        None => {
                            proof {
                                lemma_resolve_error_persists(sv, rv, i + 1);
                            }
                            return Err(AnalyzeError::DanglingStringRef(*class_name_id));
                        },
                    };
                    let ghost before = classes@;
                    let class = Class { id: *class_object_id, name };
                    classes.insert(class_object_id.0, class);
                    proof {
                        assert(classes_view(classes@) =~= classes_view(before).insert(
                            class_object_id.0,
                            class@,
                        ));
                    }
                },
                Record::HeapDumpSegment { sub_records, .. } => {
                    match resolve_segment_instances(&classes, &mut instances, sub_records) {
                        Ok(()) => {},
                        Err(e) => {
                            proof {
                                lemma_resolve_error_persists(sv, rv, i + 1);
                            }
                            return Err(e);
                        },
                    }
                },
                _ => {},
            }
            i = i + 1;
        }
        proof {
            assert(rv.take(records@.len() as int) =~= rv);
        }
        Ok(AnalyzedHeap { strings, classes, frames, instances })
    }
}

} // verus!

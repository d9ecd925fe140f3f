//! Referential integrity of stored data against the declared references:
//! every foreign key a record stores for a `belongs_to`, `has_one` or
//! legacy `reference_to` must name an existing record of the target
//! aggregate. `has_many` stores no key, and a reference to the enclosing
//! aggregate itself is a command's own id, not a foreign key.

use vstd::prelude::*;
use crate::helpers::{snake, to_snake_case};
use crate::ir::{Aggregate, AggregateModel, Domain, Reference, ReferenceKind, ReferenceModel, group_views};
use crate::text::{chars_of, eq, i64_chars, int_str, string_of};

verus! {

broadcast use group_views;

/// A stored field value, as far as integrity reads it.
pub enum Stored {
    Str(String),
    Int(i64),
    /// Null, a list, or anything else that names no record.
    Other,
}

/// One stored record: its id and its fields.
pub struct StoredRecord {
    pub id: String,
    pub fields: Vec<(String, Stored)>,
}

/// The stored records of one aggregate.
pub struct AggregateRecords {
    pub aggregate: String,
    pub records: Vec<StoredRecord>,
}

/// One dangling reference: `aggregate(record_id).field` stores `value`,
/// but no `target` record has that id.
#[derive(Debug, Clone, PartialEq, Eq)]
pub struct Dangling {
    pub aggregate: String,
    pub record_id: String,
    pub field: String,
    pub target: String,
    pub value: String,
}

pub struct DanglingModel {
    pub aggregate: Seq<char>,
    pub record_id: Seq<char>,
    pub field: Seq<char>,
    pub target: Seq<char>,
    pub value: Seq<char>,
}

impl View for Dangling {
    type V = DanglingModel;

    open spec fn view(&self) -> DanglingModel {
        DanglingModel {
            aggregate: self.aggregate@,
            record_id: self.record_id@,
            field: self.field@,
            target: self.target@,
            value: self.value@,
        }
    }
}

/// The first stored value under `key`.
pub open spec fn stored_field(fields: Seq<(String, Stored)>, key: Seq<char>) -> Option<Stored>
    decreases fields.len(),
{
    if fields.len() == 0 {
        None
    } else if fields[0].0@ == key {
        Some(fields[0].1)
    } else {
        stored_field(fields.drop_first(), key)
    }
}

/// The key a stored value names: a non-empty string, or an integer in
/// decimal; nothing else names a record.
pub open spec fn key_of(v: Option<Stored>) -> Option<Seq<char>> {
    match v {
        Some(Stored::Str(s)) => if s@.len() > 0 { Some(s@) } else { None },
        Some(Stored::Int(n)) => Some(int_str(n as int)),
        _ => None,
    }
}

/// The records of the first store of the aggregate named `name` (none
/// when no store holds it).
pub open spec fn records_of(stores: Seq<AggregateRecords>, name: Seq<char>) -> Seq<StoredRecord>
    decreases stores.len(),
{
    if stores.len() == 0 {
        Seq::empty()
    } else if stores[0].aggregate@ == name {
        stores[0].records@
    } else {
        records_of(stores.drop_first(), name)
    }
}

/// Some record of the aggregate named `name` has the id `id`.
pub open spec fn has_record(stores: Seq<AggregateRecords>, name: Seq<char>, id: Seq<char>) -> bool {
    exists|i: int| 0 <= i < records_of(stores, name).len() && #[trigger] records_of(stores, name)[i].id@ == id
}

/// The reference stores a foreign key on the records of `aggregate`.
pub open spec fn stores_key(r: ReferenceModel, aggregate: Seq<char>) -> bool {
    r.kind != ReferenceKind::HasMany && r.target != aggregate
}

/// The dangling keys among `recs` for one reference, in record order.
pub open spec fn dangling_records(
    aggregate: Seq<char>,
    r: ReferenceModel,
    recs: Seq<StoredRecord>,
    stores: Seq<AggregateRecords>,
) -> Seq<DanglingModel>
    decreases recs.len(),
{
    if recs.len() == 0 {
        Seq::empty()
    } else {
        let rec = recs.last();
        let field = snake(r.name);
        dangling_records(aggregate, r, recs.drop_last(), stores) + match key_of(
            stored_field(rec.fields@, field),
        ) {
            Some(v) => if has_record(stores, r.target, v) {
                Seq::empty()
            } else {
                seq![DanglingModel { aggregate, record_id: rec.id@, field, target: r.target, value: v }]
            },
            None => Seq::empty(),
        }
    }
}

/// The dangling keys for the references `refs` of `aggregate`.
pub open spec fn dangling_refs(
    aggregate: Seq<char>,
    refs: Seq<ReferenceModel>,
    stores: Seq<AggregateRecords>,
) -> Seq<DanglingModel>
    decreases refs.len(),
{
    if refs.len() == 0 {
        Seq::empty()
    } else {
        let r = refs.last();
        dangling_refs(aggregate, refs.drop_last(), stores) + if stores_key(r, aggregate) {
            dangling_records(aggregate, r, records_of(stores, aggregate), stores)
        } else {
            Seq::empty()
        }
    }
}

/// Every dangling key, aggregate by aggregate, reference by reference,
/// record by record.
pub open spec fn dangling_all(aggs: Seq<AggregateModel>, stores: Seq<AggregateRecords>) -> Seq<DanglingModel>
    decreases aggs.len(),
{
    if aggs.len() == 0 {
        Seq::empty()
    } else {
        dangling_all(aggs.drop_last(), stores) + dangling_refs(aggs.last().name, aggs.last().references, stores)
    }
}

/// Each entry names a value that no record of its target has.
pub open spec fn all_unresolved(s: Seq<DanglingModel>, stores: Seq<AggregateRecords>) -> bool {
    forall|k: int| 0 <= k < s.len() ==> !has_record(stores, #[trigger] s[k].target, s[k].value)
}

proof fn lemma_unresolved_concat(a: Seq<DanglingModel>, b: Seq<DanglingModel>, stores: Seq<AggregateRecords>)
    requires
        all_unresolved(a, stores),
        all_unresolved(b, stores),
    ensures
        all_unresolved(a + b, stores),
{
    assert forall|k: int| 0 <= k < (a + b).len() implies !has_record(stores, #[trigger] (a + b)[k].target, (a + b)[k].value) by {
        if k < a.len() {
            assert((a + b)[k] == a[k]);
        } else {
            assert((a + b)[k] == b[k - a.len()]);
        }
    }
}

proof fn lemma_records_unresolved(aggregate: Seq<char>, r: ReferenceModel, recs: Seq<StoredRecord>, stores: Seq<AggregateRecords>)
    ensures
        all_unresolved(dangling_records(aggregate, r, recs, stores), stores),
    decreases recs.len(),
{
    if recs.len() > 0 {
        lemma_records_unresolved(aggregate, r, recs.drop_last(), stores);
        let rec = recs.last();
        let field = snake(r.name);
        let tail = match key_of(stored_field(rec.fields@, field)) {
            Some(v) => if has_record(stores, r.target, v) {
                Seq::empty()
            } else {
                seq![DanglingModel { aggregate, record_id: rec.id@, field, target: r.target, value: v }]
            },
            None => Seq::<DanglingModel>::empty(),
        };
        assert(all_unresolved(tail, stores));
        lemma_unresolved_concat(dangling_records(aggregate, r, recs.drop_last(), stores), tail, stores);
    }
}

proof fn lemma_refs_unresolved(aggregate: Seq<char>, refs: Seq<ReferenceModel>, stores: Seq<AggregateRecords>)
    ensures
        all_unresolved(dangling_refs(aggregate, refs, stores), stores),
    decreases refs.len(),
{
    if refs.len() > 0 {
        lemma_refs_unresolved(aggregate, refs.drop_last(), stores);
        let r = refs.last();
        lemma_records_unresolved(aggregate, r, records_of(stores, aggregate), stores);
        let tail = if stores_key(r, aggregate) {
            dangling_records(aggregate, r, records_of(stores, aggregate), stores)
        } else {
            Seq::<DanglingModel>::empty()
        };
        lemma_unresolved_concat(dangling_refs(aggregate, refs.drop_last(), stores), tail, stores);
    }
}

/// Integrity reports no false alarm: every reported key names no record
/// of its target aggregate.
pub proof fn law_reported_keys_resolve_to_nothing(aggs: Seq<AggregateModel>, stores: Seq<AggregateRecords>)
    ensures
        all_unresolved(dangling_all(aggs, stores), stores),
    decreases aggs.len(),
{
    if aggs.len() > 0 {
        law_reported_keys_resolve_to_nothing(aggs.drop_last(), stores);
        lemma_refs_unresolved(aggs.last().name, aggs.last().references, stores);
        lemma_unresolved_concat(
            dangling_all(aggs.drop_last(), stores),
            dangling_refs(aggs.last().name, aggs.last().references, stores),
            stores,
        );
    }
}

proof fn lemma_stored_field_first(fields: Seq<(String, Stored)>, key: Seq<char>, j: int)
    requires
        0 <= j < fields.len(),
        fields[j].0@ == key,
        forall|m: int| 0 <= m < j ==> (#[trigger] fields[m]).0@ != key,
    ensures
        stored_field(fields, key) == Some(fields[j].1),
    decreases j,
{
    if j > 0 {
        let t = fields.drop_first();
        assert forall|m: int| 0 <= m < j - 1 implies (#[trigger] t[m]).0@ != key by {
            assert(t[m] == fields[m + 1]);
        }
        assert(fields[0].0@ != key);
        lemma_stored_field_first(t, key, j - 1);
        assert(t[j - 1] == fields[j]);
    }
}

proof fn lemma_records_of_first(stores: Seq<AggregateRecords>, name: Seq<char>, si: int)
    requires
        0 <= si < stores.len(),
        stores[si].aggregate@ == name,
        forall|m: int| 0 <= m < si ==> (#[trigger] stores[m]).aggregate@ != name,
    ensures
        records_of(stores, name) == stores[si].records@,
    decreases si,
{
    if si > 0 {
        let t = stores.drop_first();
        assert forall|m: int| 0 <= m < si - 1 implies (#[trigger] t[m]).aggregate@ != name by {
            assert(t[m] == stores[m + 1]);
        }
        assert(stores[0].aggregate@ != name);
        lemma_records_of_first(t, name, si - 1);
        assert(t[si - 1] == stores[si]);
    }
}

/// The records of `name` come from some store of that name, or there are
/// none.
proof fn lemma_records_of_source(stores: Seq<AggregateRecords>, name: Seq<char>)
    ensures
        records_of(stores, name).len() == 0 || exists|t: int|
            0 <= t < stores.len() && (#[trigger] stores[t]).aggregate@ == name && records_of(stores, name)
                == stores[t].records@,
    decreases stores.len(),
{
    if stores.len() > 0 && stores[0].aggregate@ != name {
        let t = stores.drop_first();
        lemma_records_of_source(t, name);
        if records_of(t, name).len() > 0 {
            let w = choose|w: int|
                0 <= w < t.len() && (#[trigger] t[w]).aggregate@ == name && records_of(t, name) == t[w].records@;
            assert(stores[w + 1] == t[w]);
        }
    } else if stores.len() > 0 {
        assert(stores[0].aggregate@ == name);
    }
}

proof fn lemma_records_report(
    aggregate: Seq<char>,
    r: ReferenceModel,
    recs: Seq<StoredRecord>,
    stores: Seq<AggregateRecords>,
    k: int,
    v: Seq<char>,
)
    requires
        0 <= k < recs.len(),
        key_of(stored_field(recs[k].fields@, snake(r.name))) == Some(v),
        !has_record(stores, r.target, v),
    ensures
        dangling_records(aggregate, r, recs, stores).contains(
            DanglingModel { aggregate, record_id: recs[k].id@, field: snake(r.name), target: r.target, value: v },
        ),
    decreases recs.len(),
{
    let d = DanglingModel { aggregate, record_id: recs[k].id@, field: snake(r.name), target: r.target, value: v };
    let head = dangling_records(aggregate, r, recs.drop_last(), stores);
    let all = dangling_records(aggregate, r, recs, stores);
    if k == recs.len() - 1 {
        assert(all == head + seq![d]);
        assert(all[head.len() as int] == d);
    } else {
        assert(recs.drop_last()[k] == recs[k]);
        lemma_records_report(aggregate, r, recs.drop_last(), stores, k, v);
        let m = choose|m: int| 0 <= m < head.len() && head[m] == d;
        assert(all[m] == head[m]);
    }
}

proof fn lemma_refs_report(
    aggregate: Seq<char>,
    refs: Seq<ReferenceModel>,
    stores: Seq<AggregateRecords>,
    ri: int,
    d: DanglingModel,
)
    requires
        0 <= ri < refs.len(),
        refs[ri].kind != ReferenceKind::HasMany,
        refs[ri].target != aggregate,
        dangling_records(aggregate, refs[ri], records_of(stores, aggregate), stores).contains(d),
    ensures
        dangling_refs(aggregate, refs, stores).contains(d),
    decreases refs.len(),
{
    let head = dangling_refs(aggregate, refs.drop_last(), stores);
    let all = dangling_refs(aggregate, refs, stores);
    if ri == refs.len() - 1 {
        let tail = dangling_records(aggregate, refs[ri], records_of(stores, aggregate), stores);
        assert(all == head + tail);
        let m = choose|m: int| 0 <= m < tail.len() && tail[m] == d;
        assert(all[head.len() + m] == d);
    } else {
        assert(refs.drop_last()[ri] == refs[ri]);
        lemma_refs_report(aggregate, refs.drop_last(), stores, ri, d);
        let m = choose|m: int| 0 <= m < head.len() && head[m] == d;
        assert(all[m] == head[m]);
    }
}

proof fn lemma_all_report(aggs: Seq<AggregateModel>, stores: Seq<AggregateRecords>, a: int, d: DanglingModel)
    requires
        0 <= a < aggs.len(),
        dangling_refs(aggs[a].name, aggs[a].references, stores).contains(d),
    ensures
        dangling_all(aggs, stores).contains(d),
    decreases aggs.len(),
{
    let head = dangling_all(aggs.drop_last(), stores);
    let all = dangling_all(aggs, stores);
    if a == aggs.len() - 1 {
        let tail = dangling_refs(aggs[a].name, aggs[a].references, stores);
        assert(all == head + tail);
        let m = choose|m: int| 0 <= m < tail.len() && tail[m] == d;
        assert(all[head.len() + m] == d);
    } else {
        assert(aggs.drop_last()[a] == aggs[a]);
        lemma_all_report(aggs.drop_last(), stores, a, d);
        let m = choose|m: int| 0 <= m < head.len() && head[m] == d;
        assert(all[m] == head[m]);
    }
}

/// Every dangling key is reported. Take an aggregate, one of its
/// references that is not `has_many` and does not name the aggregate
/// itself, a record in the first store of that aggregate, and the record's
/// first field named after the reference (snake_case): when that field
/// holds a non-empty string, or an integer (read in decimal), and no
/// store of the target aggregate has a record with that id, the check
/// reports exactly that aggregate, record, field, target and value.
pub proof fn law_unresolved_keys_are_reported(
    aggs: Seq<AggregateModel>,
    stores: Seq<AggregateRecords>,
    a: int,
    ri: int,
    si: int,
    k: int,
    j: int,
    v: Seq<char>,
)
    requires
        0 <= a < aggs.len(),
        0 <= ri < aggs[a].references.len(),
        aggs[a].references[ri].kind != ReferenceKind::HasMany,
        aggs[a].references[ri].target != aggs[a].name,
        0 <= si < stores.len(),
        stores[si].aggregate@ == aggs[a].name,
        forall|m: int| 0 <= m < si ==> (#[trigger] stores[m]).aggregate@ != aggs[a].name,
        0 <= k < stores[si].records@.len(),
        0 <= j < stores[si].records@[k].fields@.len(),
        stores[si].records@[k].fields@[j].0@ == snake(aggs[a].references[ri].name),
        forall|m: int|
            0 <= m < j ==> (#[trigger] stores[si].records@[k].fields@[m]).0@ != snake(aggs[a].references[ri].name),
        match stores[si].records@[k].fields@[j].1 {
            Stored::Str(s) => s@.len() > 0 && v == s@,
            Stored::Int(n) => v == int_str(n as int),
            Stored::Other => false,
        },
        forall|t: int, i: int|
            0 <= t < stores.len() && stores[t].aggregate@ == aggs[a].references[ri].target && 0 <= i
                < stores[t].records@.len() ==> (#[trigger] stores[t].records@[i]).id@ != v,
    ensures
        dangling_all(aggs, stores).contains(
            DanglingModel {
                aggregate: aggs[a].name,
                record_id: stores[si].records@[k].id@,
                field: snake(aggs[a].references[ri].name),
                target: aggs[a].references[ri].target,
                value: v,
            },
        ),
{
    let r = aggs[a].references[ri];
    let rec = stores[si].records@[k];
    lemma_records_of_first(stores, aggs[a].name, si);
    lemma_stored_field_first(rec.fields@, snake(r.name), j);
    lemma_records_of_source(stores, r.target);
    if has_record(stores, r.target, v) {
        let i = choose|i: int|
            0 <= i < records_of(stores, r.target).len() && #[trigger] records_of(stores, r.target)[i].id@ == v;
        let t = choose|t: int|
            0 <= t < stores.len() && (#[trigger] stores[t]).aggregate@ == r.target && records_of(stores, r.target)
                == stores[t].records@;
        assert(stores[t].records@[i].id@ != v);
    }
    lemma_records_report(aggs[a].name, r, records_of(stores, aggs[a].name), stores, k, v);
    lemma_refs_report(aggs[a].name, aggs[a].references, stores, ri, DanglingModel {
        aggregate: aggs[a].name,
        record_id: rec.id@,
        field: snake(r.name),
        target: r.target,
        value: v,
    });
    lemma_all_report(aggs, stores, a, DanglingModel {
        aggregate: aggs[a].name,
        record_id: rec.id@,
        field: snake(r.name),
        target: r.target,
        value: v,
    });
}

fn stored_field_exec<'a>(fields: &'a Vec<(String, Stored)>, key: &Vec<char>) -> (r: Option<&'a Stored>)
    ensures
        match r {
            Some(v) => stored_field(fields@, key@) == Some(*v),
            None => stored_field(fields@, key@) is None,
        },
{
    let mut i: usize = 0;
    assert(fields@.subrange(0, fields@.len() as int) =~= fields@);
    while i < fields.len()
        invariant
            i <= fields.len(),
            stored_field(fields@.subrange(i as int, fields@.len() as int), key@) == stored_field(fields@, key@),
        decreases fields.len() - i,
    {
        let ghost rest = fields@.subrange(i as int, fields@.len() as int);
        assert(rest.drop_first() =~= fields@.subrange(i + 1, fields@.len() as int));
        assert(rest[0] == fields@[i as int]);
        if eq(&chars_of(fields[i].0.as_str()), key) {
            return Some(&fields[i].1);
        }
        i = i + 1;
    }
    None
}

fn key_of_exec(v: Option<&Stored>) -> (r: Option<String>)
    ensures
        match r {
            Some(k) => key_of(match v { Some(x) => Some(*x), None => None }) == Some(k@),
            None => key_of(match v { Some(x) => Some(*x), None => None }) is None,
        },
{
    match v {
        Some(Stored::Str(s)) => if s.as_str().is_empty() {
            None
        } else {
            Some(string_of(&chars_of(s.as_str())))
        },
        Some(Stored::Int(n)) => Some(string_of(&i64_chars(*n))),
        _ => None,
    }
}

/// Where the first store of `name` stands, if any.
fn store_index(stores: &Vec<AggregateRecords>, name: &Vec<char>) -> (r: Option<usize>)
    ensures
        match r {
            Some(j) => j < stores.len() && records_of(stores@, name@) == stores@[j as int].records@,
            None => records_of(stores@, name@) == Seq::<StoredRecord>::empty(),
        },
{
    let mut j: usize = 0;
    assert(stores@.subrange(0, stores@.len() as int) =~= stores@);
    while j < stores.len()
        invariant
            j <= stores.len(),
            records_of(stores@.subrange(j as int, stores@.len() as int), name@) == records_of(stores@, name@),
        decreases stores.len() - j,
    {
        let ghost rest = stores@.subrange(j as int, stores@.len() as int);
        assert(rest.drop_first() =~= stores@.subrange(j + 1, stores@.len() as int));
        assert(rest[0] == stores@[j as int]);
        if eq(&chars_of(stores[j].aggregate.as_str()), name) {
            return Some(j);
        }
        j = j + 1;
    }
    assert(stores@.subrange(j as int, stores@.len() as int) =~= Seq::<AggregateRecords>::empty());
    None
}

fn has_record_exec(stores: &Vec<AggregateRecords>, name: &Vec<char>, id: &Vec<char>) -> (b: bool)
    ensures
        b == has_record(stores@, name@, id@),
{
    match store_index(stores, name) {
        None => false,
        Some(j) => {
            let recs = &stores[j].records;
            let mut i: usize = 0;
            while i < recs.len()
                invariant
                    i <= recs.len(),
                    recs@ == records_of(stores@, name@),
                    forall|k: int| 0 <= k < i ==> records_of(stores@, name@)[k].id@ != id@,
                decreases recs.len() - i,
            {
                if eq(&chars_of(recs[i].id.as_str()), id) {
                    assert(records_of(stores@, name@)[i as int].id@ == id@);
                    return true;
                }
                i = i + 1;
            }
            false
        },
    }
}

/// The dangling keys of one reference over the given records.
fn dangling_for_records(
    aggregate: &String,
    r: &Reference,
    recs: &Vec<StoredRecord>,
    stores: &Vec<AggregateRecords>,
) -> (out: Vec<Dangling>)
    ensures
        out@.map_values(|d: Dangling| d@) == dangling_records(aggregate@, r@, recs@, stores@),
{
    let field = to_snake_case(r.name.as_str());
    let field_chars = chars_of(field.as_str());
    let target = chars_of(r.target.as_str());
    let mut out: Vec<Dangling> = Vec::new();
    let mut i: usize = 0;
    while i < recs.len()
        invariant
            i <= recs.len(),
            field@ == snake(r@.name),
            field_chars@ == field@,
            target@ == r@.target,
            out@.map_values(|d: Dangling| d@) == dangling_records(aggregate@, r@, recs@.take(i as int), stores@),
        decreases recs.len() - i,
    {
        assert(recs@.take(i + 1).drop_last() =~= recs@.take(i as int));
        assert(recs@.take(i + 1).last() == recs@[i as int]);
        let ghost before = out@.map_values(|d: Dangling| d@);
        let rec = &recs[i];
        match key_of_exec(stored_field_exec(&rec.fields, &field_chars)) {
            Some(v) => {
                if !has_record_exec(stores, &target, &chars_of(v.as_str())) {
                    let d = Dangling {
                        aggregate: string_of(&chars_of(aggregate.as_str())),
                        record_id: string_of(&chars_of(rec.id.as_str())),
                        field: string_of(&field_chars),
                        target: string_of(&target),
                        value: v,
                    };
                    out.push(d);
                    assert(out@.map_values(|d: Dangling| d@) =~= before.push(d@));
                } else {
                    assert(before + Seq::<DanglingModel>::empty() =~= before);
                }
            },
            None => {
                assert(before + Seq::<DanglingModel>::empty() =~= before);
            },
        }
        i = i + 1;
    }
    assert(recs@.take(recs.len() as int) =~= recs@);
    out
}

fn copy_dangling(d: &Dangling) -> (r: Dangling)
    ensures
        r@ == d@,
{
    Dangling {
        aggregate: string_of(&chars_of(d.aggregate.as_str())),
        record_id: string_of(&chars_of(d.record_id.as_str())),
        field: string_of(&chars_of(d.field.as_str())),
        target: string_of(&chars_of(d.target.as_str())),
        value: string_of(&chars_of(d.value.as_str())),
    }
}

/// The dangling keys of one aggregate's references.
fn dangling_for_aggregate(agg: &Aggregate, stores: &Vec<AggregateRecords>) -> (out: Vec<Dangling>)
    ensures
        out@.map_values(|d: Dangling| d@) == dangling_refs(agg@.name, agg@.references, stores@),
{
    let name = chars_of(agg.name.as_str());
    let recs_at = store_index(stores, &name);
    let empty: Vec<StoredRecord> = Vec::new();
    let recs = match recs_at {
        Some(j) => &stores[j].records,
        None => &empty,
    };
    assert(recs@ == records_of(stores@, agg@.name));
    let refs = &agg.references;
    let mut out: Vec<Dangling> = Vec::new();
    let mut i: usize = 0;
    while i < refs.len()
        invariant
            i <= refs.len(),
            refs@.len() == agg@.references.len(),
            forall|k: int| 0 <= k < refs@.len() ==> #[trigger] agg@.references[k] == refs@[k]@,
            name@ == agg@.name,
            recs@ == records_of(stores@, agg@.name),
            out@.map_values(|d: Dangling| d@) == dangling_refs(agg@.name, agg@.references.take(i as int), stores@),
        decreases refs.len() - i,
    {
        assert(agg@.references.take(i + 1).drop_last() =~= agg@.references.take(i as int));
        assert(agg@.references.take(i + 1).last() == refs@[i as int]@);
        let r = &refs[i];
        let ghost before = out@.map_values(|d: Dangling| d@);
        let keyed = match r.kind {
            ReferenceKind::HasMany => false,
            _ => !eq(&chars_of(r.target.as_str()), &name),
        };
        if keyed {
            let found = dangling_for_records(&agg.name, r, recs, stores);
            let mut k: usize = 0;
            while k < found.len()
                invariant
                    k <= found.len(),
                    out@.map_values(|d: Dangling| d@) == before + found@.map_values(|d: Dangling| d@).take(k as int),
                decreases found.len() - k,
            {
                let ghost mid = out@.map_values(|d: Dangling| d@);
                let c = copy_dangling(&found[k]);
                out.push(c);
                assert(out@.map_values(|d: Dangling| d@) =~= mid.push(found@[k as int]@));
                assert(found@.map_values(|d: Dangling| d@).take(k + 1) =~= found@.map_values(|d: Dangling| d@).take(
                    k as int,
                ).push(found@[k as int]@));
                assert(out@.map_values(|d: Dangling| d@) =~= before + found@.map_values(|d: Dangling| d@).take(k + 1));
                k = k + 1;
            }
            assert(found@.map_values(|d: Dangling| d@).take(found.len() as int) =~= found@.map_values(|d: Dangling| d@));
        } else {
            assert(before + Seq::<DanglingModel>::empty() =~= before);
        }
        i = i + 1;
    }
    assert(agg@.references.take(refs.len() as int) =~= agg@.references);
    out
}

/// Every declared foreign key the stored records hold that names no
/// existing target record, aggregate by aggregate, reference by
/// reference, record by record.
pub fn check(domain: &Domain, stores: &Vec<AggregateRecords>) -> (out: Vec<Dangling>)
    ensures
        out@.map_values(|d: Dangling| d@) == dangling_all(domain@.aggregates, stores@),
{
    let aggs = &domain.aggregates;
    let mut out: Vec<Dangling> = Vec::new();
    let mut i: usize = 0;
    while i < aggs.len()
        invariant
            i <= aggs.len(),
            aggs@.len() == domain@.aggregates.len(),
            forall|k: int| 0 <= k < aggs@.len() ==> #[trigger] domain@.aggregates[k] == aggs@[k]@,
            out@.map_values(|d: Dangling| d@) == dangling_all(domain@.aggregates.take(i as int), stores@),
        decreases aggs.len() - i,
    {
        assert(domain@.aggregates.take(i + 1).drop_last() =~= domain@.aggregates.take(i as int));
        assert(domain@.aggregates.take(i + 1).last() == aggs@[i as int]@);
        let ghost before = out@.map_values(|d: Dangling| d@);
        let found = dangling_for_aggregate(&aggs[i], stores);
        let mut k: usize = 0;
        while k < found.len()
            invariant
                k <= found.len(),
                out@.map_values(|d: Dangling| d@) == before + found@.map_values(|d: Dangling| d@).take(k as int),
            decreases found.len() - k,
        {
            let ghost mid = out@.map_values(|d: Dangling| d@);
            let c = copy_dangling(&found[k]);
            out.push(c);
            assert(out@.map_values(|d: Dangling| d@) =~= mid.push(found@[k as int]@));
            assert(found@.map_values(|d: Dangling| d@).take(k + 1) =~= found@.map_values(|d: Dangling| d@).take(
                k as int,
            ).push(found@[k as int]@));
            assert(out@.map_values(|d: Dangling| d@) =~= before + found@.map_values(|d: Dangling| d@).take(k + 1));
            k = k + 1;
        }
        assert(found@.map_values(|d: Dangling| d@).take(found.len() as int) =~= found@.map_values(|d: Dangling| d@));
        i = i + 1;
    }
    assert(domain@.aggregates.take(aggs.len() as int) =~= domain@.aggregates);
    out
}

} // verus!

//! JSON Schema (draft 2020-12) for each command's payload, from the IR:
//! a command's attributes become properties, required attributes the
//! `required` list, closed vocabularies (`one_of` values, or a value
//! object's member discriminants) an `enum`, a wrapper value object its
//! inner primitive with bounds read from its invariants, and a reference
//! an id string. Objects keep their entries in key order, as the JSON map
//! they are written to does.

use vstd::prelude::*;
use crate::cli::edits::{lowercase, to_lowercase};
use crate::ir::{Aggregate, AggregateModel, Attribute, AttributeModel, Command, CommandModel, Domain, InvariantModel, ReferenceModel, ValueObjectModel};
use crate::run_follow::events::{entries_view, items_view, json_view, lemma_entries_view, lemma_items_view, lemma_items_view_push, obj_insert, obj_insert_exec, Json, JsonView};
use crate::text::{chars_of, concat, eq, eq_str, find_seq, find_str, i64_chars, int_str, parse_i64, parses_i64, i64_value, split_seq, split_seq_exec, string_of, tail, trim, trim_exec, views};

verus! {

// ---------------------------------------------------------------------
// The schemas, as values
// ---------------------------------------------------------------------

/// `{"type": t}`.
pub open spec fn type_only(t: Seq<char>) -> JsonView {
    JsonView::Object(seq![("type"@, JsonView::Str(t))])
}

/// The schema type of an IR type name, case-insensitively: `integer` /
/// `int`, `float`, `boolean` / `bool`, and `string` for everything else.
pub open spec fn primitive_type(ty: Seq<char>) -> Seq<char> {
    let l = lowercase(ty);
    if l == "integer"@ || l == "int"@ {
        "integer"@
    } else if l == "float"@ {
        "number"@
    } else if l == "boolean"@ || l == "bool"@ {
        "boolean"@
    } else {
        "string"@
    }
}

pub open spec fn str_items(s: Seq<Seq<char>>) -> Seq<JsonView> {
    s.map_values(|x: Seq<char>| JsonView::Str(x))
}

/// `{"enum": [..], "type": "string"}`.
pub open spec fn enum_schema(vals: Seq<Seq<char>>) -> JsonView {
    JsonView::Object(
        seq![("enum"@, JsonView::Array(str_items(vals))), ("type"@, JsonView::Str("string"@))],
    )
}

/// The first value object from `i` with the given name.
pub open spec fn find_vo(vos: Seq<ValueObjectModel>, name: Seq<char>, i: int) -> Option<
    ValueObjectModel,
>
    decreases vos.len() - i,
{
    if i < 0 || i >= vos.len() {
        None
    } else if vos[i].name == name {
        Some(vos[i])
    } else {
        find_vo(vos, name, i + 1)
    }
}

/// The value of each member's first pair, members without pairs skipped.
pub open spec fn discriminants(members: Seq<Seq<(Seq<char>, Seq<char>)>>) -> Seq<Seq<char>>
    decreases members.len(),
{
    if members.len() == 0 {
        Seq::empty()
    } else {
        let rest = discriminants(members.drop_last());
        if members.last().len() > 0 {
            rest.push(members.last()[0].1)
        } else {
            rest
        }
    }
}

/// A JSON integer.
pub open spec fn int_json(n: int) -> JsonView {
    JsonView::Number(
        int_str(n),
        if n >= 0 {
            Some(n as u64)
        } else {
            None
        },
    )
}

/// The bound one invariant clause sets: `x >= N` a minimum, else
/// `x <= N` a maximum, where `N` (trimmed) parses as an `i64`.
pub open spec fn bound_clause(e: Seq<(Seq<char>, JsonView)>, clause: Seq<char>) -> Seq<
    (Seq<char>, JsonView),
> {
    match find_seq(clause, ">="@) {
        Some(i) => {
            let rhs = trim(clause.subrange(i + 2, clause.len() as int));
            if parses_i64(rhs) {
                obj_insert(e, "minimum"@, int_json(i64_value(rhs)))
            } else {
                e
            }
        },
        None => match find_seq(clause, "<="@) {
            Some(i) => {
                let rhs = trim(clause.subrange(i + 2, clause.len() as int));
                if parses_i64(rhs) {
                    obj_insert(e, "maximum"@, int_json(i64_value(rhs)))
                } else {
                    e
                }
            },
            None => e,
        },
    }
}

/// The bounds of the clauses, in order.
pub open spec fn clauses_bound(e: Seq<(Seq<char>, JsonView)>, cs: Seq<Seq<char>>) -> Seq<
    (Seq<char>, JsonView),
>
    decreases cs.len(),
{
    if cs.len() == 0 {
        e
    } else {
        bound_clause(clauses_bound(e, cs.drop_last()), cs.last())
    }
}

/// The bounds of every `&&`-separated clause of the invariants, in order.
pub open spec fn invariants_bound(e: Seq<(Seq<char>, JsonView)>, invs: Seq<InvariantModel>) -> Seq<
    (Seq<char>, JsonView),
>
    decreases invs.len(),
{
    if invs.len() == 0 {
        e
    } else {
        clauses_bound(invariants_bound(e, invs.drop_last()), split_seq(invs.last().expression, "&&"@))
    }
}

/// A wrapper value object's schema: its inner attribute's primitive type,
/// the bounds of its invariants, and the money mark when the inner
/// attribute is `cents`.
pub open spec fn wrapper_schema(vo: ValueObjectModel) -> JsonView {
    let e0 = seq![("type"@, JsonView::Str(primitive_type(vo.attributes[0].attr_type)))];
    let e1 = invariants_bound(e0, vo.invariants);
    JsonView::Object(
        if vo.attributes[0].name == "cents"@ {
            obj_insert(e1, "x-hecks-money"@, JsonView::Str("cents"@))
        } else {
            e1
        },
    )
}

/// One attribute's schema: its `one_of` values as an enum; else, for a
/// value object of that type, its member discriminants as an enum or its
/// wrapper schema; else the primitive type.
pub open spec fn attr_schema_of(agg: AggregateModel, attr: AttributeModel) -> JsonView {
    if attr.enum_values.len() > 0 {
        enum_schema(attr.enum_values)
    } else {
        match find_vo(agg.value_objects, attr.attr_type, 0) {
            Some(vo) => {
                if vo.members.len() > 0 {
                    enum_schema(discriminants(vo.members))
                } else if vo.attributes.len() == 1 {
                    wrapper_schema(vo)
                } else {
                    type_only(primitive_type(attr.attr_type))
                }
            },
            None => type_only(primitive_type(attr.attr_type)),
        }
    }
}

/// The attributes' schemas, keyed by name (a later one replacing an
/// earlier one of the same name).
pub open spec fn attr_props(agg: AggregateModel, attrs: Seq<AttributeModel>) -> Seq<
    (Seq<char>, JsonView),
>
    decreases attrs.len(),
{
    if attrs.len() == 0 {
        Seq::empty()
    } else {
        obj_insert(
            attr_props(agg, attrs.drop_last()),
            attrs.last().name,
            attr_schema_of(agg, attrs.last()),
        )
    }
}

/// A reference's schema: an id string.
pub open spec fn ref_schema(target: Seq<char>) -> JsonView {
    JsonView::Object(
        seq![
            ("description"@, JsonView::Str("id of a "@ + target)),
            ("type"@, JsonView::Str("string"@)),
        ],
    )
}

/// The references' schemas added to the properties, keyed by name.
pub open spec fn ref_props(e: Seq<(Seq<char>, JsonView)>, refs: Seq<ReferenceModel>) -> Seq<
    (Seq<char>, JsonView),
>
    decreases refs.len(),
{
    if refs.len() == 0 {
        e
    } else {
        obj_insert(ref_props(e, refs.drop_last()), refs.last().name, ref_schema(refs.last().target))
    }
}

/// The names of the required attributes, in order.
pub open spec fn required_names(attrs: Seq<AttributeModel>) -> Seq<JsonView>
    decreases attrs.len(),
{
    if attrs.len() == 0 {
        Seq::empty()
    } else if attrs.last().required {
        required_names(attrs.drop_last()).push(JsonView::Str(attrs.last().name))
    } else {
        required_names(attrs.drop_last())
    }
}

/// A command's payload schema.
pub open spec fn command_schema_of(agg: AggregateModel, cmd: CommandModel) -> JsonView {
    JsonView::Object(
        seq![
            ("$schema"@, JsonView::Str("https://json-schema.org/draft/2020-12/schema"@)),
            ("additionalProperties"@, JsonView::Bool(false)),
            ("properties"@, JsonView::Object(ref_props(attr_props(agg, cmd.attributes), cmd.references))),
            ("required"@, JsonView::Array(required_names(cmd.attributes))),
            ("title"@, JsonView::Str(agg.name + "."@ + cmd.name)),
            ("type"@, JsonView::Str("object"@)),
        ],
    )
}

/// The aggregate's command schemas added under `Aggregate.Command`.
pub open spec fn command_entries(
    e: Seq<(Seq<char>, JsonView)>,
    agg: AggregateModel,
    cmds: Seq<CommandModel>,
) -> Seq<(Seq<char>, JsonView)>
    decreases cmds.len(),
{
    if cmds.len() == 0 {
        e
    } else {
        obj_insert(
            command_entries(e, agg, cmds.drop_last()),
            agg.name + "."@ + cmds.last().name,
            command_schema_of(agg, cmds.last()),
        )
    }
}

/// Every command schema of the aggregates, keyed by `Aggregate.Command`.
pub open spec fn domain_entries(aggs: Seq<AggregateModel>) -> Seq<(Seq<char>, JsonView)>
    decreases aggs.len(),
{
    if aggs.len() == 0 {
        Seq::empty()
    } else {
        command_entries(domain_entries(aggs.drop_last()), aggs.last(), aggs.last().commands)
    }
}

// ---------------------------------------------------------------------
// Building them
// ---------------------------------------------------------------------

fn copy_string(s: &String) -> (r: String)
    ensures
        r@ == s@,
{
    string_of(&chars_of(s.as_str()))
}

/// An object of the given entries, in the given order.
fn object_of(e: Vec<(String, Json)>) -> (r: Json)
    ensures
        json_view(r) == JsonView::Object(entries_view(e@)),
{
    Json::Object(e)
}

fn type_json(t: String) -> (r: Json)
    ensures
        json_view(r) == type_only(t@),
{
    let ghost tv = t@;
    let mut e: Vec<(String, Json)> = Vec::new();
    e.push(("type".to_owned(), Json::Str(t)));
    proof {
        lemma_entries_view(e@);
        assert(entries_view(e@) =~= seq![("type"@, JsonView::Str(tv))]);
    }
    object_of(e)
}

proof fn lemma_find_vo_none(vos: Seq<ValueObjectModel>, name: Seq<char>, i: int)
    requires
        0 <= i,
        forall|k: int| 0 <= k < vos.len() ==> #[trigger] vos[k].name != name,
    ensures
        find_vo(vos, name, i) is None,
    decreases vos.len() - i,
{
    if i < vos.len() {
        lemma_find_vo_none(vos, name, i + 1);
    }
}

/// The schema of a plain attribute (no `one_of`, no value object of its
/// type) by its type name, case-insensitively: `Integer` / `int` give
/// `{"type": "integer"}`, `Float` `{"type": "number"}`, `Boolean` / `bool`
/// `{"type": "boolean"}`, and any other name `{"type": "string"}`.
pub proof fn law_primitive_type_table(agg: AggregateModel, attr: AttributeModel)
    requires
        attr.enum_values.len() == 0,
        forall|k: int| 0 <= k < agg.value_objects.len() ==> #[trigger] agg.value_objects[k].name != attr.attr_type,
    ensures
        lowercase(attr.attr_type) == "integer"@ || lowercase(attr.attr_type) == "int"@ ==> attr_schema_of(
            agg,
            attr,
        ) == JsonView::Object(seq![("type"@, JsonView::Str("integer"@))]),
        lowercase(attr.attr_type) == "float"@ ==> attr_schema_of(agg, attr) == JsonView::Object(
            seq![("type"@, JsonView::Str("number"@))],
        ),
        lowercase(attr.attr_type) == "boolean"@ || lowercase(attr.attr_type) == "bool"@ ==> attr_schema_of(
            agg,
            attr,
        ) == JsonView::Object(seq![("type"@, JsonView::Str("boolean"@))]),
        !(lowercase(attr.attr_type) == "integer"@ || lowercase(attr.attr_type) == "int"@ || lowercase(
            attr.attr_type,
        ) == "float"@ || lowercase(attr.attr_type) == "boolean"@ || lowercase(attr.attr_type) == "bool"@)
            ==> attr_schema_of(agg, attr) == JsonView::Object(seq![("type"@, JsonView::Str("string"@))]),
{
    lemma_find_vo_none(agg.value_objects, attr.attr_type, 0);
    reveal_strlit("boolean");
    reveal_strlit("bool");
    reveal_strlit("integer");
    reveal_strlit("int");
    reveal_strlit("float");
    let l = lowercase(attr.attr_type);
    if l == "boolean"@ || l == "bool"@ {
        assert(l != "integer"@ && l != "int"@ && l != "float"@) by {
            if l == "boolean"@ {
                assert(l.len() == 7 && "integer"@[0] != l[0]);
            } else {
                assert(l.len() == 4 && "int"@.len() == 3 && "float"@.len() == 5);
            }
        }
    }
}

fn primitive_type_exec(ty: &str) -> (r: String)
    ensures
        r@ == primitive_type(ty@),
{
    let l = chars_of(to_lowercase(ty).as_str());
    let t = if eq_str(&l, "integer") || eq_str(&l, "int") {
        "integer"
    } else if eq_str(&l, "float") {
        "number"
    } else if eq_str(&l, "boolean") || eq_str(&l, "bool") {
        "boolean"
    } else {
        "string"
    };
    t.to_owned()
}

/// `{"type": ..}` for an IR type name.
fn primitive_schema(ty: &str) -> (r: Json)
    ensures
        json_view(r) == type_only(primitive_type(ty@)),
{
    type_json(primitive_type_exec(ty))
}

pub open spec fn texts(v: Seq<String>) -> Seq<Seq<char>> {
    v.map_values(|s: String| s@)
}

fn enum_json(vals: &Vec<String>) -> (r: Json)
    ensures
        json_view(r) == enum_schema(texts(vals@)),
{
    let mut items: Vec<Json> = Vec::new();
    let mut i: usize = 0;
    while i < vals.len()
        invariant
            i <= vals.len(),
            items_view(items@) == str_items(texts(vals@).take(i as int)),
        decreases vals.len() - i,
    {
        let x = copy_string(&vals[i]);
        let ghost before = items@;
        proof {
            lemma_items_view_push(before, Json::Str(x));
        }
        items.push(Json::Str(x));
        assert(str_items(texts(vals@).take(i + 1)) =~= str_items(texts(vals@).take(i as int)).push(
            JsonView::Str(vals@[i as int]@),
        ));
        i = i + 1;
    }
    assert(texts(vals@).take(vals.len() as int) =~= texts(vals@));
    let ghost iv = items_view(items@);
    let mut e: Vec<(String, Json)> = Vec::new();
    e.push(("enum".to_owned(), Json::Array(items)));
    e.push(("type".to_owned(), Json::Str("string".to_owned())));
    proof {
        lemma_entries_view(e@);
        assert(entries_view(e@) =~= seq![
            ("enum"@, JsonView::Array(str_items(texts(vals@)))),
            ("type"@, JsonView::Str("string"@)),
        ]);
    }
    object_of(e)
}

fn int_json_exec(n: i64) -> (r: Json)
    ensures
        json_view(r) == int_json(n as int),
{
    let t = string_of(&i64_chars(n));
    let u: Option<u64> = if n >= 0 {
        Some(n as u64)
    } else {
        None
    };
    Json::Number(t, u)
}

/// The first value object with the given name, by index.
fn find_vo_exec(agg: &Aggregate, name: &String) -> (r: Option<usize>)
    ensures
        match r {
            Some(i) => i < agg.value_objects.len() && find_vo(agg@.value_objects, name@, 0) == Some(
                agg@.value_objects[i as int],
            ),
            None => find_vo(agg@.value_objects, name@, 0) is None,
        },
{
    let nc = chars_of(name.as_str());
    let mut i: usize = 0;
    while i < agg.value_objects.len()
        invariant
            i <= agg.value_objects.len(),
            nc@ == name@,
            agg@.value_objects.len() == agg.value_objects@.len(),
            find_vo(agg@.value_objects, name@, i as int) == find_vo(agg@.value_objects, name@, 0),
        decreases agg.value_objects.len() - i,
    {
        assert(agg@.value_objects[i as int] == agg.value_objects@[i as int]@);
        if eq(&chars_of(agg.value_objects[i].name.as_str()), &nc) {
            return Some(i);
        }
        i = i + 1;
    }
    None
}

fn discriminants_exec(members: &Vec<Vec<(String, String)>>) -> (r: Vec<String>)
    ensures
        texts(r@) == discriminants(crate::ir::members_view(members@)),
{
    let ghost mv = crate::ir::members_view(members@);
    let mut out: Vec<String> = Vec::new();
    let mut k: usize = 0;
    while k < members.len()
        invariant
            k <= members.len(),
            mv == crate::ir::members_view(members@),
            mv.len() == members@.len(),
            texts(out@) == discriminants(mv.take(k as int)),
        decreases members.len() - k,
    {
        assert(mv.take(k + 1).drop_last() =~= mv.take(k as int));
        assert(mv.take(k + 1).last() == mv[k as int]);
        assert(mv[k as int] == crate::ir::seq_view(members@[k as int]@));
        if members[k].len() > 0 {
            let d = copy_string(&members[k][0].1);
            assert(mv[k as int][0] == members@[k as int]@[0]@);
            let ghost before = out@;
            out.push(d);
            assert(texts(out@) =~= texts(before).push(d@));
        }
        k = k + 1;
    }
    assert(mv.take(members.len() as int) =~= mv);
    out
}

/// Applies one invariant clause's bound.
fn bound_clause_exec(e: &mut Vec<(String, Json)>, clause: &Vec<char>)
    ensures
        entries_view(final(e)@) == bound_clause(entries_view(old(e)@), clause@),
{
    proof {
        reveal_strlit(">=");
        reveal_strlit("<=");
    }
    match find_str(clause, ">=") {
        Some(i) => {
            let rhs = trim_exec(&tail(clause, i + 2));
            match parse_i64(&rhs) {
                Some(n) => obj_insert_exec(e, "minimum".to_owned(), int_json_exec(n)),
                None => {},
            }
        },
        None => match find_str(clause, "<=") {
            Some(i) => {
                let rhs = trim_exec(&tail(clause, i + 2));
                match parse_i64(&rhs) {
                    Some(n) => obj_insert_exec(e, "maximum".to_owned(), int_json_exec(n)),
                    None => {},
                }
            },
            None => {},
        },
    }
}

/// Applies the bounds of every clause of every invariant, in order.
fn invariants_bound_exec(e: &mut Vec<(String, Json)>, invs: &Vec<crate::ir::Invariant>)
    ensures
        entries_view(final(e)@) == invariants_bound(entries_view(old(e)@), crate::ir::seq_view(
            invs@,
        )),
{
    let ghost e0 = entries_view(e@);
    let ghost iv = crate::ir::seq_view(invs@);
    let amps = chars_of("&&");
    proof {
        reveal_strlit("&&");
    }
    let mut k: usize = 0;
    while k < invs.len()
        invariant
            k <= invs.len(),
            iv == crate::ir::seq_view(invs@),
            iv.len() == invs@.len(),
            amps@ == "&&"@,
            amps@.len() == 2,
            entries_view(e@) == invariants_bound(e0, iv.take(k as int)),
        decreases invs.len() - k,
    {
        assert(iv.take(k + 1).drop_last() =~= iv.take(k as int));
        assert(iv.take(k + 1).last() == invs@[k as int]@);
        let cs = split_seq_exec(&chars_of(invs[k].expression.as_str()), &amps);
        let ghost start = entries_view(e@);
        let mut j: usize = 0;
        while j < cs.len()
            invariant
                j <= cs.len(),
                entries_view(e@) == clauses_bound(start, views(cs@).take(j as int)),
            decreases cs.len() - j,
        {
            assert(views(cs@).take(j + 1).drop_last() =~= views(cs@).take(j as int));
            assert(views(cs@).take(j + 1).last() == cs@[j as int]@);
            bound_clause_exec(e, &cs[j]);
            j = j + 1;
        }
        assert(views(cs@).take(cs.len() as int) =~= views(cs@));
        k = k + 1;
    }
    assert(iv.take(invs.len() as int) =~= iv);
}

/// A wrapper value object's schema.
fn wrapper_schema_exec(vo: &crate::ir::ValueObject) -> (r: Json)
    requires
        vo.attributes.len() == 1,
    ensures
        json_view(r) == wrapper_schema(vo@),
{
    let inner = &vo.attributes[0];
    assert(vo@.attributes[0] == inner@);
    let t = primitive_type_exec(inner.attr_type.as_str());
    let ghost tv = t@;
    let mut e: Vec<(String, Json)> = Vec::new();
    e.push(("type".to_owned(), Json::Str(t)));
    proof {
        lemma_entries_view(e@);
        assert(entries_view(e@) =~= seq![("type"@, JsonView::Str(tv))]);
    }
    invariants_bound_exec(&mut e, &vo.invariants);
    if eq_str(&chars_of(inner.name.as_str()), "cents") {
        obj_insert_exec(&mut e, "x-hecks-money".to_owned(), Json::Str("cents".to_owned()));
    }
    object_of(e)
}

/// The schema of one attribute of a command of `agg`.
pub fn attr_schema(agg: &Aggregate, attr: &Attribute) -> (r: Json)
    ensures
        json_view(r) == attr_schema_of(agg@, attr@),
{
    assert(attr@.enum_values =~= texts(attr.enum_values@));
    if attr.enum_values.len() > 0 {
        return enum_json(&attr.enum_values);
    }
    match find_vo_exec(agg, &attr.attr_type) {
        Some(i) => {
            let vo = &agg.value_objects[i];
            assert(agg@.value_objects[i as int] == vo@);
            if vo.members.len() > 0 {
                let ds = discriminants_exec(&vo.members);
                return enum_json(&ds);
            }
            if vo.attributes.len() == 1 {
                return wrapper_schema_exec(vo);
            }
            primitive_schema(attr.attr_type.as_str())
        },
        None => primitive_schema(attr.attr_type.as_str()),
    }
}

fn ref_schema_exec(target: &String) -> (r: Json)
    ensures
        json_view(r) == ref_schema(target@),
{
    let d = string_of(&concat(&chars_of("id of a "), &chars_of(target.as_str())));
    let ghost dv = d@;
    let mut e: Vec<(String, Json)> = Vec::new();
    e.push(("description".to_owned(), Json::Str(d)));
    e.push(("type".to_owned(), Json::Str("string".to_owned())));
    proof {
        lemma_entries_view(e@);
        assert(entries_view(e@) =~= seq![
            ("description"@, JsonView::Str(dv)),
            ("type"@, JsonView::Str("string"@)),
        ]);
    }
    object_of(e)
}

/// `agg.name + "." + name`.
fn dotted(a: &String, b: &String) -> (r: String)
    ensures
        r@ == a@ + "."@ + b@,
{
    string_of(&concat(&concat(&chars_of(a.as_str()), &chars_of(".")), &chars_of(b.as_str())))
}

/// The payload schema of `cmd`, a command of `agg`.
pub fn command_schema(agg: &Aggregate, cmd: &Command) -> (r: Json)
    ensures
        json_view(r) == command_schema_of(agg@, cmd@),
{
    let ghost av = agg@;
    let ghost attrs = cmd@.attributes;
    let ghost refs = cmd@.references;
    let mut props: Vec<(String, Json)> = Vec::new();
    let mut required: Vec<Json> = Vec::new();
    let mut i: usize = 0;
    proof {
        lemma_entries_view(props@);
        lemma_items_view(required@);
    }
    while i < cmd.attributes.len()
        invariant
            i <= cmd.attributes.len(),
            attrs == cmd@.attributes,
            attrs.len() == cmd.attributes@.len(),
            av == agg@,
            entries_view(props@) == attr_props(av, attrs.take(i as int)),
            items_view(required@) == required_names(attrs.take(i as int)),
        decreases cmd.attributes.len() - i,
    {
        let a = &cmd.attributes[i];
        assert(attrs[i as int] == a@);
        assert(attrs.take(i + 1).drop_last() =~= attrs.take(i as int));
        assert(attrs.take(i + 1).last() == a@);
        let sch = attr_schema(agg, a);
        obj_insert_exec(&mut props, copy_string(&a.name), sch);
        if a.required {
            let n = Json::Str(copy_string(&a.name));
            proof {
                lemma_items_view_push(required@, n);
            }
            required.push(n);
        }
        i = i + 1;
    }
    assert(attrs.take(cmd.attributes.len() as int) =~= attrs);
    let ghost base = entries_view(props@);
    let mut j: usize = 0;
    while j < cmd.references.len()
        invariant
            j <= cmd.references.len(),
            refs == cmd@.references,
            refs.len() == cmd.references@.len(),
            entries_view(props@) == ref_props(base, refs.take(j as int)),
        decreases cmd.references.len() - j,
    {
        let r = &cmd.references[j];
        assert(refs[j as int] == r@);
        assert(refs.take(j + 1).drop_last() =~= refs.take(j as int));
        assert(refs.take(j + 1).last() == r@);
        obj_insert_exec(&mut props, copy_string(&r.name), ref_schema_exec(&r.target));
        j = j + 1;
    }
    assert(refs.take(cmd.references.len() as int) =~= refs);
    let ghost pv = entries_view(props@);
    let ghost rv = items_view(required@);
    let title = dotted(&agg.name, &cmd.name);
    let ghost tv = title@;
    let mut e: Vec<(String, Json)> = Vec::new();
    e.push(("$schema".to_owned(), Json::Str("https://json-schema.org/draft/2020-12/schema".to_owned())));
    e.push(("additionalProperties".to_owned(), Json::Bool(false)));
    e.push(("properties".to_owned(), object_of(props)));
    e.push(("required".to_owned(), Json::Array(required)));
    e.push(("title".to_owned(), Json::Str(title)));
    e.push(("type".to_owned(), Json::Str("object".to_owned())));
    proof {
        lemma_entries_view(e@);
        assert(entries_view(e@) =~= seq![
            ("$schema"@, JsonView::Str("https://json-schema.org/draft/2020-12/schema"@)),
            ("additionalProperties"@, JsonView::Bool(false)),
            ("properties"@, JsonView::Object(pv)),
            ("required"@, JsonView::Array(rv)),
            ("title"@, JsonView::Str(tv)),
            ("type"@, JsonView::Str("object"@)),
        ]);
    }
    object_of(e)
}

/// Every command's payload schema in the domain, keyed by
/// `Aggregate.Command`.
pub fn domain_schemas(domain: &Domain) -> (r: Json)
    ensures
        json_view(r) == JsonView::Object(domain_entries(domain@.aggregates)),
{
    let ghost aggs = domain@.aggregates;
    let mut m: Vec<(String, Json)> = Vec::new();
    proof {
        lemma_entries_view(m@);
    }
    let mut i: usize = 0;
    while i < domain.aggregates.len()
        invariant
            i <= domain.aggregates.len(),
            aggs == domain@.aggregates,
            aggs.len() == domain.aggregates@.len(),
            entries_view(m@) == domain_entries(aggs.take(i as int)),
        decreases domain.aggregates.len() - i,
    {
        let agg = &domain.aggregates[i];
        assert(aggs[i as int] == agg@);
        assert(aggs.take(i + 1).drop_last() =~= aggs.take(i as int));
        assert(aggs.take(i + 1).last() == agg@);
        let ghost start = entries_view(m@);
        let ghost cmds = agg@.commands;
        let mut j: usize = 0;
        while j < agg.commands.len()
            invariant
                j <= agg.commands.len(),
                cmds == agg@.commands,
                cmds.len() == agg.commands@.len(),
                entries_view(m@) == command_entries(start, agg@, cmds.take(j as int)),
            decreases agg.commands.len() - j,
        {
            let c = &agg.commands[j];
            assert(cmds[j as int] == c@);
            assert(cmds.take(j + 1).drop_last() =~= cmds.take(j as int));
            assert(cmds.take(j + 1).last() == c@);
            obj_insert_exec(&mut m, dotted(&agg.name, &c.name), command_schema(agg, c));
            j = j + 1;
        }
        assert(cmds.take(agg.commands.len() as int) =~= cmds);
        i = i + 1;
    }
    assert(aggs.take(domain.aggregates.len() as int) =~= aggs);
    object_of(m)
}

} // verus!

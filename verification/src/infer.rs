//! Inferring a JSON Schema from example data, with the data as defaults.

use vstd::prelude::*;
use crate::json::{
    find_key, get_spec, copy_entries, copy_value, entries_view, items_view, json_eq, json_equal, json_view, lemma_entries_view,
    lemma_items_view, JsonNumber, JsonValue, JsonView, NumberView,
};

verus! {

/// The type keyword a number is inferred as.
pub open spec fn number_type(n: NumberView) -> Seq<char> {
    match n {
        NumberView::Float(_) => "number"@,
        _ => "integer"@,
    }
}

/// A schema of the given type with the value as its default.
pub open spec fn with_type(kind: Seq<char>, default: JsonView) -> JsonView {
    JsonView::Object(seq![("type"@, JsonView::Str(kind)), ("default"@, default)])
}

/// The schema inferred for a value: scalars get their type, arrays and
/// objects are described member by member; the value is the default.
pub open spec fn infer(v: JsonView) -> JsonView
    decreases v, 0int,
{
    match v {
        JsonView::Null => with_type("null"@, v),
        JsonView::Bool(_) => with_type("boolean"@, v),
        JsonView::Number(n) => with_type(number_type(n), v),
        JsonView::Str(_) => with_type("string"@, v),
        JsonView::Array(items) => {
            let base = seq![("type"@, JsonView::Str("array"@)), ("default"@, v)];
            match items_schema(items) {
                Some(s) => JsonView::Object(base.push(("items"@, s))),
                None => JsonView::Object(base),
            }
        },
        JsonView::Object(entries) => {
            let base = seq![
                ("type"@, JsonView::Str("object"@)),
                ("default"@, v),
                ("additionalProperties"@, JsonView::Bool(true)),
            ];
            if entries.len() == 0 {
                JsonView::Object(base)
            } else {
                JsonView::Object(
                    base.push(("properties"@, JsonView::Object(property_schemas(entries)))).push(
                        ("required"@, JsonView::Array(key_strings(entries))),
                    ),
                )
            }
        },
    }
}

/// The schema of each member, under its key.
pub open spec fn property_schemas(entries: Seq<(Seq<char>, JsonView)>) -> Seq<(Seq<char>, JsonView)>
    decreases entries, 1int,
{
    if entries.len() == 0 {
        Seq::empty()
    } else {
        property_schemas(entries.drop_last()).push((entries.last().0, infer(entries.last().1)))
    }
}

/// The keys as strings, in order.
pub open spec fn key_strings(entries: Seq<(Seq<char>, JsonView)>) -> Seq<JsonView> {
    entries.map_values(|e: (Seq<char>, JsonView)| JsonView::Str(e.0))
}

/// The members other than those under `key`, in order.
pub open spec fn drop_key(entries: Seq<(Seq<char>, JsonView)>, key: Seq<char>) -> Seq<(Seq<char>, JsonView)>
    decreases entries.len(),
{
    if entries.len() == 0 {
        Seq::empty()
    } else {
        let r = drop_key(entries.drop_last(), key);
        if entries.last().0 == key {
            r
        } else {
            r.push(entries.last())
        }
    }
}

/// A schema without its `default`.
pub open spec fn without_default(v: JsonView) -> JsonView {
    match v {
        JsonView::Object(e) => JsonView::Object(drop_key(e, "default"@)),
        _ => v,
    }
}

/// Two item schemas describe the same variant when they are equal (as JSON
/// sees it) apart from their defaults.
pub open spec fn same_variant(a: JsonView, b: JsonView) -> bool {
    json_eq(without_default(a), without_default(b))
}

/// The items' schemas with repeated variants left out, first occurrence
/// first.
pub open spec fn distinct_schemas(items: Seq<JsonView>) -> Seq<JsonView>
    decreases items, 1int,
{
    if items.len() == 0 {
        Seq::empty()
    } else {
        let r = distinct_schemas(items.drop_last());
        let s = infer(items.last());
        if exists|k: int| 0 <= k < r.len() && same_variant(#[trigger] r[k], s) {
            r
        } else {
            r.push(s)
        }
    }
}

/// The schema of an array's items: none for an empty array, the one schema
/// they share, or `anyOf` over their distinct schemas.
pub open spec fn items_schema(items: Seq<JsonView>) -> Option<JsonView>
    decreases items, 2int,
{
    if items.len() == 0 {
        None
    } else if items.len() == 1 {
        Some(infer(items[0]))
    } else {
        let variants = distinct_schemas(items);
        if variants.len() == 1 {
            Some(variants[0])
        } else {
            Some(JsonView::Object(seq![("anyOf"@, JsonView::Array(variants))]))
        }
    }
}

/// The draft the inferred schemas declare.
pub open spec fn draft_uri() -> Seq<char> {
    "http://json-schema.org/draft-07/schema#"@
}

/// The inferred schema, declaring its draft.
pub open spec fn schema_from_data_spec(v: JsonView) -> JsonView {
    match infer(v) {
        JsonView::Object(e) => JsonView::Object(e.push(("$schema"@, JsonView::Str(draft_uri())))),
        other => other,
    }
}

fn obj2(k1: &str, v1: JsonValue, k2: &str, v2: JsonValue) -> (r: Vec<(String, JsonValue)>)
    ensures
        entries_view(r@) == seq![(k1@, v1@), (k2@, v2@)],
{
    let mut out: Vec<(String, JsonValue)> = Vec::new();
    assert(entries_view(out@) =~= Seq::<(Seq<char>, JsonView)>::empty());
    let ghost a = v1@;
    let ghost b = v2@;
    push_entry(&mut out, k1, v1);
    push_entry(&mut out, k2, v2);
    assert(entries_view(out@) =~= seq![(k1@, a), (k2@, b)]);
    out
}

fn push_entry(out: &mut Vec<(String, JsonValue)>, k: &str, v: JsonValue)
    ensures
        entries_view(final(out)@) == entries_view(old(out)@).push((k@, v@)),
{
    let ghost before = out@;
    out.push((k.to_string(), v));
    assert(out@.drop_last() =~= before);
}

/// The schema inferred for a value.
pub fn infer_schema(v: &JsonValue) -> (r: JsonValue)
    ensures
        r@ == infer(v@),
    decreases v, 0int,
{
    match v {
        JsonValue::Null => JsonValue::Object(obj2("type", JsonValue::Str("null".to_string()), "default", copy_value(v))),
        JsonValue::Bool(_) => JsonValue::Object(obj2("type", JsonValue::Str("boolean".to_string()), "default", copy_value(v))),
        JsonValue::Number(n) => {
            let kind = match n {
                JsonNumber::Float(_) => "number",
                _ => "integer",
            };
            JsonValue::Object(obj2("type", JsonValue::Str(kind.to_string()), "default", copy_value(v)))
        },
        JsonValue::Str(_) => JsonValue::Object(obj2("type", JsonValue::Str("string".to_string()), "default", copy_value(v))),
        JsonValue::Array(items) => {
            let mut out = obj2("type", JsonValue::Str("array".to_string()), "default", copy_value(v));
            proof {
                vstd::std_specs::vec::axiom_vec_decreases_to_view(*items);
                assert(decreases_to!(*v => (*v)->Array_0));
            }
            proof {
                lemma_items_view(items@);
            }
            match infer_items_schema(items) {
                Some(s) => {
                    push_entry(&mut out, "items", s);
                },
                None => {},
            }
            let r = JsonValue::Object(out);
            assert(v@ == JsonView::Array(items_view(items@)));
            assert(r@ == infer(v@));
            r
        },
        JsonValue::Object(entries) => {
            let ghost d = v@;
            let mut out = obj2("type", JsonValue::Str("object".to_string()), "default", copy_value(v));
            push_entry(&mut out, "additionalProperties", JsonValue::Bool(true));
            let ghost base = seq![
                ("type"@, JsonView::Str("object"@)),
                ("default"@, d),
                ("additionalProperties"@, JsonView::Bool(true)),
            ];
            assert(entries_view(out@) =~= base);
            proof {
                lemma_entries_view(entries@);
            }
            if entries.len() > 0 {
                proof {
                    vstd::std_specs::vec::axiom_vec_decreases_to_view(*entries);
                    assert(decreases_to!(*v => (*v)->Object_0));
                }
                let props = property_schemas_exec(entries);
                let keys = key_strings_exec(entries);
                let ghost pv = entries_view(props@);
                let ghost kv = items_view(keys@);
                push_entry(&mut out, "properties", JsonValue::Object(props));
                push_entry(&mut out, "required", JsonValue::Array(keys));
                assert(entries_view(out@) =~= base.push(("properties"@, JsonView::Object(pv))).push(("required"@, JsonView::Array(kv))));
            }
            let r = JsonValue::Object(out);
            assert(v@ == JsonView::Object(entries_view(entries@)));
            assert(r@ == infer(v@));
            r
        },
    }
}

fn property_schemas_exec(entries: &Vec<(String, JsonValue)>) -> (r: Vec<(String, JsonValue)>)
    ensures
        entries_view(r@) == property_schemas(entries_view(entries@)),
    decreases entries@, 1int,
{
    let mut out: Vec<(String, JsonValue)> = Vec::new();
    let mut i: usize = 0;
    proof {
        lemma_entries_view(entries@);
    }
    assert(entries_view(entries@).subrange(0, 0) =~= Seq::<(Seq<char>, JsonView)>::empty());
    while i < entries.len()
        invariant
            i <= entries.len(),
            entries_view(entries@).len() == entries@.len(),
            forall|j: int| 0 <= j < entries@.len() ==> #[trigger] entries_view(entries@)[j] == (entries@[j].0@, json_view(entries@[j].1)),
            entries_view(out@) == property_schemas(entries_view(entries@).subrange(0, i as int)),
        decreases entries.len() - i,
    {
        proof {
            vstd::seq::axiom_seq_index_decreases(entries@, i as int);
            assert(decreases_to!(entries@[i as int] => entries@[i as int].1));
        }
        let ghost pre = entries_view(entries@).subrange(0, i as int);
        let ghost post = entries_view(entries@).subrange(0, i + 1);
        assert(post.drop_last() =~= pre);
        let s = infer_schema(&entries[i].1);
        push_entry(&mut out, entries[i].0.as_str(), s);
        i = i + 1;
    }
    assert(entries_view(entries@).subrange(0, entries.len() as int) =~= entries_view(entries@));
    out
}

fn key_strings_exec(entries: &Vec<(String, JsonValue)>) -> (r: Vec<JsonValue>)
    ensures
        items_view(r@) == key_strings(entries_view(entries@)),
{
    let mut out: Vec<JsonValue> = Vec::new();
    let mut i: usize = 0;
    proof {
        lemma_entries_view(entries@);
    }
    while i < entries.len()
        invariant
            i <= entries.len(),
            entries_view(entries@).len() == entries@.len(),
            forall|j: int| 0 <= j < entries@.len() ==> #[trigger] entries_view(entries@)[j] == (entries@[j].0@, json_view(entries@[j].1)),
            items_view(out@) == key_strings(entries_view(entries@)).subrange(0, i as int),
        decreases entries.len() - i,
    {
        let ghost before = out@;
        let name = entries[i].0.clone();
        out.push(JsonValue::Str(name));
        proof {
            assert(out@.drop_last() =~= before);
            assert(items_view(out@) == items_view(before).push(json_view(out@.last())));
            assert(json_view(out@.last()) == JsonView::Str(entries@[i as int].0@));
            assert(key_strings(entries_view(entries@)).subrange(0, i + 1) =~= key_strings(entries_view(entries@)).subrange(0, i as int).push(JsonView::Str(entries@[i as int].0@)));
        }
        i = i + 1;
    }
    assert(key_strings(entries_view(entries@)).subrange(0, entries.len() as int) =~= key_strings(entries_view(entries@)));
    out
}

fn without_default_exec(v: &JsonValue) -> (r: JsonValue)
    ensures
        r@ == without_default(v@),
{
    match v {
        JsonValue::Object(entries) => {
            let mut out: Vec<(String, JsonValue)> = Vec::new();
            let mut i: usize = 0;
            proof {
                lemma_entries_view(entries@);
                reveal_strlit("default");
            }
            assert(entries_view(entries@).subrange(0, 0) =~= Seq::<(Seq<char>, JsonView)>::empty());
            assert(entries_view(out@) =~= Seq::<(Seq<char>, JsonView)>::empty());
            while i < entries.len()
                invariant
                    i <= entries.len(),
                    entries_view(entries@).len() == entries@.len(),
                    forall|j: int| 0 <= j < entries@.len() ==> #[trigger] entries_view(entries@)[j] == (entries@[j].0@, json_view(entries@[j].1)),
                    entries_view(out@) == drop_key(entries_view(entries@).subrange(0, i as int), "default"@),
                decreases entries.len() - i,
            {
                let ghost pre = entries_view(entries@).subrange(0, i as int);
                let ghost post = entries_view(entries@).subrange(0, i + 1);
                assert(post.drop_last() =~= pre);
                assert(post.last() == (entries@[i as int].0@, json_view(entries@[i as int].1)));
                if !crate::text::str_equal(entries[i].0.as_str(), "default") {
                    let copy = copy_value(&entries[i].1);
                    push_entry(&mut out, entries[i].0.as_str(), copy);
                }
                i = i + 1;
            }
            assert(entries_view(entries@).subrange(0, entries.len() as int) =~= entries_view(entries@));
            let r = JsonValue::Object(out);
            assert(v@ == JsonView::Object(entries_view(entries@)));
            r
        },
        _ => copy_value(v),
    }
}

fn same_variant_exec(a: &JsonValue, b: &JsonValue) -> (r: bool)
    ensures
        r == same_variant(a@, b@),
{
    let x = without_default_exec(a);
    let y = without_default_exec(b);
    json_equal(&x, &y)
}

fn distinct_schemas_exec(items: &Vec<JsonValue>) -> (r: Vec<JsonValue>)
    ensures
        items_view(r@) == distinct_schemas(items_view(items@)),
    decreases items@, 1int,
{
    let mut out: Vec<JsonValue> = Vec::new();
    let mut i: usize = 0;
    proof {
        lemma_items_view(items@);
    }
    assert(items_view(items@).subrange(0, 0) =~= Seq::<JsonView>::empty());
    assert(items_view(out@) =~= Seq::<JsonView>::empty());
    while i < items.len()
        invariant
            i <= items.len(),
            items_view(items@).len() == items@.len(),
            forall|j: int| 0 <= j < items@.len() ==> #[trigger] items_view(items@)[j] == json_view(items@[j]),
            items_view(out@) == distinct_schemas(items_view(items@).subrange(0, i as int)),
        decreases items.len() - i,
    {
        proof {
            vstd::seq::axiom_seq_index_decreases(items@, i as int);
        }
        let ghost pre = items_view(items@).subrange(0, i as int);
        let ghost post = items_view(items@).subrange(0, i + 1);
        assert(post.drop_last() =~= pre);
        assert(post.last() == json_view(items@[i as int]));
        let s = infer_schema(&items[i]);
        let mut seen = false;
        let mut k: usize = 0;
        proof {
            lemma_items_view(out@);
        }
        while k < out.len()
            invariant
                k <= out.len(),
                items_view(out@).len() == out@.len(),
                forall|j: int| 0 <= j < out@.len() ==> #[trigger] items_view(out@)[j] == json_view(out@[j]),
                seen == (exists|q: int| 0 <= q < k && same_variant(#[trigger] items_view(out@)[q], s@)),
            decreases out.len() - k,
        {
            if same_variant_exec(&out[k], &s) {
                assert(same_variant(items_view(out@)[k as int], s@));
                seen = true;
            } else {
                assert(!same_variant(items_view(out@)[k as int], s@));
            }
            k = k + 1;
        }
        if !seen {
            let ghost before = out@;
            out.push(s);
            assert(out@.drop_last() =~= before);
        }
        i = i + 1;
    }
    assert(items_view(items@).subrange(0, items.len() as int) =~= items_view(items@));
    out
}

/// The schema of an array's items.
fn infer_items_schema(items: &Vec<JsonValue>) -> (r: Option<JsonValue>)
    ensures
        match r {
            Some(s) => items_schema(items_view(items@)) == Some(s@),
            None => items_schema(items_view(items@)) is None,
        },
    decreases items@, 2int,
{
    proof {
        lemma_items_view(items@);
    }
    if items.len() == 0 {
        return None;
    }
    if items.len() == 1 {
        proof {
            vstd::seq::axiom_seq_index_decreases(items@, 0);
        }
        return Some(infer_schema(&items[0]));
    }
    let mut variants = distinct_schemas_exec(items);
    proof {
        lemma_items_view(variants@);
    }
    if variants.len() == 1 {
        let only = variants.pop();
        match only {
            Some(s) => Some(s),
            None => None,
        }
    } else {
        let mut out: Vec<(String, JsonValue)> = Vec::new();
        push_entry(&mut out, "anyOf", JsonValue::Array(variants));
        assert(entries_view(Seq::<(String, JsonValue)>::empty()) =~= Seq::<(Seq<char>, JsonView)>::empty());
        Some(JsonValue::Object(out))
    }
}

/// Converts example data into a JSON Schema with the data as defaults,
/// declaring the schema draft.
pub fn schema_from_data_value(value: &JsonValue) -> (r: JsonValue)
    ensures
        r@ == schema_from_data_spec(value@),
{
    let schema = infer_schema(value);
    match schema {
        JsonValue::Object(mut e) => {
            push_entry(&mut e, "$schema", JsonValue::Str("http://json-schema.org/draft-07/schema#".to_string()));
            JsonValue::Object(e)
        },
        other => other,
    }
}

proof fn lemma_find_after_two(e: Seq<(Seq<char>, JsonView)>, key: Seq<char>)
    requires
        e.len() >= 2,
        e[0].0 != key,
        e[1].0 == key,
    ensures
        find_key(e, key) == 1,
{
    reveal_with_fuel(find_key, 2);
    assert(e.drop_first()[0] == e[1]);
}

/// Every inferred schema has the example value as its `default`, and the
/// type keyword of the value's kind as its `type`.
pub proof fn lemma_inferred_default(v: JsonView)
    ensures
        get_spec(infer(v), "default"@) == Some(v),
        get_spec(infer(v), "type"@) == Some(JsonView::Str(match v {
            JsonView::Null => "null"@,
            JsonView::Bool(_) => "boolean"@,
            JsonView::Number(n) => number_type(n),
            JsonView::Str(_) => "string"@,
            JsonView::Array(_) => "array"@,
            JsonView::Object(_) => "object"@,
        })),
{
    reveal_strlit("default");
    reveal_strlit("type");
    match infer(v) {
        JsonView::Object(e) => {
            assert(e[0].0 == "type"@);
            assert(e[1].0 == "default"@);
            assert("type"@ != "default"@) by {
                assert("type"@[0] != "default"@[0]);
            }
            lemma_find_after_two(e, "default"@);
        },
        _ => {},
    }
}

/// Inferring from data and declaring the draft keeps the data as the
/// schema's `default`.
pub proof fn lemma_schema_from_data_default(v: JsonView)
    ensures
        get_spec(schema_from_data_spec(v), "default"@) == Some(v),
{
    lemma_inferred_default(v);
    reveal_strlit("default");
    reveal_strlit("type");
    match infer(v) {
        JsonView::Object(e) => {
            let e2 = e.push(("$schema"@, JsonView::Str(draft_uri())));
            assert(e2[0] == e[0]);
            assert(e2[1] == e[1]);
            assert("type"@ != "default"@) by {
                assert("type"@[0] != "default"@[0]);
            }
            lemma_find_after_two(e2, "default"@);
        },
        _ => {},
    }
}

/// The first member named `key` is at `k` when no earlier one is.
proof fn lemma_find_key_at(e: Seq<(Seq<char>, JsonView)>, key: Seq<char>, k: int)
    requires
        0 <= k < e.len(),
        e[k].0 == key,
        forall|j: int| 0 <= j < k ==> #[trigger] e[j].0 != key,
    ensures
        find_key(e, key) == k,
    decreases k,
{
    if k > 0 {
        assert forall|j: int| 0 <= j < k - 1 implies #[trigger] e.drop_first()[j].0 != key by {
            assert(e.drop_first()[j] == e[j + 1]);
        }
        lemma_find_key_at(e.drop_first(), key, k - 1);
    }
}

/// Inferring a schema from a non-empty object marks every one of its keys
/// required, in the object's order.
pub proof fn lemma_object_keys_required(es: Seq<(Seq<char>, JsonView)>)
    requires
        es.len() > 0,
    ensures
        get_spec(schema_from_data_spec(JsonView::Object(es)), "required"@) == Some(
            JsonView::Array(Seq::new(es.len(), |i: int| JsonView::Str(es[i].0))),
        ),
{
    reveal_strlit("type");
    reveal_strlit("default");
    reveal_strlit("additionalProperties");
    reveal_strlit("properties");
    reveal_strlit("required");
    let v = JsonView::Object(es);
    match infer(v) {
        JsonView::Object(e) => {
            let e2 = e.push(("$schema"@, JsonView::Str(draft_uri())));
            assert(e2[4] == e[4]);
            assert(e2[4].0 == "required"@);
            assert forall|j: int| 0 <= j < 4 implies #[trigger] e2[j].0 != "required"@ by {
                assert(e2[j] == e[j]);
                assert(e2[j].0[0] != "required"@[0]);
            }
            lemma_find_key_at(e2, "required"@, 4);
            assert(key_strings(es) =~= Seq::new(es.len(), |i: int| JsonView::Str(es[i].0)));
        },
        _ => {},
    }
}

proof fn lemma_property_schemas_shape(es: Seq<(Seq<char>, JsonView)>)
    ensures
        property_schemas(es).len() == es.len(),
        forall|i: int| 0 <= i < es.len() ==> (#[trigger] property_schemas(es)[i]).0 == es[i].0
            && property_schemas(es)[i].1 == infer(es[i].1),
    decreases es.len(),
{
    if es.len() > 0 {
        lemma_property_schemas_shape(es.drop_last());
        assert forall|i: int| 0 <= i < es.len() implies (#[trigger] property_schemas(es)[i]).0 == es[i].0
            && property_schemas(es)[i].1 == infer(es[i].1) by {
            if i < es.len() - 1 {
                assert(es.drop_last()[i] == es[i]);
            }
        }
    }
}

/// Inferring a schema from a non-empty object describes every member under
/// its key, in order, each with the member's value as its default.
pub proof fn lemma_object_properties(es: Seq<(Seq<char>, JsonView)>)
    requires
        es.len() > 0,
    ensures
        get_spec(schema_from_data_spec(JsonView::Object(es)), "properties"@) matches Some(JsonView::Object(ps)) && ps.len()
            == es.len() && forall|i: int| 0 <= i < es.len() ==> (#[trigger] ps[i]).0 == es[i].0 && get_spec(ps[i].1, "default"@)
            == Some(es[i].1),
{
    reveal_strlit("type");
    reveal_strlit("default");
    reveal_strlit("additionalProperties");
    reveal_strlit("properties");
    let v = JsonView::Object(es);
    lemma_property_schemas_shape(es);
    match infer(v) {
        JsonView::Object(e) => {
            let e2 = e.push(("$schema"@, JsonView::Str(draft_uri())));
            assert(e2[3] == e[3]);
            assert(e2[3].0 == "properties"@);
            assert forall|j: int| 0 <= j < 3 implies #[trigger] e2[j].0 != "properties"@ by {
                assert(e2[j] == e[j]);
                assert(e2[j].0[0] != "properties"@[0]);
            }
            lemma_find_key_at(e2, "properties"@, 3);
            let ps = property_schemas(es);
            assert forall|i: int| 0 <= i < es.len() implies (#[trigger] ps[i]).0 == es[i].0 && get_spec(ps[i].1, "default"@)
                == Some(es[i].1) by {
                lemma_inferred_default(es[i].1);
            }
        },
        _ => {},
    }
}

} // verus!

//! Adapting a JSON document for TOML output, which has no null.

use vstd::prelude::*;
use crate::json::{
    copy_value, entries_view, items_view, json_view, lemma_entries_view, lemma_items_view, JsonValue, JsonView,
};
use crate::pointer::{display_json_pointer, display_pointer, escape_pointer_token, escape_token};
use crate::text::{chars_of, decimal, push_decimal, push_str, string_from_chars};

verus! {

/// The message for a null TOML cannot hold.
pub open spec fn null_message(pointer: Seq<char>) -> Seq<char> {
    "TOML cannot represent null at "@ + display_pointer(pointer)
}

/// The document as TOML can hold it: null object members are left out; a
/// null anywhere else is refused with its pointer.
pub open spec fn toml_prep(v: JsonView, pointer: Seq<char>) -> Result<JsonView, Seq<char>>
    decreases v, 0int,
{
    match v {
        JsonView::Null => Err(null_message(pointer)),
        JsonView::Array(items) => match items_prep(items, pointer) {
            Ok(vs) => Ok(JsonView::Array(vs)),
            Err(e) => Err(e),
        },
        JsonView::Object(entries) => match entries_prep(entries, pointer) {
            Ok(es) => Ok(JsonView::Object(es)),
            Err(e) => Err(e),
        },
        _ => Ok(v),
    }
}

/// The items prepared in order, each at its index.
pub open spec fn items_prep(items: Seq<JsonView>, pointer: Seq<char>) -> Result<Seq<JsonView>, Seq<char>>
    decreases items, 1int,
{
    if items.len() == 0 {
        Ok(Seq::empty())
    } else {
        match items_prep(items.drop_last(), pointer) {
            Err(e) => Err(e),
            Ok(vs) => match toml_prep(items.last(), pointer + seq!['/'] + decimal((items.len() - 1) as nat)) {
                Err(e) => Err(e),
                Ok(x) => Ok(vs.push(x)),
            },
        }
    }
}

/// The members prepared in order, null ones left out.
pub open spec fn entries_prep(entries: Seq<(Seq<char>, JsonView)>, pointer: Seq<char>) -> Result<Seq<(Seq<char>, JsonView)>, Seq<char>>
    decreases entries, 1int,
{
    if entries.len() == 0 {
        Ok(Seq::empty())
    } else {
        match entries_prep(entries.drop_last(), pointer) {
            Err(e) => Err(e),
            Ok(es) => {
                let (k, c) = entries.last();
                if c is Null {
                    Ok(es)
                } else {
                    match toml_prep(c, pointer + seq!['/'] + escape_token(k)) {
                        Err(e) => Err(e),
                        Ok(x) => Ok(es.push((k, x))),
                    }
                }
            },
        }
    }
}

/// Whether a null sits where TOML cannot leave it out: at the root or in an
/// array, at any depth.
pub open spec fn has_stray_null(v: JsonView) -> bool
    decreases v, 0int,
{
    match v {
        JsonView::Null => true,
        JsonView::Array(items) => items_have_null(items),
        JsonView::Object(entries) => members_have_null(entries),
        _ => false,
    }
}

pub open spec fn items_have_null(items: Seq<JsonView>) -> bool
    decreases items, 1int,
{
    if items.len() == 0 {
        false
    } else {
        items_have_null(items.drop_last()) || has_stray_null(items.last())
    }
}

pub open spec fn members_have_null(entries: Seq<(Seq<char>, JsonView)>) -> bool
    decreases entries, 1int,
{
    if entries.len() == 0 {
        false
    } else {
        members_have_null(entries.drop_last()) || (!(entries.last().1 is Null) && has_stray_null(entries.last().1))
    }
}

/// Preparing for TOML fails exactly when a null sits at the root or in an
/// array; null object members are dropped instead.
pub proof fn lemma_toml_fails_iff_stray_null(v: JsonView, pointer: Seq<char>)
    ensures
        toml_prep(v, pointer) is Err <==> has_stray_null(v),
    decreases v, 0int,
{
    match v {
        JsonView::Array(items) => {
            lemma_items_prep(items, pointer);
        },
        JsonView::Object(entries) => {
            lemma_entries_prep(entries, pointer);
        },
        _ => {},
    }
}

/// Whether a null sits anywhere in the document.
pub open spec fn contains_null(v: JsonView) -> bool
    decreases v, 0int,
{
    match v {
        JsonView::Null => true,
        JsonView::Array(items) => items_contain_null(items),
        JsonView::Object(entries) => members_contain_null(entries),
        _ => false,
    }
}

pub open spec fn items_contain_null(items: Seq<JsonView>) -> bool
    decreases items, 1int,
{
    if items.len() == 0 {
        false
    } else {
        items_contain_null(items.drop_last()) || contains_null(items.last())
    }
}

pub open spec fn members_contain_null(entries: Seq<(Seq<char>, JsonView)>) -> bool
    decreases entries, 1int,
{
    if entries.len() == 0 {
        false
    } else {
        members_contain_null(entries.drop_last()) || contains_null(entries.last().1)
    }
}

/// What preparation hands to the TOML writer holds no null anywhere.
pub proof fn lemma_prepared_has_no_null(v: JsonView, pointer: Seq<char>)
    ensures
        toml_prep(v, pointer) matches Ok(w) ==> !contains_null(w),
    decreases v, 0int,
{
    match v {
        JsonView::Array(items) => {
            lemma_items_prepared(items, pointer);
        },
        JsonView::Object(entries) => {
            lemma_entries_prepared(entries, pointer);
        },
        _ => {},
    }
}

proof fn lemma_items_prepared(items: Seq<JsonView>, pointer: Seq<char>)
    ensures
        items_prep(items, pointer) matches Ok(vs) ==> !items_contain_null(vs),
    decreases items, 1int,
{
    if items.len() > 0 {
        lemma_items_prepared(items.drop_last(), pointer);
        lemma_prepared_has_no_null(items.last(), pointer + seq!['/'] + decimal((items.len() - 1) as nat));
        match items_prep(items, pointer) {
            Ok(vs) => {
                assert(vs.drop_last() =~= items_prep(items.drop_last(), pointer)->Ok_0);
            },
            Err(_) => {},
        }
    }
}

proof fn lemma_entries_prepared(entries: Seq<(Seq<char>, JsonView)>, pointer: Seq<char>)
    ensures
        entries_prep(entries, pointer) matches Ok(es) ==> !members_contain_null(es),
    decreases entries, 1int,
{
    if entries.len() > 0 {
        lemma_entries_prepared(entries.drop_last(), pointer);
        let (k, c) = entries.last();
        lemma_prepared_has_no_null(c, pointer + seq!['/'] + escape_token(k));
        match entries_prep(entries, pointer) {
            Ok(es) => {
                if !(c is Null) {
                    assert(es.drop_last() =~= entries_prep(entries.drop_last(), pointer)->Ok_0);
                }
            },
            Err(_) => {},
        }
    }
}

proof fn lemma_items_prep(items: Seq<JsonView>, pointer: Seq<char>)
    ensures
        items_prep(items, pointer) is Err <==> items_have_null(items),
    decreases items, 1int,
{
    if items.len() > 0 {
        lemma_items_prep(items.drop_last(), pointer);
        lemma_toml_fails_iff_stray_null(items.last(), pointer + seq!['/'] + decimal((items.len() - 1) as nat));
    }
}

proof fn lemma_entries_prep(entries: Seq<(Seq<char>, JsonView)>, pointer: Seq<char>)
    ensures
        entries_prep(entries, pointer) is Err <==> members_have_null(entries),
    decreases entries, 1int,
{
    if entries.len() > 0 {
        lemma_entries_prep(entries.drop_last(), pointer);
        let (k, c) = entries.last();
        lemma_toml_fails_iff_stray_null(c, pointer + seq!['/'] + escape_token(k));
    }
}

fn child_pointer(pointer: &str, segment: &Vec<char>) -> (r: String)
    ensures
        r@ == pointer@ + seq!['/'] + segment@,
{
    let mut out = chars_of(pointer);
    out.push('/');
    crate::text::push_all(&mut out, segment);
    string_from_chars(&out)
}

/// Adapts a value for TOML output; `pointer` locates it in the document.
pub fn prepare_toml_value(value: &JsonValue, pointer: &str) -> (r: Result<JsonValue, String>)
    ensures
        match (r, toml_prep(value@, pointer@)) {
            (Ok(x), Ok(w)) => x@ == w,
            (Err(e), Err(w)) => e@ == w,
            _ => false,
        },
    decreases value,
{
    match value {
        JsonValue::Null => {
            let mut msg = chars_of("TOML cannot represent null at ");
            let shown = display_json_pointer(pointer);
            push_str(&mut msg, shown.as_str());
            Err(string_from_chars(&msg))
        },
        JsonValue::Array(items) => {
            let mut out: Vec<JsonValue> = Vec::new();
            let mut i: usize = 0;
            proof {
                lemma_items_view(items@);
            }
            assert(items_view(items@).subrange(0, 0) =~= Seq::<JsonView>::empty());
            assert(items_view(out@) =~= Seq::<JsonView>::empty());
            while i < items.len()
                invariant
                    i <= items.len(),
                    *value == JsonValue::Array(*items),
                    items_view(items@).len() == items@.len(),
                    forall|j: int| 0 <= j < items@.len() ==> #[trigger] items_view(items@)[j] == json_view(items@[j]),
                    items_prep(items_view(items@).subrange(0, i as int), pointer@) == Ok::<Seq<JsonView>, Seq<char>>(items_view(out@)),
                decreases items.len() - i,
            {
                proof {
                    vstd::std_specs::vec::axiom_vec_decreases_to_view(*items);
                    vstd::seq::axiom_seq_index_decreases(items@, i as int);
                    assert(decreases_to!(*value => (*value)->Array_0));
                }
                let ghost pre = items_view(items@).subrange(0, i as int);
                let ghost post = items_view(items@).subrange(0, i + 1);
                assert(post.drop_last() =~= pre);
                assert(post.last() == json_view(items@[i as int]));
                let mut digits: Vec<char> = Vec::new();
                push_decimal(&mut digits, i as u64);
                assert(digits@ =~= decimal(i as nat));
                let child = child_pointer(pointer, &digits);
                match prepare_toml_value(&items[i], child.as_str()) {
                    Ok(x) => {
                        let ghost before = out@;
                        out.push(x);
                        assert(out@.drop_last() =~= before);
                    },
                    Err(e) => {
                        proof {
                            lemma_items_prep_err(items_view(items@), i as int + 1, pointer@);
                        }
                        return Err(e);
                    },
                }
                i = i + 1;
            }
            assert(items_view(items@).subrange(0, items.len() as int) =~= items_view(items@));
            Ok(JsonValue::Array(out))
        },
        JsonValue::Object(entries) => {
            let mut out: Vec<(String, JsonValue)> = Vec::new();
            let mut i: usize = 0;
            proof {
                lemma_entries_view(entries@);
            }
            assert(entries_view(entries@).subrange(0, 0) =~= Seq::<(Seq<char>, JsonView)>::empty());
            assert(entries_view(out@) =~= Seq::<(Seq<char>, JsonView)>::empty());
            while i < entries.len()
                invariant
                    i <= entries.len(),
                    *value == JsonValue::Object(*entries),
                    entries_view(entries@).len() == entries@.len(),
                    forall|j: int|
                        0 <= j < entries@.len() ==> #[trigger] entries_view(entries@)[j] == (entries@[j].0@, json_view(entries@[j].1)),
                    entries_prep(entries_view(entries@).subrange(0, i as int), pointer@) == Ok::<Seq<(Seq<char>, JsonView)>, Seq<char>>(entries_view(out@)),
                decreases entries.len() - i,
            {
                proof {
                    vstd::std_specs::vec::axiom_vec_decreases_to_view(*entries);
                    vstd::seq::axiom_seq_index_decreases(entries@, i as int);
                    assert(decreases_to!(*value => (*value)->Object_0));
                    assert(decreases_to!(entries@[i as int] => entries@[i as int].1));
                }
                let ghost pre = entries_view(entries@).subrange(0, i as int);
                let ghost post = entries_view(entries@).subrange(0, i + 1);
                assert(post.drop_last() =~= pre);
                assert(post.last() == (entries@[i as int].0@, json_view(entries@[i as int].1)));
                let key = &entries[i].0;
                let child = &entries[i].1;
                if !child.is_null() {
                    let escaped = escape_pointer_token(key.as_str());
                    let p = child_pointer(pointer, &chars_of(escaped.as_str()));
                    match prepare_toml_value(child, p.as_str()) {
                        Ok(x) => {
                            let ghost before = out@;
                            out.push((key.clone(), x));
                            assert(out@.drop_last() =~= before);
                        },
                        Err(e) => {
                            proof {
                                lemma_entries_prep_err(entries_view(entries@), i as int + 1, pointer@);
                            }
                            return Err(e);
                        },
                    }
                }
                i = i + 1;
            }
            assert(entries_view(entries@).subrange(0, entries.len() as int) =~= entries_view(entries@));
            Ok(JsonValue::Object(out))
        },
        _ => Ok(copy_value(value)),
    }
}

proof fn lemma_items_prep_err(items: Seq<JsonView>, i: int, pointer: Seq<char>)
    requires
        0 <= i <= items.len(),
        items_prep(items.subrange(0, i), pointer) is Err,
    ensures
        items_prep(items, pointer) == items_prep(items.subrange(0, i), pointer),
    decreases items.len() - i,
{
    if i < items.len() {
        assert(items.subrange(0, i + 1).drop_last() =~= items.subrange(0, i));
        lemma_items_prep_err(items, i + 1, pointer);
    } else {
        assert(items.subrange(0, i) =~= items);
    }
}

proof fn lemma_entries_prep_err(entries: Seq<(Seq<char>, JsonView)>, i: int, pointer: Seq<char>)
    requires
        0 <= i <= entries.len(),
        entries_prep(entries.subrange(0, i), pointer) is Err,
    ensures
        entries_prep(entries, pointer) == entries_prep(entries.subrange(0, i), pointer),
    decreases entries.len() - i,
{
    if i < entries.len() {
        assert(entries.subrange(0, i + 1).drop_last() =~= entries.subrange(0, i));
        lemma_entries_prep_err(entries, i + 1, pointer);
    } else {
        assert(entries.subrange(0, i) =~= entries);
    }
}

} // verus!

//! Turning the text typed into a field back into JSON, and JSON defaults
//! into the text shown for editing.

use vstd::prelude::*;
use crate::json::{
    items_view, json_text, json_to_string, json_view, lemma_items_view, number_text, JsonNumber,
    JsonValue, JsonView, NumberView,
};
use crate::label::{trim_chars, trim_seq};
use crate::numbers::{is_float_syntax, is_float_text, parse_i64, parse_i64_spec};
use crate::schema::{FieldKind, KindView};
use crate::text::{
    chars_equal, chars_of, lower_chars, lower_seq, push_all, push_decimal, push_str, string_from_chars,
    string_views,
};

verus! {

/// A field's text that cannot be read as the field's kind.
#[derive(Debug)]
pub struct FieldCoercionError {
    pub pointer: String,
    pub message: String,
}

/// The view of a coercion error: the field's pointer and the message.
pub struct CoercionErrorView {
    pub pointer: Seq<char>,
    pub message: Seq<char>,
}

impl View for FieldCoercionError {
    type V = CoercionErrorView;

    open spec fn view(&self) -> CoercionErrorView {
        CoercionErrorView { pointer: self.pointer@, message: self.message@ }
    }
}

impl FieldCoercionError {
    /// The error as it is displayed: `pointer: message`.
    pub fn to_text(&self) -> (r: String)
        ensures
            r@ == self@.pointer + ": "@ + self@.message,
    {
        let mut out = chars_of(self.pointer.as_str());
        push_str(&mut out, ": ");
        push_str(&mut out, self.message.as_str());
        string_from_chars(&out)
    }
}

/// The number JSON holds for an `i64`: non-negative values as unsigned.
pub open spec fn number_of_i64(v: i64) -> NumberView {
    if v >= 0 {
        NumberView::PosInt(v as u64)
    } else {
        NumberView::NegInt(v)
    }
}

/// `Value::from(i64)`.
pub fn json_from_i64(v: i64) -> (r: JsonValue)
    ensures
        r@ == JsonView::Number(number_of_i64(v)),
{
    if v >= 0 {
        JsonValue::Number(JsonNumber::PosInt(v as u64))
    } else {
        JsonValue::Number(JsonNumber::NegInt(v))
    }
}

// ---------------------------------------------------------------------------
// Values as text.

/// The pieces joined with `sep` between them.
pub open spec fn join_with(pieces: Seq<Seq<char>>, sep: Seq<char>) -> Seq<char>
    decreases pieces.len(),
{
    if pieces.len() == 0 {
        Seq::empty()
    } else if pieces.len() == 1 {
        pieces[0]
    } else {
        join_with(pieces.drop_last(), sep) + sep + pieces.last()
    }
}

/// How a value is shown for editing: strings as they are, numbers and
/// booleans as their text, arrays as their items' texts joined by `, `,
/// anything else as its JSON text.
pub open spec fn value_text(v: JsonView) -> Seq<char>
    decreases v, 0int,
{
    match v {
        JsonView::Str(s) => s,
        JsonView::Number(n) => number_text(n),
        JsonView::Bool(b) => if b { "true"@ } else { "false"@ },
        JsonView::Array(items) => items_value_text(items),
        _ => json_text(v),
    }
}

/// The items' texts joined by `, `.
pub open spec fn items_value_text(items: Seq<JsonView>) -> Seq<char>
    decreases items, 1int,
{
    if items.len() == 0 {
        Seq::empty()
    } else if items.len() == 1 {
        value_text(items[0])
    } else {
        items_value_text(items.drop_last()) + ", "@ + value_text(items.last())
    }
}

/// Appends a value's text for editing.
pub fn push_value_text(out: &mut Vec<char>, v: &JsonValue)
    ensures
        final(out)@ == old(out)@ + value_text(v@),
    decreases v,
{
    match v {
        JsonValue::Str(s) => push_str(out, s.as_str()),
        JsonValue::Number(_) => {
            let t = json_to_string(v);
            push_str(out, t.as_str());
        },
        JsonValue::Bool(b) => {
            if *b {
                push_str(out, "true");
            } else {
                push_str(out, "false");
            }
        },
        JsonValue::Array(items) => {
            let ghost start = out@;
            let mut i: usize = 0;
            while i < items.len()
                invariant
                    i <= items.len(),
                    *v == JsonValue::Array(*items),
                    out@ == start + items_value_text(items_view(items@.subrange(0, i as int))),
                decreases items.len() - i,
            {
                proof {
                    vstd::std_specs::vec::axiom_vec_decreases_to_view(*items);
                    vstd::seq::axiom_seq_index_decreases(items@, i as int);
                    assert(decreases_to!(*v => (*v)->Array_0));
                }
                if i > 0 {
                    push_str(out, ", ");
                }
                push_value_text(out, &items[i]);
                proof {
                    let pre = items@.subrange(0, i as int);
                    let post = items@.subrange(0, i + 1);
                    assert(post.drop_last() =~= pre);
                    assert(items_view(post) == items_view(pre).push(json_view(items@[i as int])));
                    lemma_items_view(pre);
                    if i == 0 {
                        assert(out@ =~= start + items_value_text(items_view(post)));
                    } else {
                        assert(items_view(post).drop_last() =~= items_view(pre));
                        assert(out@ =~= start + items_value_text(items_view(post)));
                    }
                }
                i = i + 1;
            }
            proof {
                assert(items@.subrange(0, items.len() as int) =~= items@);
            }
        },
        _ => {
            let t = json_to_string(v);
            push_str(out, t.as_str());
        },
    }
}

/// A value's text for editing.
pub fn value_to_string(v: &JsonValue) -> (r: String)
    ensures
        r@ == value_text(v@),
{
    let mut out: Vec<char> = Vec::new();
    push_value_text(&mut out, v);
    assert(out@ =~= value_text(v@));
    string_from_chars(&out)
}

/// Appends the pieces joined by `sep`.
pub fn push_joined(out: &mut Vec<char>, pieces: &Vec<String>, sep: &str)
    ensures
        final(out)@ == old(out)@ + join_with(string_views(pieces@), sep@),
{
    let ghost start = out@;
    let mut i: usize = 0;
    while i < pieces.len()
        invariant
            i <= pieces.len(),
            out@ == start + join_with(string_views(pieces@.subrange(0, i as int)), sep@),
        decreases pieces.len() - i,
    {
        if i > 0 {
            push_str(out, sep);
        }
        push_str(out, pieces[i].as_str());
        proof {
            let pre = string_views(pieces@.subrange(0, i as int));
            let post = string_views(pieces@.subrange(0, i + 1));
            assert(post =~= pre.push(pieces@[i as int]@));
            assert(post.drop_last() =~= pre);
            assert(out@ =~= start + join_with(post, sep@));
        }
        i = i + 1;
    }
    assert(pieces@.subrange(0, pieces.len() as int) =~= pieces@);
}

// ---------------------------------------------------------------------------
// Text to values.

/// The error for a field whose text is refused.
pub open spec fn coercion_error(pointer: Seq<char>, message: Seq<char>) -> CoercionErrorView {
    CoercionErrorView { pointer, message }
}

/// A string field: empty text is no value unless the field is required.
pub open spec fn string_value_spec(contents: Seq<char>, required: bool) -> Option<JsonView> {
    if contents.len() == 0 && !required {
        None
    } else {
        Some(JsonView::Str(contents))
    }
}

/// An integer field: blank text is no value; otherwise the trimmed text
/// must be an `i64`.
pub open spec fn integer_value_spec(contents: Seq<char>, pointer: Seq<char>) -> Result<Option<JsonView>, CoercionErrorView> {
    let t = trim_seq(contents);
    if t.len() == 0 {
        Ok(None)
    } else {
        match parse_i64_spec(t) {
            Some(v) => Ok(Some(JsonView::Number(number_of_i64(v)))),
            None => Err(coercion_error(pointer, "expected integer"@)),
        }
    }
}

/// A number field: blank text is no value; otherwise the trimmed text must
/// be floating-point text, which is kept as the number's text.
pub open spec fn number_value_spec(contents: Seq<char>, pointer: Seq<char>) -> Result<Option<JsonView>, CoercionErrorView> {
    let t = trim_seq(contents);
    if t.len() == 0 {
        Ok(None)
    } else if is_float_syntax(t) {
        Ok(Some(JsonView::Number(NumberView::Float(t))))
    } else {
        Err(coercion_error(pointer, "expected number"@))
    }
}

pub fn string_value(contents: &str, required: bool) -> (r: Option<JsonValue>)
    ensures
        match r {
            Some(v) => string_value_spec(contents@, required) == Some(v@),
            None => string_value_spec(contents@, required) is None,
        },
{
    if contents.is_empty() && !required {
        None
    } else {
        Some(JsonValue::Str(contents.to_string()))
    }
}

pub fn integer_value(contents: &str, pointer: &str) -> (r: Result<Option<JsonValue>, FieldCoercionError>)
    ensures
        match (r, integer_value_spec(contents@, pointer@)) {
            (Ok(Some(v)), Ok(Some(w))) => v@ == w,
            (Ok(None), Ok(None)) => true,
            (Err(e), Err(w)) => e@ == w,
            _ => false,
        },
{
    let t = trim_chars(&chars_of(contents));
    if t.len() == 0 {
        return Ok(None);
    }
    let ts = string_from_chars(&t);
    match parse_i64(ts.as_str()) {
        Some(v) => Ok(Some(json_from_i64(v))),
        None => Err(FieldCoercionError { pointer: pointer.to_string(), message: "expected integer".to_string() }),
    }
}

pub fn number_value(contents: &str, pointer: &str) -> (r: Result<Option<JsonValue>, FieldCoercionError>)
    ensures
        match (r, number_value_spec(contents@, pointer@)) {
            (Ok(Some(v)), Ok(Some(w))) => v@ == w,
            (Ok(None), Ok(None)) => true,
            (Err(e), Err(w)) => e@ == w,
            _ => false,
        },
{
    let t = trim_chars(&chars_of(contents));
    if t.len() == 0 {
        return Ok(None);
    }
    let ts = string_from_chars(&t);
    if is_float_text(ts.as_str()) {
        Ok(Some(JsonValue::Number(JsonNumber::Float(ts))))
    } else {
        Err(FieldCoercionError { pointer: pointer.to_string(), message: "expected number".to_string() })
    }
}


/// `str::split(',')`: the pieces between commas, empty ones included.
pub open spec fn split_commas(s: Seq<char>) -> Seq<Seq<char>>
    decreases s.len(),
{
    if s.len() == 0 {
        seq![Seq::<char>::empty()]
    } else {
        let parts = split_commas(s.drop_last());
        if s.last() == ',' {
            parts.push(Seq::empty())
        } else {
            parts.update(parts.len() - 1, parts.last().push(s.last()))
        }
    }
}

proof fn lemma_split_nonempty(s: Seq<char>)
    ensures
        split_commas(s).len() >= 1,
    decreases s.len(),
{
    if s.len() > 0 {
        lemma_split_nonempty(s.drop_last());
    }
}

/// The pieces of text between commas.
pub fn split_commas_exec(s: &Vec<char>) -> (r: Vec<Vec<char>>)
    ensures
        r@.map_values(|p: Vec<char>| p@) == split_commas(s@),
{
    let mut parts: Vec<Vec<char>> = Vec::new();
    let mut cur: Vec<char> = Vec::new();
    let mut i: usize = 0;
    assert(s@.subrange(0, 0) =~= Seq::<char>::empty());
    assert(parts@.map_values(|p: Vec<char>| p@).push(cur@) =~= split_commas(s@.subrange(0, 0)));
    while i < s.len()
        invariant
            i <= s.len(),
            parts@.map_values(|p: Vec<char>| p@).push(cur@) == split_commas(s@.subrange(0, i as int)),
        decreases s.len() - i,
    {
        let ghost pre = s@.subrange(0, i as int);
        let ghost post = s@.subrange(0, i + 1);
        assert(post.drop_last() =~= pre);
        assert(post.last() == s@[i as int]);
        proof {
            lemma_split_nonempty(pre);
        }
        if s[i] == ',' {
            let done = cur;
            parts.push(done);
            cur = Vec::new();
            assert(parts@.map_values(|p: Vec<char>| p@).push(cur@) =~= split_commas(post));
        } else {
            let ghost before = cur@;
            cur.push(s[i]);
            assert(parts@.map_values(|p: Vec<char>| p@).push(cur@) =~= split_commas(post));
        }
        i = i + 1;
    }
    parts.push(cur);
    assert(s@.subrange(0, s.len() as int) =~= s@);
    parts
}

/// One item of an array field, read as the item kind.
pub open spec fn convert_item(item: Seq<char>, inner: KindView, pointer: Seq<char>) -> Result<JsonView, CoercionErrorView> {
    match inner {
        KindView::String => Ok(JsonView::Str(item)),
        KindView::Integer => match parse_i64_spec(item) {
            Some(v) => Ok(JsonView::Number(number_of_i64(v))),
            None => Err(coercion_error(pointer, "'"@ + item + "' is not a valid integer"@)),
        },
        KindView::Number => if is_float_syntax(item) {
            Ok(JsonView::Number(NumberView::Float(item)))
        } else {
            Err(coercion_error(pointer, "'"@ + item + "' is not a valid number"@))
        },
        KindView::Boolean => if lower_seq(item) == "true"@ {
            Ok(JsonView::Bool(true))
        } else if lower_seq(item) == "false"@ {
            Ok(JsonView::Bool(false))
        } else {
            Err(coercion_error(pointer, "'"@ + item + "' is not a valid boolean"@))
        },
        KindView::Enum(options) => if options.contains(item) {
            Ok(JsonView::Str(item))
        } else {
            Err(coercion_error(pointer, "value '"@ + item + "' is not one of: "@ + join_with(options, ", "@)))
        },
        KindView::Json => Ok(JsonView::Str(item)),
        KindView::Composite(_, _) => Ok(JsonView::Str(item)),
        KindView::KeyValue(_, _) => Ok(JsonView::Str(item)),
        KindView::Array(_) => Err(coercion_error(pointer, "nested arrays are not supported"@)),
    }
}

/// The items of an array field, trimmed, skipping blank ones; the first
/// item that cannot be read fails the whole field.
pub open spec fn array_items(parts: Seq<Seq<char>>, inner: KindView, pointer: Seq<char>) -> Result<Seq<JsonView>, CoercionErrorView>
    decreases parts.len(),
{
    if parts.len() == 0 {
        Ok(Seq::empty())
    } else {
        match array_items(parts.drop_last(), inner, pointer) {
            Err(e) => Err(e),
            Ok(vals) => {
                let item = trim_seq(parts.last());
                if item.len() == 0 {
                    Ok(vals)
                } else {
                    match convert_item(item, inner, pointer) {
                        Err(e) => Err(e),
                        Ok(v) => Ok(vals.push(v)),
                    }
                }
            },
        }
    }
}

/// An array field typed as comma-separated items: blank text is an empty
/// array when the field is required and no value otherwise.
pub open spec fn array_value_spec(contents: Seq<char>, inner: KindView, required: bool, pointer: Seq<char>) -> Result<Option<JsonView>, CoercionErrorView> {
    if trim_seq(contents).len() == 0 {
        if required {
            Ok(Some(JsonView::Array(Seq::empty())))
        } else {
            Ok(None)
        }
    } else {
        match array_items(split_commas(contents), inner, pointer) {
            Ok(vals) => Ok(Some(JsonView::Array(vals))),
            Err(e) => Err(e),
        }
    }
}

proof fn lemma_array_items_err(parts: Seq<Seq<char>>, i: int, inner: KindView, pointer: Seq<char>)
    requires
        0 <= i <= parts.len(),
        array_items(parts.subrange(0, i), inner, pointer) is Err,
    ensures
        array_items(parts, inner, pointer) == array_items(parts.subrange(0, i), inner, pointer),
    decreases parts.len() - i,
{
    if i < parts.len() {
        assert(parts.subrange(0, i + 1).drop_last() =~= parts.subrange(0, i));
        lemma_array_items_err(parts, i + 1, inner, pointer);
    } else {
        assert(parts.subrange(0, i) =~= parts);
    }
}

fn item_error(pointer: &str, before: &str, item: &Vec<char>, after: &str) -> (r: FieldCoercionError)
    ensures
        r@ == coercion_error(pointer@, before@ + item@ + after@),
{
    let mut msg: Vec<char> = Vec::new();
    push_str(&mut msg, before);
    push_all(&mut msg, item);
    push_str(&mut msg, after);
    assert(msg@ =~= before@ + item@ + after@);
    FieldCoercionError { pointer: pointer.to_string(), message: string_from_chars(&msg) }
}

fn contains_chars(options: &Vec<String>, item: &Vec<char>) -> (r: bool)
    ensures
        r == string_views(options@).contains(item@),
{
    let mut i: usize = 0;
    while i < options.len()
        invariant
            i <= options.len(),
            forall|j: int| 0 <= j < i ==> string_views(options@)[j] != item@,
        decreases options.len() - i,
    {
        if chars_equal(&chars_of(options[i].as_str()), item) {
            assert(string_views(options@)[i as int] == item@);
            return true;
        }
        i = i + 1;
    }
    false
}

/// Reads one item of an array field.
pub fn convert_item_exec(item: &Vec<char>, inner: &FieldKind, pointer: &str) -> (r: Result<JsonValue, FieldCoercionError>)
    ensures
        match (r, convert_item(item@, inner@, pointer@)) {
            (Ok(v), Ok(w)) => v@ == w,
            (Err(e), Err(w)) => e@ == w,
            _ => false,
        },
{
    let text = string_from_chars(item);
    match inner {
        FieldKind::String => Ok(JsonValue::Str(text)),
        FieldKind::Json => Ok(JsonValue::Str(text)),
        FieldKind::Composite(_) => Ok(JsonValue::Str(text)),
        FieldKind::KeyValue(_, _) => Ok(JsonValue::Str(text)),
        FieldKind::Integer => match parse_i64(text.as_str()) {
            Some(v) => Ok(json_from_i64(v)),
            None => Err(item_error(pointer, "'", item, "' is not a valid integer")),
        },
        FieldKind::Number => {
            if is_float_text(text.as_str()) {
                Ok(JsonValue::Number(JsonNumber::Float(text)))
            } else {
                Err(item_error(pointer, "'", item, "' is not a valid number"))
            }
        },
        FieldKind::Boolean => {
            let l = lower_chars(item);
            if chars_equal(&l, &chars_of("true")) {
                Ok(JsonValue::Bool(true))
            } else if chars_equal(&l, &chars_of("false")) {
                Ok(JsonValue::Bool(false))
            } else {
                Err(item_error(pointer, "'", item, "' is not a valid boolean"))
            }
        },
        FieldKind::Enum(options) => {
            if contains_chars(options, item) {
                Ok(JsonValue::Str(text))
            } else {
                let mut msg: Vec<char> = Vec::new();
                push_str(&mut msg, "value '");
                push_all(&mut msg, item);
                push_str(&mut msg, "' is not one of: ");
                push_joined(&mut msg, options, ", ");
                assert(msg@ =~= "value '"@ + item@ + "' is not one of: "@ + join_with(string_views(options@), ", "@));
                Err(FieldCoercionError { pointer: pointer.to_string(), message: string_from_chars(&msg) })
            }
        },
        FieldKind::Array(_) => Err(FieldCoercionError {
            pointer: pointer.to_string(),
            message: "nested arrays are not supported".to_string(),
        }),
    }
}

/// Reads an array field typed as comma-separated items.
pub fn array_value(contents: &str, inner: &FieldKind, required: bool, pointer: &str) -> (r: Result<Option<JsonValue>, FieldCoercionError>)
    ensures
        match (r, array_value_spec(contents@, inner@, required, pointer@)) {
            (Ok(Some(v)), Ok(Some(w))) => v@ == w,
            (Ok(None), Ok(None)) => true,
            (Err(e), Err(w)) => e@ == w,
            _ => false,
        },
{
    let cs = chars_of(contents);
    let t = trim_chars(&cs);
    if t.len() == 0 {
        if required {
            let empty: Vec<JsonValue> = Vec::new();
            assert(items_view(empty@) =~= Seq::<JsonView>::empty());
            return Ok(Some(JsonValue::Array(empty)));
        }
        return Ok(None);
    }
    let parts = split_commas_exec(&cs);
    let ghost pv = parts@.map_values(|p: Vec<char>| p@);
    let mut values: Vec<JsonValue> = Vec::new();
    let mut i: usize = 0;
    assert(pv.subrange(0, 0) =~= Seq::<Seq<char>>::empty());
    assert(items_view(values@) =~= Seq::<JsonView>::empty());
    while i < parts.len()
        invariant
            i <= parts.len(),
            pv == parts@.map_values(|p: Vec<char>| p@),
            pv == split_commas(contents@),
            trim_seq(contents@).len() != 0,
            array_items(pv.subrange(0, i as int), inner@, pointer@) == Ok::<Seq<JsonView>, CoercionErrorView>(items_view(values@)),
        decreases parts.len() - i,
    {
        let ghost pre = pv.subrange(0, i as int);
        let ghost post = pv.subrange(0, i + 1);
        assert(post.drop_last() =~= pre);
        assert(post.last() == parts@[i as int]@);
        let item = trim_chars(&parts[i]);
        if item.len() > 0 {
            match convert_item_exec(&item, inner, pointer) {
                Ok(v) => {
                    let ghost before = values@;
                    values.push(v);
                    assert(values@.drop_last() =~= before);
                },
                Err(e) => {
                    proof {
                        lemma_array_items_err(pv, i + 1, inner@, pointer@);
                        assert(pv.subrange(0, pv.len() as int) =~= pv);
                    }
                    return Err(e);
                },
            }
        }
        i = i + 1;
    }
    assert(pv.subrange(0, parts.len() as int) =~= pv);
    Ok(Some(JsonValue::Array(values)))
}

/// A boolean array item reads as the boolean its text names, in any
/// ASCII case: `false` as false and `true` as true.
pub proof fn lemma_boolean_item(item: Seq<char>, pointer: Seq<char>)
    requires
        lower_seq(item) == "true"@ || lower_seq(item) == "false"@,
    ensures
        convert_item(item, KindView::Boolean, pointer) == Ok::<JsonView, CoercionErrorView>(
            JsonView::Bool(lower_seq(item) == "true"@),
        ),
{
    reveal_strlit("true");
    reveal_strlit("false");
    assert("true"@ != "false"@) by {
        assert("true"@.len() != "false"@.len());
    }
}

/// The items of a boolean array field, each `true` or `false` in any case
/// (blank pieces skipped), read as the booleans they name, in order.
pub proof fn lemma_boolean_items(parts: Seq<Seq<char>>, pointer: Seq<char>)
    requires
        forall|i: int| 0 <= i < parts.len() ==> {
            let t = lower_seq(trim_seq(#[trigger] parts[i]));
            t == "true"@ || t == "false"@ || trim_seq(parts[i]).len() == 0
        },
    ensures
        array_items(parts, KindView::Boolean, pointer) == Ok::<Seq<JsonView>, CoercionErrorView>(
            boolean_texts(parts),
        ),
    decreases parts.len(),
{
    if parts.len() > 0 {
        let front = parts.drop_last();
        assert forall|i: int| 0 <= i < front.len() implies {
            let t = lower_seq(trim_seq(#[trigger] front[i]));
            t == "true"@ || t == "false"@ || trim_seq(front[i]).len() == 0
        } by {
            assert(front[i] == parts[i]);
        }
        lemma_boolean_items(front, pointer);
        let item = trim_seq(parts.last());
        if item.len() > 0 {
            assert(lower_seq(item).len() == item.len());
            lemma_boolean_item(item, pointer);
        }
    }
}

/// The booleans the non-blank pieces name: true exactly for `true` in any
/// ASCII case.
pub open spec fn boolean_texts(parts: Seq<Seq<char>>) -> Seq<JsonView>
    decreases parts.len(),
{
    if parts.len() == 0 {
        Seq::empty()
    } else {
        let front = boolean_texts(parts.drop_last());
        let item = trim_seq(parts.last());
        if item.len() == 0 {
            front
        } else {
            front.push(JsonView::Bool(lower_seq(item) == "true"@))
        }
    }
}

/// An integer array item written as an `i64` in decimal reads as that
/// integer.
pub proof fn lemma_integer_item(v: i64, pointer: Seq<char>)
    ensures
        convert_item(crate::numbers::signed_decimal(v as int), KindView::Integer, pointer) == Ok::<JsonView, CoercionErrorView>(
            JsonView::Number(number_of_i64(v)),
        ),
{
    crate::numbers::lemma_i64_text_round_trip(v);
}

/// A string array item reads as itself, and an enum array item reads as
/// itself exactly when it is one of the options.
pub proof fn lemma_text_items(item: Seq<char>, options: Seq<Seq<char>>, pointer: Seq<char>)
    ensures
        convert_item(item, KindView::String, pointer) == Ok::<JsonView, CoercionErrorView>(JsonView::Str(item)),
        convert_item(item, KindView::Enum(options), pointer) is Ok <==> options.contains(item),
        convert_item(item, KindView::Enum(options), pointer) is Ok ==> convert_item(item, KindView::Enum(options), pointer)
            == Ok::<JsonView, CoercionErrorView>(JsonView::Str(item)),
{
}

} // verus!

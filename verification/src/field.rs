//! The editing state of one form field: what has been typed or chosen, and
//! how key presses change it.

use vstd::prelude::*;
use crate::coerce::{
    array_value, array_value_spec, coercion_error, integer_value, integer_value_spec, items_value_text,
    join_with, number_value, number_value_spec, push_joined, push_value_text, string_value,
    string_value_spec, value_text, value_to_string, CoercionErrorView, FieldCoercionError,
};
use crate::keyvalue::{
    initial_map, map_added, map_display, map_moved, map_removed, map_selected, map_value, seeded_map, MapState, MapView,
};
use crate::keys::AppCommand;
use crate::choice::{choice_display, choice_value, initial_choice, seeded_choice, single_flags, ChoiceView, CompositeChoice};
use crate::json::{items_view, json_view, lemma_items_view, JsonValue, JsonView};
use crate::keys::{KeyCode, KeyEvent};
use crate::label::{trim_chars, trim_end_seq, trim_seq, trim_start_seq};
use crate::numbers::{i64_to_string, parse_i64, parse_i64_spec, signed_decimal};
use crate::schema::{
    clone_kind, first_index, kind_view, lemma_first_index, string_items, FieldKind, FieldSchema, FieldView,
    KindView,
};
use crate::text::{
    decimal, chars_equal, chars_of, clone_strings, push_all, push_str, str_equal, string_from_chars, string_views,
};

verus! {

/// What a field holds while it is edited.
#[derive(Debug)]
pub enum FieldValue {
    Text(String),
    Bool(bool),
    Enum { options: Vec<String>, selected: usize },
    MultiSelect { options: Vec<String>, selected: Vec<bool> },
    Array(String),
    Composite(CompositeChoice),
    KeyValue(MapState),
}

/// The view of a field's value.
pub enum ValueView {
    Text(Seq<char>),
    Bool(bool),
    Enum(Seq<Seq<char>>, int),
    Multi(Seq<Seq<char>>, Seq<bool>),
    Array(Seq<char>),
    Composite(ChoiceView),
    KeyValue(MapView),
}

pub open spec fn value_view(v: FieldValue) -> ValueView {
    match v {
        FieldValue::Text(t) => ValueView::Text(t@),
        FieldValue::Bool(b) => ValueView::Bool(b),
        FieldValue::Enum { options, selected } => ValueView::Enum(string_views(options@), selected as int),
        FieldValue::MultiSelect { options, selected } => ValueView::Multi(string_views(options@), selected@),
        FieldValue::Array(t) => ValueView::Array(t@),
        FieldValue::Composite(c) => ValueView::Composite(c@),
        FieldValue::KeyValue(m) => ValueView::KeyValue(m@),
    }
}

impl View for FieldValue {
    type V = ValueView;

    open spec fn view(&self) -> ValueView {
        value_view(*self)
    }
}

/// A field of the form with its editing state.
#[derive(Debug)]
pub struct FieldState {
    pub schema: FieldSchema,
    pub value: FieldValue,
    pub dirty: bool,
    pub error: Option<String>,
}

/// The view of a field's editing state.
pub struct FieldStateView {
    pub schema: FieldView,
    pub value: ValueView,
    pub dirty: bool,
    pub error: Option<Seq<char>>,
}

impl View for FieldState {
    type V = FieldStateView;

    open spec fn view(&self) -> FieldStateView {
        FieldStateView {
            schema: self.schema@,
            value: self.value@,
            dirty: self.dirty,
            error: match self.error {
                Some(e) => Some(e@),
                None => None,
            },
        }
    }
}

/// What a key press did to a field.
#[derive(Debug, Clone, Copy, PartialEq, Eq, Structural)]
pub enum KeyHandling {
    /// The key means nothing to this field.
    Ignored,
    /// The field consumed the key.
    Handled,
    /// The key asks to step a floating-point number by the delta; the new
    /// text is computed by the caller and given to `finish_number_step`.
    NumberStep(i64),
}

// ---------------------------------------------------------------------------
// The initial value.

/// The text a default value is edited as; empty without a default.
pub open spec fn default_text(schema: FieldView) -> Seq<char> {
    match schema.default {
        Some(v) => value_text(v),
        None => Seq::empty(),
    }
}

pub open spec fn first_or_empty(options: Seq<Seq<char>>) -> Seq<char> {
    if options.len() > 0 {
        options[0]
    } else {
        Seq::empty()
    }
}

/// The option an enum field starts on: the default's text when it is not
/// empty, otherwise the first option; an unknown text selects the first.
pub open spec fn enum_start(schema: FieldView, options: Seq<Seq<char>>) -> int {
    let wanted = match schema.default {
        Some(v) => if value_text(v).len() == 0 {
            first_or_empty(options)
        } else {
            value_text(v)
        },
        None => first_or_empty(options),
    };
    let i = first_index(options, wanted);
    if i >= 0 {
        i
    } else {
        0
    }
}

/// The strings of an array default.
pub open spec fn default_strings(schema: FieldView) -> Seq<Seq<char>> {
    match schema.default {
        Some(JsonView::Array(items)) => string_items(items),
        _ => Seq::empty(),
    }
}

/// One toggle per option: on when the option is among `picked`.
pub open spec fn toggles_for(options: Seq<Seq<char>>, picked: Seq<Seq<char>>) -> Seq<bool> {
    Seq::new(options.len(), |i: int| picked.contains(options[i]))
}

/// String values of the texts, in order.
pub open spec fn str_values(s: Seq<Seq<char>>) -> Seq<JsonView> {
    s.map_values(|x: Seq<char>| JsonView::Str(x))
}

/// The text of an array default: its items joined by `, `.
pub open spec fn default_array_text(schema: FieldView) -> Seq<char> {
    match schema.default {
        Some(JsonView::Array(items)) => items_value_text(items),
        _ => Seq::empty(),
    }
}

/// The value a field starts with, by kind: text kinds edit the default's
/// text, booleans start on the default or `false`, enums on the default's
/// option, arrays of enums as toggles of the default's strings, other
/// arrays as the default's items joined by `, `.
pub open spec fn initial_value(schema: FieldView) -> ValueView {
    match schema.kind {
        KindView::Boolean => ValueView::Bool(
            match schema.default {
                Some(JsonView::Bool(b)) => b,
                _ => false,
            },
        ),
        KindView::Enum(options) => ValueView::Enum(options, enum_start(schema, options)),
        KindView::Array(inner) => match *inner {
            KindView::Enum(options) => ValueView::Multi(options, toggles_for(options, default_strings(schema))),
            _ => ValueView::Array(default_array_text(schema)),
        },
        KindView::Composite(multi, vs) => ValueView::Composite(initial_choice(multi, vs)),
        KindView::KeyValue(_, _) => ValueView::KeyValue(initial_map(schema.default)),
        _ => ValueView::Text(default_text(schema)),
    }
}

fn default_text_exec(schema: &FieldSchema) -> (r: String)
    ensures
        r@ == default_text(schema@),
{
    match &schema.default {
        Some(v) => value_to_string(v),
        None => String::new(),
    }
}

pub(crate) fn position_of(options: &Vec<String>, wanted: &str) -> (r: Option<usize>)
    ensures
        match r {
            Some(k) => k == first_index(string_views(options@), wanted@),
            None => first_index(string_views(options@), wanted@) < 0,
        },
{
    let ghost ids = string_views(options@);
    proof {
        lemma_first_index(ids, wanted@);
    }
    let mut i: usize = 0;
    while i < options.len()
        invariant
            i <= options.len(),
            ids == string_views(options@),
            forall|j: int| 0 <= j < i ==> #[trigger] ids[j] != wanted@,
            -1 <= first_index(ids, wanted@) < ids.len(),
            first_index(ids, wanted@) >= 0 ==> ids[first_index(ids, wanted@)] == wanted@,
            forall|j: int|
                0 <= j < ids.len() && (first_index(ids, wanted@) < 0 || j < first_index(ids, wanted@))
                    ==> #[trigger] ids[j] != wanted@,
        decreases options.len() - i,
    {
        if str_equal(options[i].as_str(), wanted) {
            assert(ids[i as int] == wanted@);
            let ghost f = first_index(ids, wanted@);
            assert(f == i) by {
                if f >= 0 && f < i {
                    assert(ids[f] != wanted@);
                }
            }
            return Some(i);
        }
        assert(ids[i as int] != wanted@);
        i = i + 1;
    }
    None
}

fn default_string_list(schema: &FieldSchema) -> (r: Vec<String>)
    ensures
        string_views(r@) == default_strings(schema@),
{
    let mut out: Vec<String> = Vec::new();
    match &schema.default {
        Some(JsonValue::Array(items)) => {
            let mut i: usize = 0;
            proof {
                lemma_items_view(items@);
            }
            while i < items.len()
                invariant
                    i <= items.len(),
                    items_view(items@).len() == items@.len(),
                    forall|j: int| 0 <= j < items@.len() ==> #[trigger] items_view(items@)[j] == json_view(items@[j]),
                    string_views(out@) == string_items(items_view(items@).subrange(0, i as int)),
                decreases items.len() - i,
            {
                let ghost pre = items_view(items@).subrange(0, i as int);
                let ghost post = items_view(items@).subrange(0, i + 1);
                assert(post.drop_last() =~= pre);
                assert(post.last() == json_view(items@[i as int]));
                match &items[i] {
                    JsonValue::Str(s) => {
                        let ghost before = out@;
                        out.push(s.clone());
                        assert(string_views(out@) =~= string_views(before).push(s@));
                    },
                    _ => {},
                }
                i = i + 1;
            }
            proof {
                assert(items_view(items@).subrange(0, items@.len() as int) =~= items_view(items@));
            }
        },
        _ => {},
    }
    out
}

pub(crate) fn contains_string(v: &Vec<String>, s: &str) -> (r: bool)
    ensures
        r == string_views(v@).contains(s@),
{
    let mut i: usize = 0;
    while i < v.len()
        invariant
            i <= v.len(),
            forall|j: int| 0 <= j < i ==> string_views(v@)[j] != s@,
        decreases v.len() - i,
    {
        if str_equal(v[i].as_str(), s) {
            assert(string_views(v@)[i as int] == s@);
            return true;
        }
        i = i + 1;
    }
    false
}

fn initial_value_exec(schema: &FieldSchema) -> (r: FieldValue)
    ensures
        r@ == initial_value(schema@),
{
    match &schema.kind {
        FieldKind::Boolean => {
            let b = match &schema.default {
                Some(JsonValue::Bool(b)) => *b,
                _ => false,
            };
            FieldValue::Bool(b)
        },
        FieldKind::Enum(options) => {
            let wanted = match &schema.default {
                Some(v) => {
                    let t = value_to_string(v);
                    if t.as_str().is_empty() {
                        if options.len() > 0 {
                            options[0].clone()
                        } else {
                            String::new()
                        }
                    } else {
                        t
                    }
                },
                None => {
                    if options.len() > 0 {
                        options[0].clone()
                    } else {
                        String::new()
                    }
                },
            };
            let selected = match position_of(options, wanted.as_str()) {
                Some(k) => k,
                None => 0,
            };
            FieldValue::Enum { options: clone_strings(options), selected }
        },
        FieldKind::Array(inner) => {
            match &**inner {
                FieldKind::Enum(options) => {
                    let defaults = default_string_list(schema);
                    let mut flags: Vec<bool> = Vec::new();
                    let mut i: usize = 0;
                    while i < options.len()
                        invariant
                            i <= options.len(),
                            string_views(defaults@) == default_strings(schema@),
                            flags@.len() == i,
                            forall|j: int| 0 <= j < i ==> flags@[j] == default_strings(schema@).contains(string_views(options@)[j]),
                        decreases options.len() - i,
                    {
                        let hit = contains_string(&defaults, options[i].as_str());
                        assert(string_views(options@)[i as int] == options@[i as int]@);
                        flags.push(hit);
                        i = i + 1;
                    }
                    let r = FieldValue::MultiSelect { options: clone_strings(options), selected: flags };
                    assert(r@ == initial_value(schema@)) by {
                        let o = string_views(options@);
                        assert(flags@ =~= toggles_for(o, default_strings(schema@)));
                        assert(kind_view(**inner) == KindView::Enum(o));
                        assert(schema@.kind == KindView::Array(Box::new(KindView::Enum(o))));
                    }
                    r
                },
                _ => {
                    let text = match &schema.default {
                        Some(JsonValue::Array(_)) => {
                            match &schema.default {
                                Some(v) => value_to_string(v),
                                None => String::new(),
                            }
                        },
                        _ => String::new(),
                    };
                    FieldValue::Array(text)
                },
            }
        },
        FieldKind::Composite(c) => FieldValue::Composite(CompositeChoice::initial(c)),
        FieldKind::KeyValue(_, _) => FieldValue::KeyValue(MapState::initial(&schema.default)),
        _ => FieldValue::Text(default_text_exec(schema)),
    }
}

// ---------------------------------------------------------------------------
// Keys.

/// The editing state after an edit: the value replaced, the field marked
/// dirty and its error cleared.
pub open spec fn edited(st: FieldStateView, v: ValueView) -> FieldStateView {
    FieldStateView { value: v, dirty: true, error: None, ..st }
}

/// The text with its last character removed, if any (`String::pop`).
pub open spec fn popped(s: Seq<char>) -> Seq<char> {
    if s.len() > 0 {
        s.drop_last()
    } else {
        s
    }
}

/// `i64::saturating_add`.
pub open spec fn saturating(v: int) -> i64 {
    if v > i64::MAX {
        i64::MAX
    } else if v < i64::MIN {
        i64::MIN
    } else {
        v as i64
    }
}

/// An integer field's text stepped by `delta`: the trimmed text read as an
/// integer (zero when it is not one), moved by `delta` without overflowing.
pub open spec fn int_step(buf: Seq<char>, delta: i64) -> Seq<char> {
    let current: int = match parse_i64_spec(trim_seq(buf)) {
        Some(v) => v as int,
        None => 0,
    };
    signed_decimal(saturating(current + delta) as int)
}

/// The number a buffer holds for stepping: its trimmed text read as an
/// integer, or zero.
pub open spec fn step_base(buf: Seq<char>) -> int {
    match parse_i64_spec(trim_seq(buf)) {
        Some(v) => v as int,
        None => 0,
    }
}

/// Number text has no white space to trim.
proof fn lemma_number_text_trimmed(v: int)
    requires
        i64::MIN <= v <= i64::MAX,
    ensures
        trim_seq(signed_decimal(v)) == signed_decimal(v),
{
    let t = signed_decimal(v);
    let n: nat = if v < 0 { (-v) as nat } else { v as nat };
    crate::numbers::lemma_decimal_reads_back(n);
    let d = decimal(n);
    assert(crate::numbers::is_digit(d[d.len() - 1]));
    assert(t.last() == d[d.len() - 1]);
    if v < 0 {
        assert(t[0] == '-');
    } else {
        assert(crate::numbers::is_digit(d[0]));
    }
    assert(trim_start_seq(t) == t);
    assert(trim_end_seq(t) == t);
}

/// Stepping an integer field up and then down shows its number again,
/// unless the step up had nowhere to go.
pub proof fn lemma_int_step_undo(buf: Seq<char>)
    requires
        step_base(buf) < i64::MAX,
    ensures
        int_step(int_step(buf, 1i64), -1i64) == signed_decimal(step_base(buf)),
{
    let up = step_base(buf) + 1;
    lemma_number_text_trimmed(up);
    crate::numbers::lemma_i64_text_round_trip(up as i64);
}

/// Stepping an integer field down and then up shows its number again,
/// unless the step down had nowhere to go.
pub proof fn lemma_int_step_redo(buf: Seq<char>)
    requires
        step_base(buf) > i64::MIN,
    ensures
        int_step(int_step(buf, -1i64), 1i64) == signed_decimal(step_base(buf)),
{
    let down = step_base(buf) - 1;
    lemma_number_text_trimmed(down);
    crate::numbers::lemma_i64_text_round_trip(down as i64);
}

/// What a key does to a text buffer that accepts typing.
pub open spec fn typing(st: FieldStateView, buf: Seq<char>, key: KeyEvent, array: bool) -> (FieldStateView, KeyHandling) {
    let wrap = |t: Seq<char>| if array { ValueView::Array(t) } else { ValueView::Text(t) };
    match key.code {
        KeyCode::Char(c) => if key.modifiers.control {
            (st, KeyHandling::Ignored)
        } else {
            (edited(st, wrap(buf.push(c))), KeyHandling::Handled)
        },
        KeyCode::Backspace => (edited(st, wrap(popped(buf))), KeyHandling::Handled),
        KeyCode::Delete => (edited(st, wrap(Seq::empty())), KeyHandling::Handled),
        _ => (st, KeyHandling::Ignored),
    }
}

/// How a key press changes a field, and whether it was consumed.
pub open spec fn key_effect(st: FieldStateView, key: KeyEvent) -> (FieldStateView, KeyHandling) {
    match st.value {
        ValueView::Text(buf) => match key.code {
            KeyCode::Left => if st.schema.kind is Integer {
                (edited(st, ValueView::Text(int_step(buf, -1i64))), KeyHandling::Handled)
            } else if st.schema.kind is Number {
                (st, KeyHandling::NumberStep(-1i64))
            } else {
                (st, KeyHandling::Ignored)
            },
            KeyCode::Right => if st.schema.kind is Integer {
                (edited(st, ValueView::Text(int_step(buf, 1i64))), KeyHandling::Handled)
            } else if st.schema.kind is Number {
                (st, KeyHandling::NumberStep(1i64))
            } else {
                (st, KeyHandling::Ignored)
            },
            _ => typing(st, buf, key, false),
        },
        ValueView::Array(buf) => typing(st, buf, key, true),
        ValueView::Composite(_) => (st, KeyHandling::Ignored),
        ValueView::KeyValue(_) => (st, KeyHandling::Ignored),
        ValueView::Bool(b) => match key.code {
            KeyCode::Char(c) => if c == ' ' {
                (edited(st, ValueView::Bool(!b)), KeyHandling::Handled)
            } else {
                (st, KeyHandling::Ignored)
            },
            KeyCode::Left | KeyCode::Right => (edited(st, ValueView::Bool(!b)), KeyHandling::Handled),
            _ => (st, KeyHandling::Ignored),
        },
        ValueView::Enum(options, sel) => match key.code {
            KeyCode::Up | KeyCode::Left => (
                edited(
                    st,
                    ValueView::Enum(
                        options,
                        if sel == 0 {
                            if options.len() > 0 {
                                options.len() - 1
                            } else {
                                0
                            }
                        } else {
                            sel - 1
                        },
                    ),
                ),
                KeyHandling::Handled,
            ),
            KeyCode::Down | KeyCode::Right => (
                edited(
                    st,
                    ValueView::Enum(
                        options,
                        if options.len() > 0 {
                            (sel + 1) % (options.len() as int)
                        } else {
                            sel
                        },
                    ),
                ),
                KeyHandling::Handled,
            ),
            _ => (st, KeyHandling::Ignored),
        },
        ValueView::Multi(_, _) => (st, KeyHandling::Ignored),
    }
}

pub(crate) fn int_step_exec(buffer: &String, delta: i64) -> (r: String)
    ensures
        r@ == int_step(buffer@, delta),
{
    let t = trim_chars(&chars_of(buffer.as_str()));
    let ts = string_from_chars(&t);
    let current: i64 = match parse_i64(ts.as_str()) {
        Some(v) => v,
        None => 0,
    };
    let next: i64 = if delta > 0 && current > i64::MAX - delta {
        i64::MAX
    } else if delta < 0 && current < i64::MIN - delta {
        i64::MIN
    } else {
        current + delta
    };
    i64_to_string(next)
}

pub(crate) fn pushed(buffer: &String, c: char) -> (r: String)
    ensures
        r@ == buffer@.push(c),
{
    let mut cs = chars_of(buffer.as_str());
    cs.push(c);
    string_from_chars(&cs)
}

pub(crate) fn popped_exec(buffer: &String) -> (r: String)
    ensures
        r@ == popped(buffer@),
{
    let mut cs = chars_of(buffer.as_str());
    if cs.len() > 0 {
        cs.pop();
    }
    string_from_chars(&cs)
}

/// The characters picked out by the toggles, in order; options without a
/// toggle are left out.
pub open spec fn chosen_upto(options: Seq<Seq<char>>, flags: Seq<bool>, n: int) -> Seq<Seq<char>>
    decreases n,
{
    if n <= 0 {
        Seq::empty()
    } else {
        let r = chosen_upto(options, flags, n - 1);
        if flags[n - 1] {
            r.push(options[n - 1])
        } else {
            r
        }
    }
}

pub open spec fn chosen(options: Seq<Seq<char>>, flags: Seq<bool>) -> Seq<Seq<char>> {
    chosen_upto(options, flags, if options.len() < flags.len() { options.len() as int } else { flags.len() as int })
}

/// A collection command's effect on a field: on a map, adding, removing
/// and moving entries edit it and selecting moves the selection; anything
/// else is left as it is.
pub open spec fn map_command_effect(f: FieldStateView, c: AppCommand) -> FieldStateView {
    match f.value {
        ValueView::KeyValue(m) => match c {
            AppCommand::ListAddEntry => edited(f, ValueView::KeyValue(map_added(m))),
            AppCommand::ListRemoveEntry => edited(f, ValueView::KeyValue(map_removed(m))),
            AppCommand::ListMove(d) => edited(f, ValueView::KeyValue(map_moved(m, d as int))),
            AppCommand::ListSelect(d) => FieldStateView { value: ValueView::KeyValue(map_selected(m, d as int)), ..f },
            _ => f,
        },
        _ => f,
    }
}

/// How a field's value is shown.
pub open spec fn display_spec(v: ValueView) -> Seq<char> {
    match v {
        ValueView::Text(t) => t,
        ValueView::Bool(b) => if b { "true"@ } else { "false"@ },
        ValueView::Enum(options, sel) => if 0 <= sel < options.len() {
            options[sel]
        } else {
            "<none>"@
        },
        ValueView::Multi(options, flags) => {
            let c = chosen(options, flags);
            if c.len() == 0 {
                "[]"@
            } else {
                "["@ + join_with(c, ", "@) + "]"@
            }
        },
        ValueView::Array(t) => "["@ + trim_seq(t) + "]"@,
        ValueView::Composite(c) => choice_display(c),
        ValueView::KeyValue(m) => map_display(m),
    }
}

/// The value a field contributes to the document, by its kind and value:
/// text is read as the kind asks, booleans and enum choices as they are,
/// multi-selects as the chosen options; any other pairing contributes
/// nothing.
pub open spec fn current_value_spec(st: FieldStateView) -> Result<Option<JsonView>, CoercionErrorView> {
    let p = st.schema.pointer;
    match (st.schema.kind, st.value) {
        (KindView::String, ValueView::Text(t)) => Ok(string_value_spec(t, st.schema.required)),
        (KindView::Integer, ValueView::Text(t)) => integer_value_spec(t, p),
        (KindView::Number, ValueView::Text(t)) => number_value_spec(t, p),
        (KindView::Json, ValueView::Text(t)) => Ok(string_value_spec(t, st.schema.required)),
        (KindView::Boolean, ValueView::Bool(b)) => Ok(Some(JsonView::Bool(b))),
        (KindView::Enum(options), ValueView::Enum(_, sel)) => Ok(
            Some(JsonView::Str(if 0 <= sel < options.len() { options[sel] } else { Seq::empty() })),
        ),
        (KindView::Array(_), ValueView::Multi(options, flags)) => Ok(
            Some(JsonView::Array(str_values(chosen(options, flags)))),
        ),
        (KindView::Array(inner), ValueView::Array(t)) => array_value_spec(t, *inner, st.schema.required, p),
        (KindView::Composite(_, _), ValueView::Composite(c)) => choice_value(c, st.schema.required, p),
        (KindView::KeyValue(_, _), ValueView::KeyValue(m)) => Ok(map_value(m, st.schema.required)),
        _ => Ok(None),
    }
}

pub(crate) fn chosen_exec(options: &Vec<String>, flags: &Vec<bool>) -> (r: Vec<String>)
    ensures
        string_views(r@) == chosen(string_views(options@), flags@),
{
    let n: usize = if options.len() < flags.len() { options.len() } else { flags.len() };
    let mut out: Vec<String> = Vec::new();
    let mut i: usize = 0;
    while i < n
        invariant
            i <= n,
            n <= options.len(),
            n <= flags.len(),
            string_views(out@) == chosen_upto(string_views(options@), flags@, i as int),
        decreases n - i,
    {
        if flags[i] {
            let ghost before = out@;
            out.push(options[i].clone());
            assert(string_views(out@) =~= string_views(before).push(options@[i as int]@));
        }
        i = i + 1;
    }
    out
}

/// The value shown after seeding with a document value: text takes a
/// string or a number, a boolean a boolean, an enum the option a string
/// names, a multi-select the options an array's strings name, an array
/// buffer an array's text; any other pairing keeps the value.
pub open spec fn seeded_value(v: ValueView, j: JsonView) -> ValueView {
    match (v, j) {
        (ValueView::Text(_), JsonView::Str(t)) => ValueView::Text(t),
        (ValueView::Text(_), JsonView::Number(_)) => ValueView::Text(value_text(j)),
        (ValueView::Bool(_), JsonView::Bool(b)) => ValueView::Bool(b),
        (ValueView::Enum(options, sel), JsonView::Str(t)) => if first_index(options, t) >= 0 {
            ValueView::Enum(options, first_index(options, t))
        } else {
            v
        },
        (ValueView::Multi(options, flags), JsonView::Array(items)) => if flags.len() == options.len() {
            ValueView::Multi(options, crate::components::marked(options, crate::components::value_strings(items)))
        } else {
            v
        },
        (ValueView::Array(_), JsonView::Array(_)) => ValueView::Array(value_text(j)),
        (ValueView::Composite(c), _) => ValueView::Composite(seeded_choice(c, j)),
        (ValueView::KeyValue(m), _) => ValueView::KeyValue(seeded_map(m, j)),
        _ => v,
    }
}

/// A field after it is seeded with a document value.
pub open spec fn seeded(f: FieldStateView, j: JsonView) -> FieldStateView {
    FieldStateView { value: seeded_value(f.value, j), dirty: false, error: None, ..f }
}

/// Reading a text field back after seeding it with a string gives the
/// string, unless it is empty and the field optional.
pub proof fn lemma_seed_then_read_text(f: FieldStateView, t: Seq<char>)
    requires
        f.schema.kind is String,
        f.value is Text,
        t.len() > 0 || f.schema.required,
    ensures
        current_value_spec(seeded(f, JsonView::Str(t))) == Ok::<Option<JsonView>, CoercionErrorView>(
            Some(JsonView::Str(t)),
        ),
{
}

/// Reading a boolean field back after seeding it gives the boolean.
pub proof fn lemma_seed_then_read_bool(f: FieldStateView, b: bool)
    requires
        f.schema.kind is Boolean,
        f.value is Bool,
    ensures
        current_value_spec(seeded(f, JsonView::Bool(b))) == Ok::<Option<JsonView>, CoercionErrorView>(
            Some(JsonView::Bool(b)),
        ),
{
}

/// Reading an enum field back after seeding it with one of its options
/// gives that option.
pub proof fn lemma_seed_then_read_enum(f: FieldStateView, t: Seq<char>)
    requires
        f.schema.kind is Enum,
        f.value is Enum,
        f.value->Enum_0 == f.schema.kind->Enum_0,
        f.schema.kind->Enum_0.contains(t),
    ensures
        current_value_spec(seeded(f, JsonView::Str(t))) == Ok::<Option<JsonView>, CoercionErrorView>(
            Some(JsonView::Str(t)),
        ),
{
    let options = f.schema.kind->Enum_0;
    lemma_first_index(options, t);
    let w = choose|w: int| 0 <= w < options.len() && options[w] == t;
    assert(options[w] == t);
}

impl FieldState {
    /// The editing state a field starts with.
    pub fn from_schema(schema: FieldSchema) -> (r: Self)
        ensures
            r@.schema == schema@,
            r@.value == initial_value(schema@),
            !r@.dirty,
            r@.error is None,
    {
        let value = initial_value_exec(&schema);
        FieldState { schema, value, dirty: false, error: None }
    }

    fn after_edit(&mut self, v: FieldValue)
        ensures
            final(self)@ == edited(old(self)@, v@),
    {
        self.value = v;
        self.dirty = true;
        self.error = None;
    }

    /// Applies a key press to the field.
    pub fn handle_key(&mut self, key: &KeyEvent) -> (r: KeyHandling)
        ensures
            (final(self)@, r) == key_effect(old(self)@, *key),
    {
        let next: Option<FieldValue>;
        let mut outcome = KeyHandling::Ignored;
        match &self.value {
            FieldValue::Text(buffer) => {
                match key.code {
                    KeyCode::Left | KeyCode::Right => {
                        let delta: i64 = match key.code {
                            KeyCode::Left => -1,
                            _ => 1,
                        };
                        match &self.schema.kind {
                            FieldKind::Integer => {
                                next = Some(FieldValue::Text(int_step_exec(buffer, delta)));
                                outcome = KeyHandling::Handled;
                            },
                            FieldKind::Number => {
                                next = None;
                                outcome = KeyHandling::NumberStep(delta);
                            },
                            _ => {
                                next = None;
                            },
                        }
                    },
                    KeyCode::Char(c) => {
                        if key.modifiers.control {
                            next = None;
                        } else {
                            next = Some(FieldValue::Text(pushed(buffer, c)));
                            outcome = KeyHandling::Handled;
                        }
                    },
                    KeyCode::Backspace => {
                        next = Some(FieldValue::Text(popped_exec(buffer)));
                        outcome = KeyHandling::Handled;
                    },
                    KeyCode::Delete => {
                        next = Some(FieldValue::Text(String::new()));
                        outcome = KeyHandling::Handled;
                    },
                    _ => {
                        next = None;
                    },
                }
            },
            FieldValue::Array(buffer) => {
                match key.code {
                    KeyCode::Char(c) => {
                        if key.modifiers.control {
                            next = None;
                        } else {
                            next = Some(FieldValue::Array(pushed(buffer, c)));
                            outcome = KeyHandling::Handled;
                        }
                    },
                    KeyCode::Backspace => {
                        next = Some(FieldValue::Array(popped_exec(buffer)));
                        outcome = KeyHandling::Handled;
                    },
                    KeyCode::Delete => {
                        next = Some(FieldValue::Array(String::new()));
                        outcome = KeyHandling::Handled;
                    },
                    _ => {
                        next = None;
                    },
                }
            },
            FieldValue::Bool(b) => {
                match key.code {
                    KeyCode::Char(' ') | KeyCode::Left | KeyCode::Right => {
                        next = Some(FieldValue::Bool(!*b));
                        outcome = KeyHandling::Handled;
                    },
                    _ => {
                        next = None;
                    },
                }
            },
            FieldValue::Enum { options, selected } => {
                match key.code {
                    KeyCode::Up | KeyCode::Left => {
                        let s: usize = if *selected == 0 {
                            if options.len() > 0 {
                                options.len() - 1
                            } else {
                                0
                            }
                        } else {
                            *selected - 1
                        };
                        next = Some(FieldValue::Enum { options: clone_strings(options), selected: s });
                        outcome = KeyHandling::Handled;
                    },
                    KeyCode::Down | KeyCode::Right => {
                        let s: usize = if options.len() > 0 {
                            if *selected < options.len() {
                                (*selected + 1) % options.len()
                            } else {
                                ((*selected % options.len()) + 1) % options.len()
                            }
                        } else {
                            *selected
                        };
                        proof {
                            if options.len() > 0 && *selected >= options.len() {
                                let l = options.len() as int;
                                let x = *selected as int;
                                assert(((x % l) + 1) % l == (x + 1) % l) by (nonlinear_arith)
                                    requires
                                        l > 0,
                                        x >= 0,
                                ;
                            }
                        }
                        next = Some(FieldValue::Enum { options: clone_strings(options), selected: s });
                        outcome = KeyHandling::Handled;
                    },
                    _ => {
                        next = None;
                    },
                }
            },
            FieldValue::MultiSelect { .. } => {
                next = None;
            },
            FieldValue::Composite(_) => {
                next = None;
            },
            FieldValue::KeyValue(_) => {
                next = None;
            },
        }
        match next {
            Some(v) => {
                self.after_edit(v);
            },
            None => {},
        }
        outcome
    }

    /// Gives the field the text of a stepped floating-point number.
    pub fn finish_number_step(&mut self, text: String)
        ensures
            final(self)@ == edited(old(self)@, ValueView::Text(text@)),
    {
        self.after_edit(FieldValue::Text(text));
    }

    /// Gives an array field the text its entry editor wrote back.
    pub fn set_array_text(&mut self, text: String)
        ensures
            final(self)@ == edited(old(self)@, ValueView::Array(text@)),
    {
        self.after_edit(FieldValue::Array(text));
    }

    /// Takes new flags for an `anyOf` field's variants; a change marks the
    /// field edited.
    pub fn set_composite_flags(&mut self, flags: &[bool])
        ensures
            final(self)@ == (match old(self)@.value {
                ValueView::Composite(c) => if c.multi && flags@.len() == c.active.len() && flags@ != c.active {
                    edited(old(self)@, ValueView::Composite(ChoiceView { active: flags@, ..c }))
                } else {
                    old(self)@
                },
                _ => old(self)@,
            }),
    {
        match &mut self.value {
            FieldValue::Composite(c) => {
                if c.set_flags(flags) {
                    self.dirty = true;
                    self.error = None;
                }
            },
            _ => {},
        }
    }

    /// Chooses one variant of a `oneOf` field, bounded to the last; a
    /// change marks the field edited.
    pub fn choose_composite_variant(&mut self, index: usize)
        ensures
            final(self)@ == (match old(self)@.value {
                ValueView::Composite(c) => {
                    let n = c.active.len() as int;
                    let bounded = if index < n { index as int } else { n - 1 };
                    if !c.multi && n > 0 && single_flags(n, bounded) != c.active {
                        edited(old(self)@, ValueView::Composite(ChoiceView { active: single_flags(n, bounded), ..c }))
                    } else {
                        old(self)@
                    }
                },
                _ => old(self)@,
            }),
    {
        match &mut self.value {
            FieldValue::Composite(c) => {
                if c.choose_variant(index) {
                    self.dirty = true;
                    self.error = None;
                }
            },
            _ => {},
        }
    }

    /// Stores the document the editor of variant `i` saved; the field is
    /// then edited. Nothing happens to a field that is not composite or has
    /// no variant `i`.
    pub fn set_variant_document(&mut self, i: usize, doc: JsonValue)
        ensures
            final(self)@ == (match old(self)@.value {
                ValueView::Composite(c) => if i < c.documents.len() {
                    edited(old(self)@, ValueView::Composite(ChoiceView { documents: c.documents.update(i as int, Some(doc@)), ..c }))
                } else {
                    old(self)@
                },
                _ => old(self)@,
            }),
    {
        match &mut self.value {
            FieldValue::Composite(c) => {
                if i < c.documents.len() {
                    c.set_document(i, doc);
                    self.dirty = true;
                    self.error = None;
                }
            },
            _ => {},
        }
    }

    /// Applies a collection command to a map field: adding, removing and
    /// moving entries edit the field, selecting only moves the selection;
    /// other fields and commands are left as they are.
    pub fn apply_map_command(&mut self, command: AppCommand)
        ensures
            final(self)@ == map_command_effect(old(self)@, command),
    {
        match &mut self.value {
            FieldValue::KeyValue(m) => match command {
                AppCommand::ListAddEntry => {
                    m.add_entry();
                    self.dirty = true;
                    self.error = None;
                },
                AppCommand::ListRemoveEntry => {
                    m.remove_entry();
                    self.dirty = true;
                    self.error = None;
                },
                AppCommand::ListMove(d) => {
                    m.move_entry(d);
                    self.dirty = true;
                    self.error = None;
                },
                AppCommand::ListSelect(d) => m.select_entry(d),
                _ => {},
            },
            _ => {},
        }
    }

    /// Replaces entry `i` of a map field, which is then edited; nothing
    /// happens to other fields or without entry `i`.
    pub fn set_map_entry(&mut self, i: usize, key: String, value: JsonValue)
        ensures
            final(self)@ == (match old(self)@.value {
                ValueView::KeyValue(m) => if i < m.entries.len() {
                    edited(old(self)@, ValueView::KeyValue(MapView { entries: m.entries.update(i as int, (key@, value@)), ..m }))
                } else {
                    old(self)@
                },
                _ => old(self)@,
            }),
    {
        match &mut self.value {
            FieldValue::KeyValue(m) => {
                proof {
                    crate::json::lemma_entries_view(m.entries@);
                }
                if i < m.entries.len() {
                    m.set_entry(i, key, value);
                    self.dirty = true;
                    self.error = None;
                }
            },
            _ => {},
        }
    }

    /// Sets a boolean field; a change marks the field edited.
    pub fn set_bool(&mut self, value: bool)
        ensures
            final(self)@ == (match old(self)@.value {
                ValueView::Bool(cur) => if cur != value {
                    edited(old(self)@, ValueView::Bool(value))
                } else {
                    old(self)@
                },
                _ => old(self)@,
            }),
    {
        match &self.value {
            FieldValue::Bool(cur) => {
                if *cur != value {
                    self.after_edit(FieldValue::Bool(value));
                }
            },
            _ => {},
        }
    }

    /// Selects an enum option, bounded to the last one; a change marks the
    /// field edited. A field without options is left alone.
    pub fn set_enum_selected(&mut self, index: usize)
        ensures
            final(self)@ == (match old(self)@.value {
                ValueView::Enum(options, sel) => if options.len() == 0 {
                    old(self)@
                } else {
                    let bounded = if index < options.len() { index as int } else { options.len() - 1 };
                    if sel != bounded {
                        edited(old(self)@, ValueView::Enum(options, bounded))
                    } else {
                        old(self)@
                    }
                },
                _ => old(self)@,
            }),
    {
        match &self.value {
            FieldValue::Enum { options, selected } => {
                if options.len() == 0 {
                    return;
                }
                let bounded = if index < options.len() { index } else { options.len() - 1 };
                if *selected != bounded {
                    let o = clone_strings(options);
                    self.after_edit(FieldValue::Enum { options: o, selected: bounded });
                }
            },
            _ => {},
        }
    }

    /// Replaces a multi-select's toggles when the new ones have the same
    /// length and differ; a change marks the field edited.
    pub fn set_multi_selection(&mut self, selections: &[bool])
        ensures
            final(self)@ == (match old(self)@.value {
                ValueView::Multi(options, flags) => if flags.len() == selections@.len() && flags != selections@ {
                    edited(old(self)@, ValueView::Multi(options, selections@))
                } else {
                    old(self)@
                },
                _ => old(self)@,
            }),
    {
        match &self.value {
            FieldValue::MultiSelect { options, selected } => {
                if selected.len() == selections.len() {
                    let mut same = true;
                    let mut i: usize = 0;
                    while i < selected.len()
                        invariant
                            i <= selected.len(),
                            selected.len() == selections@.len(),
                            same == (forall|j: int| 0 <= j < i ==> selected@[j] == selections@[j]),
                        decreases selected.len() - i,
                    {
                        if selected[i] != selections[i] {
                            same = false;
                        }
                        i = i + 1;
                    }
                    if same {
                        assert(selected@ =~= selections@);
                    } else {
                        let o = clone_strings(options);
                        let mut v: Vec<bool> = Vec::new();
                        let mut k: usize = 0;
                        while k < selections.len()
                            invariant
                                k <= selections@.len(),
                                v@ == selections@.subrange(0, k as int),
                            decreases selections.len() - k,
                        {
                            v.push(selections[k]);
                            k = k + 1;
                            assert(v@ =~= selections@.subrange(0, k as int));
                        }
                        assert(v@ =~= selections@);
                        self.after_edit(FieldValue::MultiSelect { options: o, selected: v });
                    }
                }
            },
            _ => {},
        }
    }

    /// The toggles of a multi-select field.
    pub fn multi_states(&self) -> (r: Option<&[bool]>)
        ensures
            match self@.value {
                ValueView::Multi(_, flags) => r matches Some(s) && s@ == flags,
                _ => r is None,
            },
    {
        match &self.value {
            FieldValue::MultiSelect { selected, .. } => Some(selected.as_slice()),
            _ => None,
        }
    }

    /// The options of a multi-select field.
    pub fn multi_options(&self) -> (r: Option<&[String]>)
        ensures
            match self@.value {
                ValueView::Multi(options, _) => r matches Some(s) && string_views(s@) == options,
                _ => r is None,
            },
    {
        match &self.value {
            FieldValue::MultiSelect { options, .. } => Some(options.as_slice()),
            _ => None,
        }
    }

    /// The field's value as it is shown.
    pub fn display_value(&self) -> (r: String)
        ensures
            r@ == display_spec(self@.value),
    {
        match &self.value {
            FieldValue::Text(t) => t.clone(),
            FieldValue::Bool(b) => if *b {
                "true".to_string()
            } else {
                "false".to_string()
            },
            FieldValue::Enum { options, selected } => {
                if *selected < options.len() {
                    options[*selected].clone()
                } else {
                    "<none>".to_string()
                }
            },
            FieldValue::MultiSelect { options, selected } => {
                let c = chosen_exec(options, selected);
                if c.len() == 0 {
                    "[]".to_string()
                } else {
                    let mut out: Vec<char> = Vec::new();
                    out.push('[');
                    push_joined(&mut out, &c, ", ");
                    out.push(']');
                    proof {
                        reveal_strlit("[");
                        reveal_strlit("]");
                        assert(out@ =~= "["@ + join_with(string_views(c@), ", "@) + "]"@);
                    }
                    string_from_chars(&out)
                }
            },
            FieldValue::Array(t) => {
                let trimmed = trim_chars(&chars_of(t.as_str()));
                let mut out: Vec<char> = Vec::new();
                out.push('[');
                push_all(&mut out, &trimmed);
                out.push(']');
                proof {
                    reveal_strlit("[");
                    reveal_strlit("]");
                    assert(out@ =~= "["@ + trim_seq(t@) + "]"@);
                }
                string_from_chars(&out)
            },
            FieldValue::Composite(c) => c.display_value(),
            FieldValue::KeyValue(m) => m.display_value(),
        }
    }

    /// The value the field contributes to the document.
    pub fn current_value(&self) -> (r: Result<Option<JsonValue>, FieldCoercionError>)
        ensures
            match (r, current_value_spec(self@)) {
                (Ok(Some(v)), Ok(Some(w))) => v@ == w,
                (Ok(None), Ok(None)) => true,
                (Err(e), Err(w)) => e@ == w,
                _ => false,
            },
    {
        let p = self.schema.pointer.as_str();
        match (&self.schema.kind, &self.value) {
            (FieldKind::String, FieldValue::Text(t)) => Ok(string_value(t.as_str(), self.schema.required)),
            (FieldKind::Integer, FieldValue::Text(t)) => integer_value(t.as_str(), p),
            (FieldKind::Number, FieldValue::Text(t)) => number_value(t.as_str(), p),
            (FieldKind::Json, FieldValue::Text(t)) => Ok(string_value(t.as_str(), self.schema.required)),
            (FieldKind::Boolean, FieldValue::Bool(b)) => Ok(Some(JsonValue::Bool(*b))),
            (FieldKind::Enum(options), FieldValue::Enum { selected, .. }) => {
                let s = if *selected < options.len() {
                    options[*selected].clone()
                } else {
                    String::new()
                };
                Ok(Some(JsonValue::Str(s)))
            },
            (FieldKind::Array(_), FieldValue::MultiSelect { options, selected }) => {
                let c = chosen_exec(options, selected);
                let mut items: Vec<JsonValue> = Vec::new();
                let mut i: usize = 0;
                while i < c.len()
                    invariant
                        i <= c.len(),
                        items_view(items@) == str_values(string_views(c@).subrange(0, i as int)),
                    decreases c.len() - i,
                {
                    let ghost before = items@;
                    let s = c[i].clone();
                    items.push(JsonValue::Str(s));
                    proof {
                        assert(items@.drop_last() =~= before);
                        assert(items@.last() == JsonValue::Str(s));
                        assert(s@ == c@[i as int]@);
                        assert(json_view(items@.last()) == JsonView::Str(c@[i as int]@));
                        assert(items_view(items@) == items_view(items@.drop_last()).push(json_view(items@.last())));
                        assert(items_view(items@) =~= items_view(before).push(JsonView::Str(c@[i as int]@)));
                        assert(str_values(string_views(c@).subrange(0, i + 1))
                            =~= str_values(string_views(c@).subrange(0, i as int)).push(JsonView::Str(c@[i as int]@)));
                    }
                    i = i + 1;
                }
                assert(string_views(c@).subrange(0, c.len() as int) =~= string_views(c@));
                Ok(Some(JsonValue::Array(items)))
            },
            (FieldKind::Array(inner), FieldValue::Array(t)) => array_value(t.as_str(), inner, self.schema.required, p),
            (FieldKind::Composite(_), FieldValue::Composite(c)) => c.value(self.schema.required, p),
            (FieldKind::KeyValue(_, _), FieldValue::KeyValue(m)) => Ok(m.value(self.schema.required)),
            _ => Ok(None),
        }
    }

    /// Shows a document value in the field, which is then neither edited
    /// nor in error.
    pub fn seed_value(&mut self, value: &JsonValue)
        ensures
            final(self)@ == (FieldStateView {
                value: seeded_value(old(self)@.value, value@),
                dirty: false,
                error: None,
                ..old(self)@
            }),
    {
        match &mut self.value {
            FieldValue::Composite(c) => {
                c.seed(value);
                self.dirty = false;
                self.error = None;
                return;
            },
            FieldValue::KeyValue(m) => {
                m.seed(value);
                self.dirty = false;
                self.error = None;
                return;
            },
            _ => {},
        }
        let next: Option<FieldValue> = match (&self.value, value) {
            (FieldValue::Text(_), JsonValue::Str(t)) => Some(FieldValue::Text(t.clone())),
            (FieldValue::Text(_), JsonValue::Number(_)) => Some(FieldValue::Text(value_to_string(value))),
            (FieldValue::Bool(_), JsonValue::Bool(b)) => Some(FieldValue::Bool(*b)),
            (FieldValue::Enum { options, selected: _ }, JsonValue::Str(t)) => match position_of(options, t.as_str()) {
                Some(idx) => Some(FieldValue::Enum { options: clone_strings(options), selected: idx }),
                None => None,
            },
            (FieldValue::MultiSelect { options, selected }, JsonValue::Array(items)) => {
                proof {
                    crate::components::lemma_marked_len(string_views(options@), crate::components::value_strings(items_view(items@)));
                }
                if selected.len() == options.len() {
                    let flags = crate::components::mark_from(options, items);
                    Some(FieldValue::MultiSelect { options: clone_strings(options), selected: flags })
                } else {
                    None
                }
            },
            (FieldValue::Array(_), JsonValue::Array(_)) => Some(FieldValue::Array(value_to_string(value))),
            _ => None,
        };
        match next {
            Some(v) => {
                self.value = v;
            },
            None => {},
        }
        self.dirty = false;
        self.error = None;
    }

    /// Clears the field's error.
    pub fn clear_error(&mut self)
        ensures
            final(self)@ == (FieldStateView { error: None, ..old(self)@ }),
    {
        self.error = None;
    }

    /// Records an error for the field.
    pub fn set_error(&mut self, message: String)
        ensures
            final(self)@ == (FieldStateView { error: Some(message@), ..old(self)@ }),
    {
        self.error = Some(message);
    }
}

/// A JSON integer that an `i64` holds, as a document reader gives it:
/// non-negative ones unsigned, negative ones signed.
pub open spec fn i64_number(j: JsonView) -> bool {
    match j {
        JsonView::Number(crate::json::NumberView::PosInt(u)) => u <= i64::MAX,
        JsonView::Number(crate::json::NumberView::NegInt(i)) => i < 0,
        _ => false,
    }
}

/// An `i64` integer's text is a clean array item that reads back as it.
proof fn lemma_int_item_text(j: JsonView)
    requires
        i64_number(j),
    ensures
        crate::entries::clean_entry(crate::coerce::value_text(j)),
        parse_i64_spec(crate::coerce::value_text(j)) matches Some(v) && JsonView::Number(crate::coerce::number_of_i64(v)) == j,
{
    match j {
        JsonView::Number(crate::json::NumberView::PosInt(u)) => {
            let v = u as i64;
            crate::numbers::lemma_decimal_reads_back(u as nat);
            crate::numbers::lemma_i64_text_round_trip(v);
            assert(signed_decimal(v as int) == crate::coerce::value_text(j));
            let t = crate::coerce::value_text(j);
            assert(crate::numbers::is_digit(t[0]));
            assert(crate::numbers::is_digit(t.last()));
            assert forall|k: int| 0 <= k < t.len() implies t[k] != ',' by {
                assert(crate::numbers::is_digit(t[k]));
            }
        },
        JsonView::Number(crate::json::NumberView::NegInt(i)) => {
            let n = (-i) as nat;
            crate::numbers::lemma_decimal_reads_back(n);
            crate::numbers::lemma_i64_text_round_trip(i);
            let t = crate::coerce::value_text(j);
            assert(t == seq!['-'] + crate::text::decimal(n));
            assert(signed_decimal(i as int) == t);
            assert(t.last() == crate::text::decimal(n).last());
            assert(crate::numbers::is_digit(t.last()));
            assert forall|k: int| 0 <= k < t.len() implies t[k] != ',' by {
                if k > 0 {
                    assert(t[k] == crate::text::decimal(n)[k - 1]);
                    assert(crate::numbers::is_digit(t[k]));
                }
            }
        },
        _ => {},
    }
}

/// The items' texts joined by `, ` are the items' text.
proof fn lemma_items_text_join(items: Seq<JsonView>)
    ensures
        crate::coerce::items_value_text(items) == join_with(
            items.map_values(|j: JsonView| crate::coerce::value_text(j)),
            ", "@,
        ),
    decreases items.len(),
{
    let texts = items.map_values(|j: JsonView| crate::coerce::value_text(j));
    if items.len() >= 2 {
        lemma_items_text_join(items.drop_last());
        assert(texts.drop_last() =~= items.drop_last().map_values(|j: JsonView| crate::coerce::value_text(j)));
    }
}

/// A joined text starts with its first piece.
proof fn lemma_join_prefix(p: Seq<Seq<char>>, sep: Seq<char>)
    requires
        p.len() > 0,
    ensures
        join_with(p, sep).len() >= p[0].len(),
        join_with(p, sep).subrange(0, p[0].len() as int) == p[0],
    decreases p.len(),
{
    if p.len() == 1 {
        assert(join_with(p, sep).subrange(0, p[0].len() as int) =~= p[0]);
    } else {
        lemma_join_prefix(p.drop_last(), sep);
        let j = join_with(p.drop_last(), sep);
        assert(p.drop_last()[0] == p[0]);
        assert((j + sep + p.last()).subrange(0, p[0].len() as int) =~= j.subrange(0, p[0].len() as int));
    }
}

/// Trailing white space trimmed from text that starts with something else
/// leaves something.
proof fn lemma_trim_end_keeps_first(s: Seq<char>)
    requires
        s.len() > 0,
        !crate::label::is_ws(s[0]),
    ensures
        trim_end_seq(s).len() > 0,
    decreases s.len(),
{
    if s.len() > 1 && crate::label::is_ws(s.last()) {
        assert(s.drop_last()[0] == s[0]);
        lemma_trim_end_keeps_first(s.drop_last());
    }
}

/// Whether an item's text is a clean array item that reads back, as an
/// item of `inner`, as the item itself.
pub open spec fn reads_back(j: JsonView, inner: KindView, pointer: Seq<char>) -> bool {
    crate::entries::clean_entry(crate::coerce::value_text(j))
        && crate::coerce::convert_item(crate::coerce::value_text(j), inner, pointer) == Ok::<JsonView, CoercionErrorView>(j)
}

/// The items read from the split text of items that read back are those
/// items.
proof fn lemma_items_read(parts: Seq<Seq<char>>, items: Seq<JsonView>, n: int, inner: KindView, pointer: Seq<char>)
    requires
        0 <= n <= parts.len(),
        parts.len() == items.len(),
        forall|i: int| 0 <= i < items.len() ==> reads_back(#[trigger] items[i], inner, pointer),
        forall|i: int| 0 <= i < parts.len() ==> trim_seq(#[trigger] parts[i]) == crate::coerce::value_text(items[i]),
    ensures
        crate::coerce::array_items(parts.subrange(0, n), inner, pointer) == Ok::<Seq<JsonView>, CoercionErrorView>(
            items.subrange(0, n),
        ),
    decreases n,
{
    if n == 0 {
        assert(items.subrange(0, 0) =~= Seq::<JsonView>::empty());
    } else {
        lemma_items_read(parts, items, n - 1, inner, pointer);
        let pre = parts.subrange(0, n);
        assert(pre.drop_last() =~= parts.subrange(0, n - 1));
        assert(pre.last() == parts[n - 1]);
        assert(reads_back(items[n - 1], inner, pointer));
        assert(trim_seq(parts[n - 1]) == crate::coerce::value_text(items[n - 1]));
        assert(items.subrange(0, n) =~= items.subrange(0, n - 1).push(items[n - 1]));
    }
}

/// Seeding an array field with a non-empty array whose items read back as
/// the field's item kind, and reading the field back, gives the array.
proof fn lemma_seed_then_read_array(f: FieldStateView, items: Seq<JsonView>, inner: KindView)
    requires
        f.schema.kind == KindView::Array(Box::new(inner)),
        f.value is Array,
        items.len() > 0,
        forall|i: int| 0 <= i < items.len() ==> reads_back(#[trigger] items[i], inner, f.schema.pointer),
    ensures
        current_value_spec(seeded(f, JsonView::Array(items))) == Ok::<Option<JsonView>, CoercionErrorView>(
            Some(JsonView::Array(items)),
        ),
{
    let texts = items.map_values(|j: JsonView| crate::coerce::value_text(j));
    let text = crate::coerce::items_value_text(items);
    lemma_items_text_join(items);
    assert forall|i: int| 0 <= i < texts.len() implies crate::entries::clean_entry(#[trigger] texts[i]) by {
        assert(reads_back(items[i], inner, f.schema.pointer));
    }
    crate::entries::lemma_split_joined(texts);
    let parts = crate::coerce::split_commas(text);
    assert forall|i: int| 0 <= i < parts.len() implies trim_seq(#[trigger] parts[i]) == crate::coerce::value_text(items[i]) by {
        crate::entries::lemma_trim_clean(texts[i]);
    }
    lemma_items_read(parts, items, parts.len() as int, inner, f.schema.pointer);
    assert(parts.subrange(0, parts.len() as int) =~= parts);
    assert(items.subrange(0, items.len() as int) =~= items);
    lemma_join_prefix(texts, ", "@);
    assert(text[0] == texts[0][0]);
    assert(!crate::label::is_ws(text[0]));
    assert(trim_start_seq(text) == text);
    lemma_trim_end_keeps_first(text);
}

/// Seeding an array field of integers with a non-empty array of `i64`
/// integers and reading the field back gives the same array.
pub proof fn lemma_seed_then_read_integers(f: FieldStateView, items: Seq<JsonView>)
    requires
        f.schema.kind matches KindView::Array(inner) && *inner is Integer,
        f.value is Array,
        items.len() > 0,
        forall|i: int| 0 <= i < items.len() ==> i64_number(#[trigger] items[i]),
    ensures
        current_value_spec(seeded(f, JsonView::Array(items))) == Ok::<Option<JsonView>, CoercionErrorView>(
            Some(JsonView::Array(items)),
        ),
{
    assert(f.schema.kind == KindView::Array(Box::new(KindView::Integer)));
    assert forall|i: int| 0 <= i < items.len() implies reads_back(#[trigger] items[i], KindView::Integer, f.schema.pointer) by {
        lemma_int_item_text(items[i]);
    }
    lemma_seed_then_read_array(f, items, KindView::Integer);
}

/// Seeding an array field of strings with a non-empty array of strings
/// that are non-empty, hold no comma and start and end with something
/// other than white space, and reading it back, gives the same array.
pub proof fn lemma_seed_then_read_strings(f: FieldStateView, items: Seq<JsonView>)
    requires
        f.schema.kind matches KindView::Array(inner) && *inner is String,
        f.value is Array,
        items.len() > 0,
        forall|i: int| 0 <= i < items.len() ==> (#[trigger] items[i] matches JsonView::Str(t) && crate::entries::clean_entry(t)),
    ensures
        current_value_spec(seeded(f, JsonView::Array(items))) == Ok::<Option<JsonView>, CoercionErrorView>(
            Some(JsonView::Array(items)),
        ),
{
    assert(f.schema.kind == KindView::Array(Box::new(KindView::String)));
    assert forall|i: int| 0 <= i < items.len() implies reads_back(#[trigger] items[i], KindView::String, f.schema.pointer) by {
    }
    lemma_seed_then_read_array(f, items, KindView::String);
}

/// Seeding an array field of booleans with a non-empty array of booleans
/// and reading it back gives the same array.
pub proof fn lemma_seed_then_read_booleans(f: FieldStateView, items: Seq<JsonView>)
    requires
        f.schema.kind matches KindView::Array(inner) && *inner is Boolean,
        f.value is Array,
        items.len() > 0,
        forall|i: int| 0 <= i < items.len() ==> #[trigger] items[i] is Bool,
    ensures
        current_value_spec(seeded(f, JsonView::Array(items))) == Ok::<Option<JsonView>, CoercionErrorView>(
            Some(JsonView::Array(items)),
        ),
{
    reveal_strlit("true");
    reveal_strlit("false");
    assert(f.schema.kind == KindView::Array(Box::new(KindView::Boolean)));
    assert forall|i: int| 0 <= i < items.len() implies reads_back(#[trigger] items[i], KindView::Boolean, f.schema.pointer) by {
        let t = crate::coerce::value_text(items[i]);
        assert(crate::text::lower_seq(t) =~= t);
        crate::coerce::lemma_boolean_item(t, f.schema.pointer);
    }
    lemma_seed_then_read_array(f, items, KindView::Boolean);
}

/// Seeding an integer field with an `i64` integer and reading it back gives
/// the integer.
pub proof fn lemma_seed_then_read_integer(f: FieldStateView, j: JsonView)
    requires
        f.schema.kind is Integer,
        f.value is Text,
        i64_number(j),
    ensures
        current_value_spec(seeded(f, j)) == Ok::<Option<JsonView>, CoercionErrorView>(Some(j)),
{
    lemma_int_item_text(j);
    crate::entries::lemma_trim_clean(crate::coerce::value_text(j));
}

/// Seeding a number field with a number written as floating-point text
/// without surrounding white space, and reading it back, gives the number.
pub proof fn lemma_seed_then_read_number(f: FieldStateView, t: Seq<char>)
    requires
        f.schema.kind is Number,
        f.value is Text,
        crate::numbers::is_float_syntax(t),
        crate::entries::clean_entry(t),
    ensures
        current_value_spec(seeded(f, JsonView::Number(crate::json::NumberView::Float(t)))) == Ok::<Option<JsonView>, CoercionErrorView>(
            Some(JsonView::Number(crate::json::NumberView::Float(t))),
        ),
{
    crate::entries::lemma_trim_clean(t);
}

} // verus!

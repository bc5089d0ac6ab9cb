//! Self-contained editors for single fields: a text buffer, a comma list
//! buffer, a switch, a single choice and a multiple choice. Each keeps its
//! own state and is told the field's schema when it needs it.

use vstd::prelude::*;
use crate::coerce::{
    array_value, array_value_spec, integer_value, integer_value_spec, join_with, number_value,
    number_value_spec, push_joined, string_value, string_value_spec, value_text, value_to_string,
    CoercionErrorView, FieldCoercionError,
};
use crate::field::{
    chosen, chosen_exec, default_array_text, default_text, enum_start, first_or_empty, int_step,
    int_step_exec, popped, popped_exec, position_of, pushed, KeyHandling,
};
use crate::json::{as_str_spec, items_view, json_view, lemma_items_view, JsonValue, JsonView};
use crate::keys::{KeyCode, KeyEvent};
use crate::label::{trim_chars, trim_seq};
use crate::schema::{first_index, lemma_first_index, FieldKind, FieldSchema, FieldView, KindView};
use crate::text::{chars_of, clone_strings, push_all, string_from_chars, string_views};

verus! {

/// Which editor a field uses.
#[derive(Debug, Clone, Copy, PartialEq, Eq, Structural)]
pub enum ComponentKind {
    TextInput,
    ArrayBuffer,
    Bool,
    Enum,
    MultiSelect,
    Composite,
    CompositeList,
    ScalarArray,
    KeyValue,
}

/// A single choice as the renderer sees it.
pub struct EnumStateRef<'a> {
    pub options: &'a [String],
    pub selected: usize,
}

/// A multiple choice as the renderer sees it.
pub struct MultiSelectStateRef<'a> {
    pub options: &'a [String],
    pub selected: &'a [bool],
}

/// What a key does to an editable text buffer: the new text and whether
/// the key was consumed. Left and Right step an integer, ask the caller to
/// step a floating-point number, and mean nothing otherwise.
pub open spec fn text_edit(buf: Seq<char>, kind: KindView, key: KeyEvent) -> (Seq<char>, KeyHandling) {
    match key.code {
        KeyCode::Left => if kind is Integer {
            (int_step(buf, -1i64), KeyHandling::Handled)
        } else if kind is Number {
            (buf, KeyHandling::NumberStep(-1i64))
        } else {
            (buf, KeyHandling::Ignored)
        },
        KeyCode::Right => if kind is Integer {
            (int_step(buf, 1i64), KeyHandling::Handled)
        } else if kind is Number {
            (buf, KeyHandling::NumberStep(1i64))
        } else {
            (buf, KeyHandling::Ignored)
        },
        KeyCode::Char(c) => if key.modifiers.control {
            (buf, KeyHandling::Ignored)
        } else {
            (buf.push(c), KeyHandling::Handled)
        },
        KeyCode::Backspace => (popped(buf), KeyHandling::Handled),
        KeyCode::Delete => (Seq::empty(), KeyHandling::Handled),
        _ => (buf, KeyHandling::Ignored),
    }
}

fn handle_text_edit(buffer: &String, kind: &FieldKind, key: &KeyEvent) -> (r: (String, KeyHandling))
    ensures
        (r.0@, r.1) == text_edit(buffer@, kind@, *key),
{
    match key.code {
        KeyCode::Left | KeyCode::Right => {
            let delta: i64 = match key.code {
                KeyCode::Left => -1,
                _ => 1,
            };
            match kind {
                FieldKind::Integer => (int_step_exec(buffer, delta), KeyHandling::Handled),
                FieldKind::Number => (buffer.clone(), KeyHandling::NumberStep(delta)),
                _ => (buffer.clone(), KeyHandling::Ignored),
            }
        },
        KeyCode::Char(c) => {
            if key.modifiers.control {
                (buffer.clone(), KeyHandling::Ignored)
            } else {
                (pushed(buffer, c), KeyHandling::Handled)
            }
        },
        KeyCode::Backspace => (popped_exec(buffer), KeyHandling::Handled),
        KeyCode::Delete => (String::new(), KeyHandling::Handled),
        _ => (buffer.clone(), KeyHandling::Ignored),
    }
}

/// A free-text editor for string, integer, number and JSON fields.
#[derive(Debug)]
pub struct TextComponent {
    buffer: String,
}

impl View for TextComponent {
    type V = Seq<char>;

    closed spec fn view(&self) -> Seq<char> {
        self.buffer@
    }
}

impl TextComponent {
    /// Starts on the default's text.
    pub fn new(schema: &FieldSchema) -> (r: Self)
        ensures
            r@ == default_text(schema@),
    {
        let buffer = match &schema.default {
            Some(v) => value_to_string(v),
            None => String::new(),
        };
        TextComponent { buffer }
    }

    pub fn kind(&self) -> (r: ComponentKind)
        ensures
            r == ComponentKind::TextInput,
    {
        ComponentKind::TextInput
    }

    /// The text as typed.
    pub fn display_value(&self) -> (r: String)
        ensures
            r@ == self@,
    {
        self.buffer.clone()
    }

    /// Edits the text with a key press.
    pub fn handle_key(&mut self, schema: &FieldSchema, key: &KeyEvent) -> (r: KeyHandling)
        ensures
            (final(self)@, r) == text_edit(old(self)@, schema@.kind, *key),
    {
        let (next, outcome) = handle_text_edit(&self.buffer, &schema.kind, key);
        self.buffer = next;
        outcome
    }

    /// Takes the text of a stepped floating-point number.
    pub fn finish_number_step(&mut self, text: String)
        ensures
            final(self)@ == text@,
    {
        self.buffer = text;
    }

    /// Shows a value for editing.
    pub fn seed_value(&mut self, value: &JsonValue)
        ensures
            final(self)@ == value_text(value@),
    {
        self.buffer = value_to_string(value);
    }

    /// The value the text stands for, read as the field's kind.
    pub fn current_value(&self, schema: &FieldSchema) -> (r: Result<Option<JsonValue>, FieldCoercionError>)
        ensures
            match (r, text_value_spec(self@, schema@)) {
                (Ok(Some(v)), Ok(Some(w))) => v@ == w,
                (Ok(None), Ok(None)) => true,
                (Err(e), Err(w)) => e@ == w,
                _ => false,
            },
    {
        let p = schema.pointer.as_str();
        match &schema.kind {
            FieldKind::String => Ok(string_value(self.buffer.as_str(), schema.required)),
            FieldKind::Integer => integer_value(self.buffer.as_str(), p),
            FieldKind::Number => number_value(self.buffer.as_str(), p),
            FieldKind::Json => Ok(string_value(self.buffer.as_str(), schema.required)),
            _ => Ok(None),
        }
    }
}

/// The value typed text stands for, by the field's kind.
pub open spec fn text_value_spec(text: Seq<char>, schema: FieldView) -> Result<Option<JsonView>, CoercionErrorView> {
    match schema.kind {
        KindView::String => Ok(string_value_spec(text, schema.required)),
        KindView::Integer => integer_value_spec(text, schema.pointer),
        KindView::Number => number_value_spec(text, schema.pointer),
        KindView::Json => Ok(string_value_spec(text, schema.required)),
        _ => Ok(None),
    }
}

/// A comma-separated editor for arrays of scalars.
#[derive(Debug)]
pub struct ArrayBufferComponent {
    buffer: String,
}

impl View for ArrayBufferComponent {
    type V = Seq<char>;

    closed spec fn view(&self) -> Seq<char> {
        self.buffer@
    }
}

impl ArrayBufferComponent {
    /// Starts on the default's items joined by `, `.
    pub fn new(schema: &FieldSchema) -> (r: Self)
        ensures
            r@ == default_array_text(schema@),
    {
        let buffer = match &schema.default {
            Some(JsonValue::Array(_)) => match &schema.default {
                Some(v) => value_to_string(v),
                None => String::new(),
            },
            _ => String::new(),
        };
        ArrayBufferComponent { buffer }
    }

    pub fn kind(&self) -> (r: ComponentKind)
        ensures
            r == ComponentKind::ArrayBuffer,
    {
        ComponentKind::ArrayBuffer
    }

    /// The trimmed text in brackets.
    pub fn display_value(&self) -> (r: String)
        ensures
            r@ == seq!['['] + trim_seq(self@) + seq![']'],
    {
        let t = trim_chars(&chars_of(self.buffer.as_str()));
        let mut out: Vec<char> = Vec::new();
        out.push('[');
        push_all(&mut out, &t);
        out.push(']');
        assert(out@ =~= seq!['['] + trim_seq(self@) + seq![']']);
        string_from_chars(&out)
    }

    /// Edits the text with a key press.
    pub fn handle_key(&mut self, schema: &FieldSchema, key: &KeyEvent) -> (r: KeyHandling)
        ensures
            (final(self)@, r) == text_edit(old(self)@, schema@.kind, *key),
    {
        let (next, outcome) = handle_text_edit(&self.buffer, &schema.kind, key);
        self.buffer = next;
        outcome
    }

    /// Shows an array value for editing; other values are ignored.
    pub fn seed_value(&mut self, value: &JsonValue)
        ensures
            final(self)@ == (match value@ {
                JsonView::Array(_) => value_text(value@),
                _ => old(self)@,
            }),
    {
        match value {
            JsonValue::Array(_) => {
                self.buffer = value_to_string(value);
            },
            _ => {},
        }
    }

    /// The array the text stands for.
    pub fn current_value(&self, schema: &FieldSchema) -> (r: Result<Option<JsonValue>, FieldCoercionError>)
        ensures
            match schema@.kind {
                KindView::Array(inner) => match (r, array_value_spec(self@, *inner, schema@.required, schema@.pointer)) {
                    (Ok(Some(v)), Ok(Some(w))) => v@ == w,
                    (Ok(None), Ok(None)) => true,
                    (Err(e), Err(w)) => e@ == w,
                    _ => false,
                },
                _ => r matches Ok(None),
            },
    {
        match &schema.kind {
            FieldKind::Array(inner) => array_value(self.buffer.as_str(), inner, schema.required, schema.pointer.as_str()),
            _ => Ok(None),
        }
    }
}

/// A true/false switch.
#[derive(Debug)]
pub struct BoolComponent {
    value: bool,
}

impl View for BoolComponent {
    type V = bool;

    closed spec fn view(&self) -> bool {
        self.value
    }
}

impl BoolComponent {
    /// Starts on a boolean default, `false` otherwise.
    pub fn new(schema: &FieldSchema) -> (r: Self)
        ensures
            r@ == (match schema@.default {
                Some(JsonView::Bool(b)) => b,
                _ => false,
            }),
    {
        let value = match &schema.default {
            Some(JsonValue::Bool(b)) => *b,
            _ => false,
        };
        BoolComponent { value }
    }

    pub fn kind(&self) -> (r: ComponentKind)
        ensures
            r == ComponentKind::Bool,
    {
        ComponentKind::Bool
    }

    /// `true` or `false`.
    pub fn display_value(&self) -> (r: String)
        ensures
            r@ == (if self@ { "true"@ } else { "false"@ }),
    {
        if self.value {
            "true".to_string()
        } else {
            "false".to_string()
        }
    }

    /// Space, Left and Right flip the switch.
    pub fn handle_key(&mut self, key: &KeyEvent) -> (r: bool)
        ensures
            r == (key.code == KeyCode::Char(' ') || key.code == KeyCode::Left || key.code == KeyCode::Right),
            final(self)@ == if r { !old(self)@ } else { old(self)@ },
    {
        match key.code {
            KeyCode::Char(' ') | KeyCode::Left | KeyCode::Right => {
                self.value = !self.value;
                true
            },
            _ => false,
        }
    }

    /// Takes a boolean value; other values are ignored.
    pub fn seed_value(&mut self, value: &JsonValue)
        ensures
            final(self)@ == (match value@ {
                JsonView::Bool(b) => b,
                _ => old(self)@,
            }),
    {
        match value {
            JsonValue::Bool(b) => {
                self.value = *b;
            },
            _ => {},
        }
    }

    /// The switch as a JSON boolean.
    pub fn current_value(&self) -> (r: Result<Option<JsonValue>, FieldCoercionError>)
        ensures
            r matches Ok(Some(v)) && v@ == JsonView::Bool(self@),
    {
        Ok(Some(JsonValue::Bool(self.value)))
    }

    pub fn bool_value(&self) -> (r: Option<bool>)
        ensures
            r == Some(self@),
    {
        Some(self.value)
    }

    /// Sets the switch; `true` when that changed it.
    pub fn set_bool(&mut self, value: bool) -> (r: bool)
        ensures
            final(self)@ == value,
            r == (old(self)@ != value),
    {
        if self.value != value {
            self.value = value;
            true
        } else {
            false
        }
    }
}

/// The selection after Up/Left (`back`) or Down/Right (`!back`), wrapping;
/// `None` when there is nothing to choose from.
pub open spec fn enum_move(len: int, sel: int, back: bool) -> Option<int> {
    if len == 0 {
        None
    } else if back {
        Some(if sel == 0 { len - 1 } else { sel - 1 })
    } else {
        Some((sel + 1) % len)
    }
}

/// A single choice among options.
#[derive(Debug)]
pub struct EnumComponent {
    options: Vec<String>,
    selected: usize,
}

impl View for EnumComponent {
    type V = (Seq<Seq<char>>, int);

    closed spec fn view(&self) -> (Seq<Seq<char>>, int) {
        (string_views(self.options@), self.selected as int)
    }
}

fn copy_options(options: &[String]) -> (r: Vec<String>)
    ensures
        string_views(r@) == string_views(options@),
{
    let mut out: Vec<String> = Vec::new();
    let mut i: usize = 0;
    while i < options.len()
        invariant
            i <= options@.len(),
            string_views(out@) == string_views(options@.subrange(0, i as int)),
        decreases options.len() - i,
    {
        let c = options[i].clone();
        let ghost before = out@;
        out.push(c);
        proof {
            assert(string_views(out@) =~= string_views(before).push(c@));
            assert(string_views(options@.subrange(0, i + 1)) =~= string_views(options@.subrange(0, i as int)).push(options@[i as int]@));
        }
        i = i + 1;
    }
    assert(options@.subrange(0, options@.len() as int) =~= options@);
    out
}

impl EnumComponent {
    /// Starts on the default's option, or the first.
    pub fn new(options: &[String], schema: &FieldSchema) -> (r: Self)
        ensures
            r@.0 == string_views(options@),
            r@.1 == enum_start(schema@, string_views(options@)),
    {
        let opts = copy_options(options);
        let wanted = match &schema.default {
            Some(v) => {
                let t = value_to_string(v);
                if t.as_str().is_empty() {
                    if opts.len() > 0 {
                        opts[0].clone()
                    } else {
                        String::new()
                    }
                } else {
                    t
                }
            },
            None => {
                if opts.len() > 0 {
                    opts[0].clone()
                } else {
                    String::new()
                }
            },
        };
        let selected = match position_of(&opts, wanted.as_str()) {
            Some(k) => k,
            None => 0,
        };
        EnumComponent { options: opts, selected }
    }

    pub fn kind(&self) -> (r: ComponentKind)
        ensures
            r == ComponentKind::Enum,
    {
        ComponentKind::Enum
    }

    /// The chosen option, or `<none>`.
    pub fn display_value(&self) -> (r: String)
        ensures
            r@ == (if 0 <= self@.1 < self@.0.len() { self@.0[self@.1] } else { "<none>"@ }),
    {
        if self.selected < self.options.len() {
            self.options[self.selected].clone()
        } else {
            "<none>".to_string()
        }
    }

    /// Up/Left choose the previous option and Down/Right the next, wrapping.
    pub fn handle_key(&mut self, key: &KeyEvent) -> (r: bool)
        requires
            old(self)@.0.len() > 0 ==> old(self)@.1 < old(self)@.0.len(),
        ensures
            final(self)@.0 == old(self)@.0,
            match key.code {
                KeyCode::Up | KeyCode::Left => match enum_move(old(self)@.0.len() as int, old(self)@.1, true) {
                    Some(s) => r && final(self)@.1 == s,
                    None => !r && final(self)@ == old(self)@,
                },
                KeyCode::Down | KeyCode::Right => match enum_move(old(self)@.0.len() as int, old(self)@.1, false) {
                    Some(s) => r && final(self)@.1 == s,
                    None => !r && final(self)@ == old(self)@,
                },
                _ => !r && final(self)@ == old(self)@,
            },
    {
        match key.code {
            KeyCode::Up | KeyCode::Left => {
                if self.options.len() == 0 {
                    return false;
                }
                if self.selected == 0 {
                    self.selected = self.options.len() - 1;
                } else {
                    self.selected = self.selected - 1;
                }
                true
            },
            KeyCode::Down | KeyCode::Right => {
                if self.options.len() == 0 {
                    return false;
                }
                self.selected = (self.selected + 1) % self.options.len();
                true
            },
            _ => false,
        }
    }

    /// Chooses the option a string value names; other values, and strings
    /// that name no option, are ignored.
    pub fn seed_value(&mut self, value: &JsonValue)
        ensures
            final(self)@.0 == old(self)@.0,
            final(self)@.1 == (match as_str_spec(value@) {
                Some(t) => if first_index(old(self)@.0, t) >= 0 {
                    first_index(old(self)@.0, t)
                } else {
                    old(self)@.1
                },
                None => old(self)@.1,
            }),
    {
        match value.as_str() {
            Some(text) => {
                match position_of(&self.options, text) {
                    Some(idx) => {
                        self.selected = idx;
                    },
                    None => {},
                }
            },
            None => {},
        }
    }

    /// The chosen option as a JSON string; nothing when the choice is out
    /// of range.
    pub fn current_value(&self) -> (r: Result<Option<JsonValue>, FieldCoercionError>)
        ensures
            if 0 <= self@.1 < self@.0.len() {
                r matches Ok(Some(v)) && v@ == JsonView::Str(self@.0[self@.1])
            } else {
                r matches Ok(None)
            },
    {
        if self.selected < self.options.len() {
            Ok(Some(JsonValue::Str(self.options[self.selected].clone())))
        } else {
            Ok(None)
        }
    }

    /// The options and the choice, for rendering.
    pub fn enum_state(&self) -> (r: Option<EnumStateRef<'_>>)
        ensures
            r matches Some(s) && string_views(s.options@) == self@.0 && s.selected == self@.1,
    {
        Some(EnumStateRef { options: self.options.as_slice(), selected: self.selected })
    }

    /// Chooses an option, bounded to the last; `true` when that changed the
    /// choice. Nothing happens without options.
    pub fn set_enum_index(&mut self, index: usize) -> (r: bool)
        ensures
            final(self)@.0 == old(self)@.0,
            old(self)@.0.len() == 0 ==> !r && final(self)@ == old(self)@,
            old(self)@.0.len() > 0 ==> ({
                let bounded = if index < old(self)@.0.len() { index as int } else { old(self)@.0.len() - 1 };
                &&& final(self)@.1 == bounded
                &&& r == (old(self)@.1 != bounded)
            }),
    {
        if self.options.len() == 0 {
            return false;
        }
        let bounded = if index < self.options.len() { index } else { self.options.len() - 1 };
        if self.selected != bounded {
            self.selected = bounded;
            true
        } else {
            false
        }
    }
}

/// Toggles from all off, switching on the first option each string names.
pub open spec fn marked(options: Seq<Seq<char>>, strs: Seq<Seq<char>>) -> Seq<bool>
    decreases strs.len(),
{
    if strs.len() == 0 {
        Seq::new(options.len(), |i: int| false)
    } else {
        let flags = marked(options, strs.drop_last());
        let p = first_index(options, strs.last());
        if p >= 0 {
            flags.update(p, true)
        } else {
            flags
        }
    }
}

/// The strings among the values, in order.
pub open spec fn value_strings(items: Seq<JsonView>) -> Seq<Seq<char>>
    decreases items.len(),
{
    if items.len() == 0 {
        Seq::empty()
    } else {
        let r = value_strings(items.drop_last());
        match items.last() {
            JsonView::Str(s) => r.push(s),
            _ => r,
        }
    }
}

pub(crate) proof fn lemma_marked_len(options: Seq<Seq<char>>, strs: Seq<Seq<char>>)
    ensures
        marked(options, strs).len() == options.len(),
    decreases strs.len(),
{
    if strs.len() > 0 {
        lemma_marked_len(options, strs.drop_last());
        lemma_first_index(options, strs.last());
    }
}

pub(crate) fn mark_from(options: &Vec<String>, items: &Vec<JsonValue>) -> (r: Vec<bool>)
    ensures
        r@ == marked(string_views(options@), value_strings(items_view(items@))),
{
    let ghost ov = string_views(options@);
    let mut flags: Vec<bool> = Vec::new();
    let mut k: usize = 0;
    while k < options.len()
        invariant
            k <= options.len(),
            flags@.len() == k,
            forall|q: int| 0 <= q < k ==> !#[trigger] flags@[q],
        decreases options.len() - k,
    {
        flags.push(false);
        k = k + 1;
    }
    assert(flags@ =~= marked(ov, Seq::<Seq<char>>::empty()));
    proof {
        lemma_items_view(items@);
    }
    let mut i: usize = 0;
    assert(items_view(items@).subrange(0, 0) =~= Seq::<JsonView>::empty());
    while i < items.len()
        invariant
            i <= items.len(),
            ov == string_views(options@),
            items_view(items@).len() == items@.len(),
            forall|j: int| 0 <= j < items@.len() ==> #[trigger] items_view(items@)[j] == json_view(items@[j]),
            flags@ == marked(ov, value_strings(items_view(items@).subrange(0, i as int))),
        decreases items.len() - i,
    {
        let ghost pre = items_view(items@).subrange(0, i as int);
        let ghost post = items_view(items@).subrange(0, i + 1);
        assert(post.drop_last() =~= pre);
        assert(post.last() == json_view(items@[i as int]));
        proof {
            lemma_marked_len(ov, value_strings(pre));
        }
        match &items[i] {
            JsonValue::Str(s) => {
                let ghost vs = value_strings(pre);
                assert(value_strings(post) == vs.push(s@));
                assert(vs.push(s@).drop_last() =~= vs);
                match position_of(options, s.as_str()) {
                    Some(p) => {
                        proof {
                            lemma_first_index(ov, s@);
                        }
                        flags.set(p, true);
                    },
                    None => {},
                }
            },
            _ => {},
        }
        i = i + 1;
    }
    assert(items_view(items@).subrange(0, items@.len() as int) =~= items_view(items@));
    flags
}

/// A multiple choice among options.
#[derive(Debug)]
pub struct MultiSelectComponent {
    options: Vec<String>,
    selected: Vec<bool>,
}

impl View for MultiSelectComponent {
    type V = (Seq<Seq<char>>, Seq<bool>);

    closed spec fn view(&self) -> (Seq<Seq<char>>, Seq<bool>) {
        (string_views(self.options@), self.selected@)
    }
}

impl MultiSelectComponent {
    /// Starts with the options a default array names switched on.
    pub fn new(options: &[String], default: Option<&JsonValue>) -> (r: Self)
        ensures
            r@.0 == string_views(options@),
            r@.1 == (match default {
                Some(d) => match d@ {
                    JsonView::Array(items) => marked(string_views(options@), value_strings(items)),
                    _ => marked(string_views(options@), Seq::empty()),
                },
                None => marked(string_views(options@), Seq::empty()),
            }),
    {
        let opts = copy_options(options);
        let empty: Vec<JsonValue> = Vec::new();
        assert(items_view(empty@) =~= Seq::<JsonView>::empty());
        let selected = match default {
            Some(JsonValue::Array(items)) => mark_from(&opts, items),
            _ => mark_from(&opts, &empty),
        };
        MultiSelectComponent { options: opts, selected }
    }

    pub fn kind(&self) -> (r: ComponentKind)
        ensures
            r == ComponentKind::MultiSelect,
    {
        ComponentKind::MultiSelect
    }

    /// The chosen options in brackets, `[]` when none is chosen.
    pub fn display_value(&self) -> (r: String)
        ensures
            r@ == (if chosen(self@.0, self@.1).len() == 0 {
                "[]"@
            } else {
                "["@ + join_with(chosen(self@.0, self@.1), ", "@) + "]"@
            }),
    {
        let c = chosen_exec(&self.options, &self.selected);
        if c.len() == 0 {
            "[]".to_string()
        } else {
            let mut out: Vec<char> = Vec::new();
            out.push('[');
            push_joined(&mut out, &c, ", ");
            out.push(']');
            proof {
                reveal_strlit("[");
                reveal_strlit("]");
                assert(out@ =~= "["@ + join_with(string_views(c@), ", "@) + "]"@);
            }
            string_from_chars(&out)
        }
    }

    /// Switches on the options an array value names, the others off; other
    /// values are ignored.
    pub fn seed_value(&mut self, value: &JsonValue)
        ensures
            final(self)@.0 == old(self)@.0,
            final(self)@.1 == (match value@ {
                JsonView::Array(items) => if old(self)@.1.len() == old(self)@.0.len() {
                    marked(old(self)@.0, value_strings(items))
                } else {
                    old(self)@.1
                },
                _ => old(self)@.1,
            }),
    {
        match value {
            JsonValue::Array(items) => {
                let flags = mark_from(&self.options, items);
                proof {
                    lemma_marked_len(string_views(self.options@), value_strings(items_view(items@)));
                }
                if flags.len() == self.selected.len() {
                    self.selected = flags;
                }
            },
            _ => {},
        }
    }

    /// The chosen options as an array of strings.
    pub fn current_value(&self) -> (r: Result<Option<JsonValue>, FieldCoercionError>)
        ensures
            r matches Ok(Some(v)) && v@ == JsonView::Array(crate::field::str_values(chosen(self@.0, self@.1))),
    {
        let c = chosen_exec(&self.options, &self.selected);
        let mut items: Vec<JsonValue> = Vec::new();
        let mut i: usize = 0;
        while i < c.len()
            invariant
                i <= c.len(),
                items_view(items@) == crate::field::str_values(string_views(c@).subrange(0, i as int)),
            decreases c.len() - i,
        {
            let ghost before = items@;
            let s = c[i].clone();
            items.push(JsonValue::Str(s));
            proof {
                assert(items@.drop_last() =~= before);
                assert(items@.last() == JsonValue::Str(s));
                assert(items_view(items@) == items_view(items@.drop_last()).push(json_view(items@.last())));
                assert(crate::field::str_values(string_views(c@).subrange(0, i + 1))
                    =~= crate::field::str_values(string_views(c@).subrange(0, i as int)).push(JsonView::Str(c@[i as int]@)));
            }
            i = i + 1;
        }
        assert(string_views(c@).subrange(0, c.len() as int) =~= string_views(c@));
        Ok(Some(JsonValue::Array(items)))
    }

    /// The options and toggles, for rendering.
    pub fn multi_state(&self) -> (r: Option<MultiSelectStateRef<'_>>)
        ensures
            r matches Some(s) && string_views(s.options@) == self@.0 && s.selected@ == self@.1,
    {
        Some(MultiSelectStateRef { options: self.options.as_slice(), selected: self.selected.as_slice() })
    }

    /// Replaces the toggles when the new ones have the same length; `true`
    /// when that changed them.
    pub fn set_multi_state(&mut self, flags: &[bool]) -> (r: bool)
        ensures
            final(self)@.0 == old(self)@.0,
            flags@.len() != old(self)@.1.len() ==> !r && final(self)@ == old(self)@,
            flags@.len() == old(self)@.1.len() ==> final(self)@.1 == flags@ && r == (old(self)@.1 != flags@),
    {
        if flags.len() != self.selected.len() {
            return false;
        }
        let mut same = true;
        let mut i: usize = 0;
        while i < flags.len()
            invariant
                i <= flags@.len(),
                flags@.len() == self.selected@.len(),
                same == (forall|j: int| 0 <= j < i ==> self.selected@[j] == flags@[j]),
            decreases flags.len() - i,
        {
            if self.selected[i] != flags[i] {
                same = false;
            }
            i = i + 1;
        }
        if same {
            assert(self.selected@ =~= flags@);
            return false;
        }
        let mut v: Vec<bool> = Vec::new();
        let mut k: usize = 0;
        while k < flags.len()
            invariant
                k <= flags@.len(),
                v@ == flags@.subrange(0, k as int),
            decreases flags.len() - k,
        {
            v.push(flags[k]);
            k = k + 1;
            assert(v@ =~= flags@.subrange(0, k as int));
        }
        assert(v@ =~= flags@);
        self.selected = v;
        true
    }
}

} // verus!

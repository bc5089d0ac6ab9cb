//! Turning a JSON Schema document into a form description: which fields
//! exist, what kind of input each one takes, and how they are grouped into
//! sections.

use vstd::prelude::*;
use crate::json::{
    copy_entries, copy_value, entries_view, find_key, get_spec, get_str, get_str_spec, json_text, json_to_string,
    json_view, lemma_entries_view, lemma_find_key, lemma_items_view, items_view, JsonValue, JsonView,
};
use crate::label::{display_label_of, label_of, pretty_label, prettify_label};
use crate::pointer::{pointer_of, to_pointer};
use crate::text::{
    chars_of, clone_opt, clone_strings, decimal, has_prefix, opt_owned, opt_view, push_decimal, starts_with, str_equal,
    string_from_chars, string_views, to_lowercase, unicode_lower,
};
use crate::composite::{CompositeField, CompositeVariant};

verus! {

/// How a composite field combines its variants.
#[derive(Debug, Clone, Copy, PartialEq, Eq, Structural)]
pub enum CompositeMode {
    OneOf,
    AnyOf,
}

/// The kind of input a field takes.
#[derive(Debug, PartialEq)]
pub enum FieldKind {
    String,
    Integer,
    Number,
    Boolean,
    Enum(Vec<String>),
    Array(Box<FieldKind>),
    Json,
    /// A `oneOf` / `anyOf` choice between variant schemas.
    Composite(CompositeField),
    /// A map whose keys follow the first schema and values the second.
    KeyValue(Box<JsonValue>, Box<JsonValue>),
}

/// The view of a field kind.
pub enum KindView {
    String,
    Integer,
    Number,
    Boolean,
    Enum(Seq<Seq<char>>),
    Array(Box<KindView>),
    Json,
    /// Whether several variants may be active (`anyOf`), and the variants.
    Composite(bool, Seq<VariantDesc>),
    /// The key schema and the value schema of a map.
    KeyValue(JsonView, JsonView),
}

/// The view of a composite variant.
pub struct VariantDesc {
    pub id: Seq<char>,
    pub title: Seq<char>,
    pub description: Option<Seq<char>>,
    pub schema: JsonView,
}

pub open spec fn variant_desc(v: CompositeVariant) -> VariantDesc {
    VariantDesc { id: v.id@, title: v.title@, description: opt_view(v.description), schema: v.schema@ }
}

pub open spec fn variant_descs(vs: Seq<CompositeVariant>) -> Seq<VariantDesc> {
    vs.map_values(|v: CompositeVariant| variant_desc(v))
}

pub open spec fn kind_view(k: FieldKind) -> KindView
    decreases k,
{
    match k {
        FieldKind::String => KindView::String,
        FieldKind::Integer => KindView::Integer,
        FieldKind::Number => KindView::Number,
        FieldKind::Boolean => KindView::Boolean,
        FieldKind::Enum(options) => KindView::Enum(string_views(options@)),
        FieldKind::Array(inner) => KindView::Array(Box::new(kind_view(*inner))),
        FieldKind::Json => KindView::Json,
        FieldKind::Composite(c) => KindView::Composite(c.mode is AnyOf, variant_descs(c.variants@)),
        FieldKind::KeyValue(k, v) => KindView::KeyValue(json_view(*k), json_view(*v)),
    }
}

impl View for FieldKind {
    type V = KindView;

    open spec fn view(&self) -> KindView {
        kind_view(*self)
    }
}

/// A copy of a field kind.
pub fn clone_kind(k: &FieldKind) -> (r: FieldKind)
    ensures
        r@ == k@,
    decreases k,
{
    match k {
        FieldKind::String => FieldKind::String,
        FieldKind::Integer => FieldKind::Integer,
        FieldKind::Number => FieldKind::Number,
        FieldKind::Boolean => FieldKind::Boolean,
        FieldKind::Enum(options) => FieldKind::Enum(clone_strings(options)),
        FieldKind::Array(inner) => FieldKind::Array(Box::new(clone_kind(inner))),
        FieldKind::Json => FieldKind::Json,
        FieldKind::Composite(c) => FieldKind::Composite(crate::composite::clone_composite_field(c)),
        FieldKind::KeyValue(k, v) => FieldKind::KeyValue(Box::new(copy_value(k)), Box::new(copy_value(v))),
    }
}

/// One field of the form.
#[derive(Debug)]
pub struct FieldSchema {
    pub name: String,
    pub path: Vec<String>,
    pub pointer: String,
    pub title: String,
    pub description: Option<String>,
    pub section_id: String,
    pub kind: FieldKind,
    pub required: bool,
    pub default: Option<JsonValue>,
    pub metadata: Vec<(String, JsonValue)>,
}

/// The view of a field.
pub struct FieldView {
    pub name: Seq<char>,
    pub path: Seq<Seq<char>>,
    pub pointer: Seq<char>,
    pub title: Seq<char>,
    pub description: Option<Seq<char>>,
    pub section_id: Seq<char>,
    pub kind: KindView,
    pub required: bool,
    pub default: Option<JsonView>,
    pub metadata: Seq<(Seq<char>, JsonView)>,
}

pub open spec fn opt_json_view(v: Option<JsonValue>) -> Option<JsonView> {
    match v {
        Some(x) => Some(json_view(x)),
        None => None,
    }
}

impl View for FieldSchema {
    type V = FieldView;

    open spec fn view(&self) -> FieldView {
        FieldView {
            name: self.name@,
            path: string_views(self.path@),
            pointer: self.pointer@,
            title: self.title@,
            description: opt_view(self.description),
            section_id: self.section_id@,
            kind: self.kind@,
            required: self.required,
            default: opt_json_view(self.default),
            metadata: entries_view(self.metadata@),
        }
    }
}

impl FieldSchema {
    /// The field's label: its title, followed by its name in parentheses
    /// when the two differ beyond ASCII case.
    pub fn display_label(&self) -> (r: String)
        ensures
            r@ == label_of(self@.title, self@.name),
    {
        display_label_of(self.title.as_str(), self.name.as_str())
    }
}

/// A group of fields shown together.
#[derive(Debug)]
pub struct FormSection {
    pub id: String,
    pub title: String,
    pub description: Option<String>,
    /// The root tab the section is shown under.
    pub root: String,
    /// The property path of the object the section stands for (empty for
    /// the `General` section).
    pub path: Vec<String>,
    pub fields: Vec<FieldSchema>,
}

/// The whole form.
#[derive(Debug)]
pub struct FormSchema {
    pub title: Option<String>,
    pub description: Option<String>,
    pub sections: Vec<FormSection>,
}

/// The view of a section.
pub struct SectionView {
    pub id: Seq<char>,
    pub title: Seq<char>,
    pub description: Option<Seq<char>>,
    pub root: Seq<char>,
    pub path: Seq<Seq<char>>,
    pub fields: Seq<FieldView>,
}

/// The view of a form.
pub struct FormView {
    pub title: Option<Seq<char>>,
    pub description: Option<Seq<char>>,
    pub sections: Seq<SectionView>,
}

pub open spec fn fields_view(s: Seq<FieldSchema>) -> Seq<FieldView> {
    s.map_values(|f: FieldSchema| f@)
}

pub open spec fn form_section_view(s: FormSection) -> SectionView {
    SectionView {
        id: s.id@,
        title: s.title@,
        description: opt_view(s.description),
        root: s.root@,
        path: string_views(s.path@),
        fields: fields_view(s.fields@),
    }
}

pub open spec fn sections_view(s: Seq<FormSection>) -> Seq<SectionView> {
    s.map_values(|x: FormSection| form_section_view(x))
}

impl View for FormSchema {
    type V = FormView;

    open spec fn view(&self) -> FormView {
        FormView {
            title: opt_view(self.title),
            description: opt_view(self.description),
            sections: sections_view(self.sections@),
        }
    }
}

/// Why a field's schema cannot be turned into an input.
#[derive(Debug, PartialEq)]
pub enum KindError {
    MissingItems,
    NestedArray,
    UnsupportedType(String),
}

/// Why a schema cannot be turned into a form.
#[derive(Debug, PartialEq)]
pub enum SchemaError {
    NotAnObject,
    RootNotObject(String),
    MissingProperties,
    UnsupportedField { name: String, cause: KindError },
    /// A `$ref` that cannot be followed, with the reason.
    Reference(String),
}

/// The view of a kind error.
pub enum KindErrorView {
    MissingItems,
    NestedArray,
    UnsupportedType(Seq<char>),
}

/// The view of a schema error.
pub enum SchemaErrorView {
    NotAnObject,
    RootNotObject(Seq<char>),
    MissingProperties,
    UnsupportedField(Seq<char>, KindErrorView),
    Reference(Seq<char>),
}

pub open spec fn kind_error_view(e: KindError) -> KindErrorView {
    match e {
        KindError::MissingItems => KindErrorView::MissingItems,
        KindError::NestedArray => KindErrorView::NestedArray,
        KindError::UnsupportedType(t) => KindErrorView::UnsupportedType(t@),
    }
}

pub open spec fn schema_error_view(e: SchemaError) -> SchemaErrorView {
    match e {
        SchemaError::NotAnObject => SchemaErrorView::NotAnObject,
        SchemaError::RootNotObject(t) => SchemaErrorView::RootNotObject(t@),
        SchemaError::MissingProperties => SchemaErrorView::MissingProperties,
        SchemaError::Reference(m) => SchemaErrorView::Reference(m@),
        SchemaError::UnsupportedField { name, cause } => SchemaErrorView::UnsupportedField(
            name@,
            kind_error_view(cause),
        ),
    }
}

// ---------------------------------------------------------------------------
// Reading the type of a schema.

/// The first entry of a `type` list that is a string other than `null`,
/// lowered.
pub open spec fn first_non_null_type(items: Seq<JsonView>) -> Option<Seq<char>>
    decreases items.len(),
{
    if items.len() == 0 {
        None
    } else {
        match items[0] {
            JsonView::Str(s) => if unicode_lower(s) != "null"@ {
                Some(unicode_lower(s))
            } else {
                first_non_null_type(items.drop_first())
            },
            _ => first_non_null_type(items.drop_first()),
        }
    }
}

/// The schema's type, lowered: a `type` string, or the first non-null
/// string of a `type` list.
pub open spec fn read_type_spec(v: JsonView) -> Option<Seq<char>> {
    match get_spec(v, "type"@) {
        Some(JsonView::Str(s)) => Some(unicode_lower(s)),
        Some(JsonView::Array(items)) => first_non_null_type(items),
        _ => None,
    }
}

fn first_type_in(items: &Vec<JsonValue>) -> (r: Option<String>)
    ensures
        opt_view(r) == first_non_null_type(items_view(items@)),
{
    let mut i: usize = 0;
    proof {
        lemma_items_view(items@);
        assert(items_view(items@).subrange(0, items@.len() as int) =~= items_view(items@));
    }
    while i < items.len()
        invariant
            i <= items.len(),
            items_view(items@).len() == items@.len(),
            forall|j: int| 0 <= j < items@.len() ==> #[trigger] items_view(items@)[j] == json_view(items@[j]),
            first_non_null_type(items_view(items@)) == first_non_null_type(
                items_view(items@).subrange(i as int, items@.len() as int),
            ),
        decreases items.len() - i,
    {
        let ghost rest = items_view(items@).subrange(i as int, items@.len() as int);
        assert(rest.drop_first() =~= items_view(items@).subrange(i + 1, items@.len() as int));
        assert(rest[0] == json_view(items@[i as int]));
        match &items[i] {
            JsonValue::Str(s) => {
                let lowered = to_lowercase(s.as_str());
                if !str_equal(lowered.as_str(), "null") {
                    return Some(lowered);
                }
            },
            _ => {},
        }
        i = i + 1;
    }
    None
}

/// The schema's type, lowered.
pub fn read_type(v: &JsonValue) -> (r: Option<String>)
    ensures
        opt_view(r) == read_type_spec(v@),
{
    match v.get("type") {
        Some(JsonValue::Str(s)) => Some(to_lowercase(s.as_str())),
        Some(JsonValue::Array(items)) => first_type_in(items),
        _ => None,
    }
}

// ---------------------------------------------------------------------------
// Field kinds.

/// The text shown for one `enum` option: a string as is, anything else as
/// its JSON text.
pub open spec fn option_text(v: JsonView) -> Seq<char> {
    match v {
        JsonView::Str(s) => s,
        _ => json_text(v),
    }
}

pub open spec fn option_texts(items: Seq<JsonView>) -> Seq<Seq<char>> {
    items.map_values(|v: JsonView| option_text(v))
}

/// The member's value is a part of the value, so a definition that recurses
/// into it terminates.
pub proof fn lemma_get_decreases(v: JsonView, key: Seq<char>)
    requires
        get_spec(v, key) is Some,
    ensures
        decreases_to!(v => get_spec(v, key)->0),
{
    match v {
        JsonView::Object(entries) => {
            lemma_find_key(entries, key);
            let i = find_key(entries, key);
            vstd::seq::axiom_seq_index_decreases(entries, i);
            assert(decreases_to!(v => v->Object_0));
            assert(decreases_to!(entries[i] => entries[i].1));
        },
        _ => {},
    }
}

/// The kind of input a field's schema asks for: an `enum` list wins;
/// otherwise the type decides, with arrays taking the kind of their items,
/// which may not themselves be arrays.
pub open spec fn kind_spec(v: JsonView) -> Result<KindView, KindErrorView>
    decreases v, 1int,
{
    match key_value_of(v) {
        Some((k, x)) => Ok(KindView::KeyValue(k, x)),
        None => match composite_items(v) {
            Some((multi, items)) => Ok(KindView::Composite(multi, variants_spec(items))),
            None => kind_spec_plain(v),
        },
    }
}

/// Whether a member is absent or an empty object.
pub open spec fn absent_or_empty(v: JsonView, key: Seq<char>) -> bool {
    match get_spec(v, key) {
        None => true,
        Some(JsonView::Object(es)) => es.len() == 0,
        _ => false,
    }
}

/// The schema of map keys when `propertyNames` gives none: a string
/// titled `Key`.
pub open spec fn default_key_schema() -> JsonView {
    JsonView::Object(seq![("type"@, JsonView::Str("string"@)), ("title"@, JsonView::Str("Key"@))])
}

/// The key and value schemas of a map: an object schema whose
/// `additionalProperties` is a schema and which has no `properties` or
/// `patternProperties` of its own; keys follow `propertyNames` when given.
pub open spec fn key_value_of(v: JsonView) -> Option<(JsonView, JsonView)> {
    match get_spec(v, "additionalProperties"@) {
        Some(JsonView::Object(ve)) => if absent_or_empty(v, "properties"@) && absent_or_empty(v, "patternProperties"@) {
            Some(
                (
                    match get_spec(v, "propertyNames"@) {
                        Some(k) => k,
                        None => default_key_schema(),
                    },
                    JsonView::Object(ve),
                ),
            )
        } else {
            None
        },
        _ => None,
    }
}

/// The variant choice a schema offers: a non-empty `oneOf` (one active
/// variant), or else a non-empty `anyOf` (any number); an empty `oneOf`
/// offers none.
pub open spec fn composite_items(v: JsonView) -> Option<(bool, Seq<JsonView>)> {
    match get_spec(v, "oneOf"@) {
        Some(JsonView::Array(items)) => if items.len() > 0 {
            Some((false, items))
        } else {
            None
        },
        _ => match get_spec(v, "anyOf"@) {
            Some(JsonView::Array(items)) => if items.len() > 0 {
                Some((true, items))
            } else {
                None
            },
            _ => None,
        },
    }
}

/// Variant `i` of a choice: `variant_i`, titled by its `title` or else
/// `Variant i+1`, described by its `description`, with its schema.
pub open spec fn variant_spec(item: JsonView, i: int) -> VariantDesc {
    VariantDesc {
        id: "variant_"@ + decimal(i as nat),
        title: match get_str_spec(item, "title"@) {
            Some(t) => t,
            None => "Variant "@ + decimal((i + 1) as nat),
        },
        description: get_str_spec(item, "description"@),
        schema: item,
    }
}

pub open spec fn variants_spec(items: Seq<JsonView>) -> Seq<VariantDesc> {
    Seq::new(items.len(), |i: int| variant_spec(items[i], i))
}

/// The kind of a schema that offers no variant choice.
pub open spec fn kind_spec_plain(v: JsonView) -> Result<KindView, KindErrorView>
    decreases v, 0int,
{
    match get_spec(v, "enum"@) {
        Some(JsonView::Array(items)) => Ok(KindView::Enum(option_texts(items))),
        _ => match read_type_spec(v) {
            None => Ok(KindView::String),
            Some(t) => if t == "string"@ {
                Ok(KindView::String)
            } else if t == "integer"@ {
                Ok(KindView::Integer)
            } else if t == "number"@ {
                Ok(KindView::Number)
            } else if t == "boolean"@ {
                Ok(KindView::Boolean)
            } else if t == "array"@ {
                match get_spec(v, "items"@) {
                    None => Err(KindErrorView::MissingItems),
                    Some(items) => {
                        proof {
                            lemma_get_decreases(v, "items"@);
                        }
                        match kind_spec(items) {
                            Err(e) => Err(e),
                            Ok(inner) => if inner is Array {
                                Err(KindErrorView::NestedArray)
                            } else {
                                Ok(KindView::Array(Box::new(inner)))
                            },
                        }
                    },
                }
            } else {
                Err(KindErrorView::UnsupportedType(t))
            },
        },
    }
}

fn enum_options(items: &Vec<JsonValue>) -> (r: Vec<String>)
    ensures
        string_views(r@) == option_texts(items_view(items@)),
{
    let mut out: Vec<String> = Vec::new();
    let mut i: usize = 0;
    proof {
        lemma_items_view(items@);
    }
    while i < items.len()
        invariant
            i <= items.len(),
            items_view(items@).len() == items@.len(),
            forall|j: int| 0 <= j < items@.len() ==> #[trigger] items_view(items@)[j] == json_view(items@[j]),
            string_views(out@) == option_texts(items_view(items@).subrange(0, i as int)),
        decreases items.len() - i,
    {
        let text = match &items[i] {
            JsonValue::Str(s) => s.clone(),
            other => json_to_string(other),
        };
        let ghost before = out@;
        out.push(text);
        proof {
            assert(text@ == option_text(items_view(items@)[i as int]));
            assert(string_views(out@) =~= string_views(before).push(text@));
            assert(option_texts(items_view(items@).subrange(0, i + 1)) =~= option_texts(
                items_view(items@).subrange(0, i as int),
            ).push(option_text(items_view(items@)[i as int])));
        }
        i = i + 1;
    }
    proof {
        assert(items_view(items@).subrange(0, items@.len() as int) =~= items_view(items@));
    }
    out
}

fn kind_error_for_type(t: String) -> (r: Result<FieldKind, KindError>)
    ensures
        match r {
            Ok(k) => false,
            Err(e) => kind_error_view(e) == KindErrorView::UnsupportedType(t@),
        },
{
    Err(KindError::UnsupportedType(t))
}

/// The variants of a `oneOf` / `anyOf` choice, as the schema gives them.
fn composite_of(v: &JsonValue) -> (r: Option<CompositeField>)
    ensures
        match composite_items(v@) {
            Some((multi, items)) => r matches Some(c) && (c.mode is AnyOf) == multi && variant_descs(c.variants@)
                == variants_spec(items),
            None => r is None,
        },
{
    let (mode, items) = match v.get("oneOf") {
        Some(JsonValue::Array(items)) => {
            if items.len() == 0 {
                return None;
            }
            (CompositeMode::OneOf, items)
        },
        _ => match v.get("anyOf") {
            Some(JsonValue::Array(items)) => {
                if items.len() == 0 {
                    return None;
                }
                (CompositeMode::AnyOf, items)
            },
            _ => {
                return None;
            },
        },
    };
    proof {
        lemma_items_view(items@);
    }
    let ghost iv = items_view(items@);
    let mut variants: Vec<crate::composite::CompositeVariant> = Vec::new();
    let mut i: usize = 0;
    while i < items.len()
        invariant
            i <= items.len(),
            iv == items_view(items@),
            iv.len() == items@.len(),
            forall|j: int| 0 <= j < items@.len() ==> #[trigger] iv[j] == json_view(items@[j]),
            variants@.len() == i,
            forall|j: int| 0 <= j < i ==> #[trigger] variant_desc(variants@[j]) == variant_spec(iv[j], j),
        decreases items.len() - i,
    {
        let item = &items[i];
        let mut id = chars_of("variant_");
        push_decimal(&mut id, i as u64);
        let title = match get_str(item, "title") {
            Some(t) => t.to_string(),
            None => {
                let mut t = chars_of("Variant ");
                push_decimal(&mut t, (i + 1) as u64);
                string_from_chars(&t)
            },
        };
        let description = opt_owned(get_str(item, "description"));
        let variant = crate::composite::CompositeVariant {
            id: string_from_chars(&id),
            title,
            description,
            schema: copy_value(item),
        };
        assert(variant_desc(variant) == variant_spec(iv[i as int], i as int));
        variants.push(variant);
        i = i + 1;
    }
    assert(variant_descs(variants@) =~= variants_spec(iv));
    Some(CompositeField { mode, variants })
}

fn is_absent_or_empty(v: &JsonValue, key: &str) -> (r: bool)
    ensures
        r == absent_or_empty(v@, key@),
{
    match v.get(key) {
        None => true,
        Some(JsonValue::Object(es)) => {
            proof {
                lemma_entries_view(es@);
            }
            es.len() == 0
        },
        Some(_) => false,
    }
}

/// The key and value schemas of a map field.
pub fn key_value_fields(v: &JsonValue) -> (r: Option<(JsonValue, JsonValue)>)
    ensures
        match key_value_of(v@) {
            Some((k, x)) => r matches Some(p) && p.0@ == k && p.1@ == x,
            None => r is None,
        },
{
    match v.get("additionalProperties") {
        Some(JsonValue::Object(_)) => {},
        _ => {
            return None;
        },
    }
    if !(is_absent_or_empty(v, "properties") && is_absent_or_empty(v, "patternProperties")) {
        return None;
    }
    let value = match v.get("additionalProperties") {
        Some(x) => copy_value(x),
        None => {
            return None;
        },
    };
    let key = match v.get("propertyNames") {
        Some(k) => copy_value(k),
        None => {
            let mut es: Vec<(String, JsonValue)> = Vec::new();
            es.push(("type".to_string(), JsonValue::Str("string".to_string())));
            es.push(("title".to_string(), JsonValue::Str("Key".to_string())));
            proof {
                lemma_entries_view(es@);
                assert(entries_view(es@) =~= seq![("type"@, JsonView::Str("string"@)), ("title"@, JsonView::Str("Key"@))]);
            }
            JsonValue::Object(es)
        },
    };
    Some((key, value))
}

/// Detects the kind of input a field's schema asks for.
pub fn detect_kind(v: &JsonValue) -> (r: Result<FieldKind, KindError>)
    ensures
        match r {
            Ok(k) => kind_spec(v@) == Ok::<KindView, KindErrorView>(k@),
            Err(e) => kind_spec(v@) == Err::<KindView, KindErrorView>(kind_error_view(e)),
        },
    decreases v@, 1int,
{
    match key_value_fields(v) {
        Some((k, x)) => {
            return Ok(FieldKind::KeyValue(Box::new(k), Box::new(x)));
        },
        None => {},
    }
    match composite_of(v) {
        Some(c) => Ok(FieldKind::Composite(c)),
        None => detect_kind_plain(v),
    }
}

fn detect_kind_plain(v: &JsonValue) -> (r: Result<FieldKind, KindError>)
    ensures
        match r {
            Ok(k) => kind_spec_plain(v@) == Ok::<KindView, KindErrorView>(k@),
            Err(e) => kind_spec_plain(v@) == Err::<KindView, KindErrorView>(kind_error_view(e)),
        },
    decreases v@, 0int,
{
    match v.get("enum") {
        Some(JsonValue::Array(items)) => {
            return Ok(FieldKind::Enum(enum_options(items)));
        },
        _ => {},
    }
    match read_type(v) {
        None => Ok(FieldKind::String),
        Some(t) => {
            if str_equal(t.as_str(), "string") {
                Ok(FieldKind::String)
            } else if str_equal(t.as_str(), "integer") {
                Ok(FieldKind::Integer)
            } else if str_equal(t.as_str(), "number") {
                Ok(FieldKind::Number)
            } else if str_equal(t.as_str(), "boolean") {
                Ok(FieldKind::Boolean)
            } else if str_equal(t.as_str(), "array") {
                match v.get("items") {
                    None => Err(KindError::MissingItems),
                    Some(items) => {
                        proof {
                            lemma_get_decreases(v@, "items"@);
                        }
                        match detect_kind(items) {
                            Err(e) => Err(e),
                            Ok(inner) => {
                                match inner {
                                    FieldKind::Array(_) => Err(KindError::NestedArray),
                                    _ => Ok(FieldKind::Array(Box::new(inner))),
                                }
                            },
                        }
                    },
                }
            } else {
                kind_error_for_type(t)
            }
        },
    }
}


// ---------------------------------------------------------------------------
// Sections.

/// The identity of a section while the schema is read.
#[derive(Debug)]
pub struct SectionInfo {
    pub id: String,
    pub title: String,
    pub description: Option<String>,
    pub root: String,
    pub path: Vec<String>,
}

/// The view of a section's identity.
pub struct SectionInfoView {
    pub id: Seq<char>,
    pub title: Seq<char>,
    pub description: Option<Seq<char>>,
    pub root: Seq<char>,
    pub path: Seq<Seq<char>>,
}

impl View for SectionInfo {
    type V = SectionInfoView;

    open spec fn view(&self) -> SectionInfoView {
        SectionInfoView {
            id: self.id@,
            title: self.title@,
            description: opt_view(self.description),
            root: self.root@,
            path: string_views(self.path@),
        }
    }
}

pub open spec fn opt_section_view(s: Option<SectionInfo>) -> Option<SectionInfoView> {
    match s {
        Some(x) => Some(x@),
        None => None,
    }
}

fn clone_section(s: &SectionInfo) -> (r: SectionInfo)
    ensures
        r@ == s@,
{
    SectionInfo {
        id: s.id.clone(),
        title: s.title.clone(),
        description: clone_opt(&s.description),
        root: s.root.clone(),
        path: clone_strings(&s.path),
    }
}

/// The section of fields that belong to no other: `general`, titled
/// `General`, under the root tab of the same name.
pub open spec fn general_section() -> SectionInfoView {
    SectionInfoView { id: "general"@, title: "General"@, description: None, root: "general"@, path: Seq::empty() }
}

/// The `General` section.
pub fn general_section_info() -> (r: SectionInfo)
    ensures
        r@ == general_section(),
{
    let path: Vec<String> = Vec::new();
    assert(string_views(path@) =~= Seq::<Seq<char>>::empty());
    SectionInfo {
        id: "general".to_string(),
        title: "General".to_string(),
        description: None,
        root: "general".to_string(),
        path,
    }
}

/// The section an `x-group` member names, titled by `x-group-title` or
/// else by the group's label form, described by `x-group-description`, and
/// placed under the given root tab and path.
pub open spec fn group_section(v: JsonView, root: Seq<char>, path: Seq<Seq<char>>) -> Option<SectionInfoView> {
    match get_str_spec(v, "x-group"@) {
        Some(g) => Some(
            SectionInfoView {
                id: g,
                title: match get_str_spec(v, "x-group-title"@) {
                    Some(t) => t,
                    None => pretty_label(g),
                },
                description: get_str_spec(v, "x-group-description"@),
                root,
                path,
            },
        ),
        None => None,
    }
}

/// The root tab of an object at `path`: the top-level property it lies
/// under.
pub open spec fn root_of_path(path: Seq<Seq<char>>, name: Seq<char>) -> Seq<char> {
    if path.len() > 0 {
        path[0]
    } else {
        name
    }
}

/// The section a nested object at `path` opens: its group if it names one,
/// otherwise a section named after the property, titled by the object's
/// `title` or the property's label form, and described by the object's
/// `description` or else by the enclosing section's. Either way it lies
/// under the root tab of the top-level property, with the object's path as
/// its breadcrumb.
pub open spec fn object_section(
    v: JsonView,
    name: Seq<char>,
    parent: Option<SectionInfoView>,
    path: Seq<Seq<char>>,
) -> SectionInfoView {
    match group_section(v, root_of_path(path, name), path) {
        Some(s) => s,
        None => SectionInfoView {
            id: name,
            title: match get_str_spec(v, "title"@) {
                Some(t) => t,
                None => pretty_label(name),
            },
            description: match get_str_spec(v, "description"@) {
                Some(d) => Some(d),
                None => match parent {
                    Some(p) => p.description,
                    None => None,
                },
            },
            root: root_of_path(path, name),
            path,
        },
    }
}

/// The section enclosing a field: the parent section, otherwise a section
/// named after the first segment of a nested path, otherwise `General`.
pub open spec fn enclosing_section(path: Seq<Seq<char>>, parent: Option<SectionInfoView>) -> SectionInfoView {
    match parent {
        Some(p) => p,
        None => if path.len() > 1 {
            SectionInfoView {
                id: path[0],
                title: pretty_label(path[0]),
                description: None,
                root: path[0],
                path: seq![path[0]],
            }
        } else {
            general_section()
        },
    }
}

/// The section a field belongs to: its group if it names one (under the
/// enclosing section's root tab and path), otherwise the enclosing section.
pub open spec fn field_section(
    v: JsonView,
    path: Seq<Seq<char>>,
    parent: Option<SectionInfoView>,
) -> SectionInfoView {
    let enc = enclosing_section(path, parent);
    match group_section(v, enc.root, enc.path) {
        Some(s) => s,
        None => enc,
    }
}

fn group_section_of(v: &JsonValue, root: &String, path: &Vec<String>) -> (r: Option<SectionInfo>)
    ensures
        opt_section_view(r) == group_section(v@, root@, string_views(path@)),
{
    match get_str(v, "x-group") {
        Some(g) => {
            let title = match get_str(v, "x-group-title") {
                Some(t) => t.to_string(),
                None => prettify_label(g),
            };
            let description = opt_owned(get_str(v, "x-group-description"));
            Some(SectionInfo { id: g.to_string(), title, description, root: root.clone(), path: clone_strings(path) })
        },
        None => None,
    }
}

/// The section a nested object at `path` opens.
pub fn section_info_for_object(v: &JsonValue, name: &str, parent: &Option<SectionInfo>, path: &Vec<String>) -> (r: SectionInfo)
    ensures
        r@ == object_section(v@, name@, opt_section_view(*parent), string_views(path@)),
{
    let root = if path.len() > 0 {
        path[0].clone()
    } else {
        name.to_string()
    };
    match group_section_of(v, &root, path) {
        Some(s) => s,
        None => {
            let title = match get_str(v, "title") {
                Some(t) => t.to_string(),
                None => prettify_label(name),
            };
            let description = match get_str(v, "description") {
                Some(d) => Some(d.to_string()),
                None => match parent {
                    Some(p) => clone_opt(&p.description),
                    None => None,
                },
            };
            SectionInfo { id: name.to_string(), title, description, root, path: clone_strings(path) }
        },
    }
}

fn enclosing_section_of(path: &Vec<String>, parent: &Option<SectionInfo>) -> (r: SectionInfo)
    ensures
        r@ == enclosing_section(string_views(path@), opt_section_view(*parent)),
{
    match parent {
        Some(p) => clone_section(p),
        None => {
            if path.len() > 1 {
                let id = path[0].clone();
                let title = prettify_label(id.as_str());
                let mut crumbs: Vec<String> = Vec::new();
                crumbs.push(path[0].clone());
                assert(string_views(crumbs@) =~= seq![string_views(path@)[0]]);
                SectionInfo { id, title, description: None, root: path[0].clone(), path: crumbs }
            } else {
                general_section_info()
            }
        },
    }
}

/// The section a field belongs to.
pub fn section_info_for_field(v: &JsonValue, path: &Vec<String>, parent: &Option<SectionInfo>) -> (r: SectionInfo)
    ensures
        r@ == field_section(v@, string_views(path@), opt_section_view(*parent)),
{
    let enc = enclosing_section_of(path, parent);
    match group_section_of(v, &enc.root, &enc.path) {
        Some(s) => s,
        None => enc,
    }
}

// ---------------------------------------------------------------------------
// Fields.

/// The strings of a list, in order, skipping anything else.
pub open spec fn string_items(items: Seq<JsonView>) -> Seq<Seq<char>>
    decreases items.len(),
{
    if items.len() == 0 {
        Seq::empty()
    } else {
        let r = string_items(items.drop_last());
        match items.last() {
            JsonView::Str(s) => r.push(s),
            _ => r,
        }
    }
}

/// The names a schema's `required` list holds.
pub open spec fn required_names(schema: JsonView) -> Seq<Seq<char>> {
    match get_spec(schema, "required"@) {
        Some(JsonView::Array(items)) => string_items(items),
        _ => Seq::empty(),
    }
}

/// The members of an object whose names start with `x-`, in order.
pub open spec fn x_members(entries: Seq<(Seq<char>, JsonView)>) -> Seq<(Seq<char>, JsonView)>
    decreases entries.len(),
{
    if entries.len() == 0 {
        Seq::empty()
    } else {
        let r = x_members(entries.drop_last());
        if starts_with(entries.last().0, "x-"@) {
            r.push(entries.last())
        } else {
            r
        }
    }
}

/// A field's extension members (`x-…`).
pub open spec fn metadata_spec(v: JsonView) -> Seq<(Seq<char>, JsonView)> {
    match v {
        JsonView::Object(entries) => x_members(entries),
        _ => Seq::empty(),
    }
}

/// The field a property describes, or the reason its kind is refused.
pub open spec fn field_spec(
    v: JsonView,
    name: Seq<char>,
    path: Seq<Seq<char>>,
    section: SectionInfoView,
    required: bool,
) -> Result<FieldView, SchemaErrorView> {
    match kind_spec(v) {
        Err(e) => Err(SchemaErrorView::UnsupportedField(name, e)),
        Ok(kind) => Ok(
            FieldView {
                name,
                path,
                pointer: pointer_of(path),
                title: match get_str_spec(v, "title"@) {
                    Some(t) => t,
                    None => pretty_label(name),
                },
                description: get_str_spec(v, "description"@),
                section_id: section.id,
                kind,
                required,
                default: get_spec(v, "default"@),
                metadata: metadata_spec(v),
            },
        ),
    }
}

/// The names listed as required by a schema.
pub fn required_set(schema: &JsonValue) -> (r: Vec<String>)
    ensures
        string_views(r@) == required_names(schema@),
{
    let mut out: Vec<String> = Vec::new();
    match schema.get("required") {
        Some(JsonValue::Array(items)) => {
            let mut i: usize = 0;
            proof {
                lemma_items_view(items@);
            }
            while i < items.len()
                invariant
                    i <= items.len(),
                    items_view(items@).len() == items@.len(),
                    forall|j: int| 0 <= j < items@.len() ==> #[trigger] items_view(items@)[j] == json_view(items@[j]),
                    string_views(out@) == string_items(items_view(items@).subrange(0, i as int)),
                decreases items.len() - i,
            {
                let ghost pre = items_view(items@).subrange(0, i as int);
                let ghost post = items_view(items@).subrange(0, i + 1);
                assert(post.drop_last() =~= pre);
                assert(post.last() == json_view(items@[i as int]));
                match &items[i] {
                    JsonValue::Str(s) => {
                        let ghost before = out@;
                        out.push(s.clone());
                        assert(string_views(out@) =~= string_views(before).push(s@));
                    },
                    _ => {},
                }
                i = i + 1;
            }
            proof {
                assert(items_view(items@).subrange(0, items@.len() as int) =~= items_view(items@));
            }
        },
        _ => {},
    }
    out
}

fn contains_name(names: &Vec<String>, name: &str) -> (r: bool)
    ensures
        r == string_views(names@).contains(name@),
{
    let mut i: usize = 0;
    while i < names.len()
        invariant
            i <= names.len(),
            forall|j: int| 0 <= j < i ==> string_views(names@)[j] != name@,
        decreases names.len() - i,
    {
        if str_equal(names[i].as_str(), name) {
            assert(string_views(names@)[i as int] == name@);
            return true;
        }
        i = i + 1;
    }
    false
}

/// A field's extension members.
pub fn metadata_map(v: &JsonValue) -> (r: Vec<(String, JsonValue)>)
    ensures
        entries_view(r@) == metadata_spec(v@),
{
    let mut out: Vec<(String, JsonValue)> = Vec::new();
    match v {
        JsonValue::Object(entries) => {
            let mut i: usize = 0;
            proof {
                lemma_entries_view(entries@);
            }
            while i < entries.len()
                invariant
                    i <= entries.len(),
                    *v == JsonValue::Object(*entries),
                    entries_view(entries@).len() == entries@.len(),
                    forall|j: int|
                        0 <= j < entries@.len() ==> #[trigger] entries_view(entries@)[j] == (
                            entries@[j].0@,
                            json_view(entries@[j].1),
                        ),
                    entries_view(out@) == x_members(entries_view(entries@).subrange(0, i as int)),
                decreases entries.len() - i,
            {
                let ghost pre = entries_view(entries@).subrange(0, i as int);
                let ghost post = entries_view(entries@).subrange(0, i + 1);
                assert(post.drop_last() =~= pre);
                assert(post.last() == entries_view(entries@)[i as int]);
                if has_prefix(entries[i].0.as_str(), "x-") {
                    let k = entries[i].0.clone();
                    let c = copy_value(&entries[i].1);
                    let ghost before = out@;
                    out.push((k, c));
                    proof {
                        assert(out@.drop_last() =~= before);
                    }
                }
                i = i + 1;
            }
            proof {
                assert(entries_view(entries@).subrange(0, entries@.len() as int) =~= entries_view(entries@));
            }
        },
        _ => {},
    }
    out
}

fn copy_opt_value(v: Option<&JsonValue>) -> (r: Option<JsonValue>)
    ensures
        match v {
            Some(x) => opt_json_view(r) == Some(x@),
            None => r is None,
        },
{
    match v {
        Some(x) => Some(copy_value(x)),
        None => None,
    }
}

/// Builds the field a property describes.
pub fn build_field_schema(
    v: &JsonValue,
    name: &str,
    path: Vec<String>,
    section: SectionInfo,
    required: bool,
) -> (r: Result<FieldSchema, SchemaError>)
    ensures
        match r {
            Ok(f) => field_spec(v@, name@, string_views(path@), section@, required) == Ok::<FieldView, SchemaErrorView>(f@),
            Err(e) => field_spec(v@, name@, string_views(path@), section@, required) == Err::<FieldView, SchemaErrorView>(schema_error_view(e)),
        },
{
    let metadata = metadata_map(v);
    let kind = match detect_kind(v) {
        Ok(k) => k,
        Err(cause) => {
            return Err(SchemaError::UnsupportedField { name: name.to_string(), cause });
        },
    };
    let title = match get_str(v, "title") {
        Some(t) => t.to_string(),
        None => prettify_label(name),
    };
    let pointer = to_pointer(&path);
    let description = opt_owned(get_str(v, "description"));
    let default = copy_opt_value(v.get("default"));
    Ok(FieldSchema {
        name: name.to_string(),
        path,
        pointer,
        title,
        description,
        section_id: section.id,
        kind,
        required,
        default,
        metadata,
    })
}


// ---------------------------------------------------------------------------
// Walking the properties.

/// The first index holding `id`, or `-1`.
pub open spec fn first_index(ids: Seq<Seq<char>>, id: Seq<char>) -> int
    decreases ids.len(),
{
    if ids.len() == 0 {
        -1
    } else if ids[0] == id {
        0
    } else {
        let r = first_index(ids.drop_first(), id);
        if r < 0 {
            -1
        } else {
            r + 1
        }
    }
}

pub proof fn lemma_first_index(ids: Seq<Seq<char>>, id: Seq<char>)
    ensures
        -1 <= first_index(ids, id) < ids.len(),
        first_index(ids, id) >= 0 ==> ids[first_index(ids, id)] == id,
        forall|j: int|
            0 <= j < ids.len() && (first_index(ids, id) < 0 || j < first_index(ids, id))
                ==> #[trigger] ids[j] != id,
    decreases ids.len(),
{
    if ids.len() > 0 && ids[0] != id {
        lemma_first_index(ids.drop_first(), id);
        assert forall|j: int|
            0 <= j < ids.len() && (first_index(ids, id) < 0 || j < first_index(ids, id))
                implies #[trigger] ids[j] != id by {
            if j > 0 {
                assert(ids[j] == ids.drop_first()[j - 1]);
            }
        }
    }
}

/// The sections seen so far, in order, and the fields gathered for each
/// section id.
pub struct WalkState {
    pub meta: Seq<SectionInfoView>,
    pub slots: Seq<(Seq<char>, Seq<FieldView>)>,
}

pub open spec fn meta_ids(meta: Seq<SectionInfoView>) -> Seq<Seq<char>> {
    meta.map_values(|m: SectionInfoView| m.id)
}

pub open spec fn slot_ids(slots: Seq<(Seq<char>, Seq<FieldView>)>) -> Seq<Seq<char>> {
    slots.map_values(|s: (Seq<char>, Seq<FieldView>)| s.0)
}

/// A section is recorded the first time its id is seen.
pub open spec fn meta_insert(meta: Seq<SectionInfoView>, s: SectionInfoView) -> Seq<SectionInfoView> {
    if first_index(meta_ids(meta), s.id) >= 0 {
        meta
    } else {
        meta.push(s)
    }
}

/// A field list exists for the id.
pub open spec fn slot_ensure(slots: Seq<(Seq<char>, Seq<FieldView>)>, id: Seq<char>) -> Seq<(Seq<char>, Seq<FieldView>)> {
    if first_index(slot_ids(slots), id) >= 0 {
        slots
    } else {
        slots.push((id, Seq::empty()))
    }
}

/// The field is appended to the list of its section.
pub open spec fn slot_push(slots: Seq<(Seq<char>, Seq<FieldView>)>, id: Seq<char>, f: FieldView) -> Seq<(Seq<char>, Seq<FieldView>)> {
    let s2 = slot_ensure(slots, id);
    let k = first_index(slot_ids(s2), id);
    s2.update(k, (id, s2[k].1.push(f)))
}

/// The members under `properties`, when they form an object.
pub open spec fn props_of(schema: JsonView) -> Option<Seq<(Seq<char>, JsonView)>> {
    match get_spec(schema, "properties"@) {
        Some(JsonView::Object(p)) => Some(p),
        _ => None,
    }
}

pub open spec fn prop_count(schema: JsonView) -> nat {
    match props_of(schema) {
        Some(p) => p.len(),
        None => 0,
    }
}

/// Whether a property opens a nested group: its type is `object`, or it
/// has no type but has `properties`.
pub open spec fn is_object_spec(v: JsonView) -> bool {
    match read_type_spec(v) {
        Some(t) => t == "object"@,
        None => get_spec(v, "properties"@) is Some,
    }
}

/// Reads an object schema's properties in order into the state; fails when
/// it has none.
pub open spec fn walk(
    schema: JsonView,
    prefix: Seq<Seq<char>>,
    parent: Option<SectionInfoView>,
    st: WalkState,
) -> Result<WalkState, SchemaErrorView>
    decreases schema, prop_count(schema) + 2,
{
    match props_of(schema) {
        None => Err(SchemaErrorView::MissingProperties),
        Some(p) => walk_props(schema, p.len(), prefix, parent, st),
    }
}

/// Reads the first `n` properties.
pub open spec fn walk_props(
    schema: JsonView,
    n: nat,
    prefix: Seq<Seq<char>>,
    parent: Option<SectionInfoView>,
    st: WalkState,
) -> Result<WalkState, SchemaErrorView>
    decreases schema, n + 1,
{
    if n == 0 {
        Ok(st)
    } else {
        match walk_props(schema, (n - 1) as nat, prefix, parent, st) {
            Err(e) => Err(e),
            Ok(s1) => walk_step(schema, (n - 1) as nat, prefix, parent, s1),
        }
    }
}

/// Reads property `i`: a nested object opens its section and is read in
/// turn, unless it is a map or a variant choice; anything else becomes a
/// field of its section.
pub open spec fn walk_step(
    schema: JsonView,
    i: nat,
    prefix: Seq<Seq<char>>,
    parent: Option<SectionInfoView>,
    st: WalkState,
) -> Result<WalkState, SchemaErrorView>
    decreases schema, 0nat,
{
    match props_of(schema) {
        None => Ok(st),
        Some(p) => if i >= p.len() {
            Ok(st)
        } else {
            let name = p[i as int].0;
            let value = p[i as int].1;
            let next_path = prefix.push(name);
            if is_object_spec(value) && key_value_of(value) is None && composite_items(value) is None {
                let sec = object_section(value, name, parent, next_path);
                let st2 = WalkState { meta: meta_insert(st.meta, sec), slots: slot_ensure(st.slots, sec.id) };
                proof {
                    lemma_get_decreases(schema, "properties"@);
                    vstd::seq::axiom_seq_index_decreases(p, i as int);
                    assert(decreases_to!(get_spec(schema, "properties"@)->0 => p));
                    assert(decreases_to!(p[i as int] => p[i as int].1));
                }
                walk(value, next_path, Some(sec), st2)
            } else {
                let sec = field_section(value, next_path, parent);
                let meta2 = meta_insert(st.meta, sec);
                match field_spec(value, name, next_path, sec, required_names(schema).contains(name)) {
                    Err(e) => Err(e),
                    Ok(f) => Ok(WalkState { meta: meta2, slots: slot_push(st.slots, f.section_id, f) }),
                }
            }
        },
    }
}

/// Once reading fails, reading more properties fails the same way.
pub proof fn lemma_walk_props_err(
    schema: JsonView,
    n: nat,
    m: nat,
    prefix: Seq<Seq<char>>,
    parent: Option<SectionInfoView>,
    st: WalkState,
)
    requires
        n <= m,
        walk_props(schema, n, prefix, parent, st) is Err,
    ensures
        walk_props(schema, m, prefix, parent, st) == walk_props(schema, n, prefix, parent, st),
    decreases m - n,
{
    if n < m {
        lemma_walk_props_err(schema, n, (m - 1) as nat, prefix, parent, st);
    }
}

/// The sections in the order first seen, each with the fields gathered for
/// it.
pub open spec fn assemble(st: WalkState) -> Seq<SectionView> {
    st.meta.map_values(|m: SectionInfoView| SectionView {
        id: m.id,
        title: m.title,
        description: m.description,
        root: m.root,
        path: m.path,
        fields: {
            let k = first_index(slot_ids(st.slots), m.id);
            if k >= 0 {
                st.slots[k].1
            } else {
                Seq::empty()
            }
        },
    })
}

/// The form a schema describes: the root must be an object whose type, if
/// given, is `object`; its properties are read in order into sections.
pub open spec fn parse_spec(schema: JsonView) -> Result<FormView, SchemaErrorView> {
    if !(schema is Object) {
        Err(SchemaErrorView::NotAnObject)
    } else {
        let t = match read_type_spec(schema) {
            Some(t) => t,
            None => "object"@,
        };
        if t != "object"@ {
            Err(SchemaErrorView::RootNotObject(t))
        } else {
            match walk(schema, Seq::empty(), None, WalkState { meta: Seq::empty(), slots: Seq::empty() }) {
                Err(e) => Err(e),
                Ok(st) => Ok(
                    FormView {
                        title: get_str_spec(schema, "title"@),
                        description: get_str_spec(schema, "description"@),
                        sections: assemble(st),
                    },
                ),
            }
        }
    }
}


pub open spec fn meta_view(m: Seq<SectionInfo>) -> Seq<SectionInfoView> {
    m.map_values(|s: SectionInfo| s@)
}

pub open spec fn slot_view(e: (String, Vec<FieldSchema>)) -> (Seq<char>, Seq<FieldView>) {
    (e.0@, fields_view(e.1@))
}

pub open spec fn slots_view(s: Seq<(String, Vec<FieldSchema>)>) -> Seq<(Seq<char>, Seq<FieldView>)> {
    s.map_values(|e: (String, Vec<FieldSchema>)| slot_view(e))
}

fn find_meta(meta: &Vec<SectionInfo>, id: &str) -> (r: Option<usize>)
    ensures
        match r {
            Some(k) => k == first_index(meta_ids(meta_view(meta@)), id@),
            None => first_index(meta_ids(meta_view(meta@)), id@) < 0,
        },
{
    let ghost ids = meta_ids(meta_view(meta@));
    proof {
        lemma_first_index(ids, id@);
    }
    let mut i: usize = 0;
    while i < meta.len()
        invariant
            i <= meta.len(),
            ids == meta_ids(meta_view(meta@)),
            ids.len() == meta@.len(),
            forall|j: int| 0 <= j < i ==> #[trigger] ids[j] != id@,
            -1 <= first_index(ids, id@) < ids.len(),
            first_index(ids, id@) >= 0 ==> ids[first_index(ids, id@)] == id@,
            forall|j: int|
                0 <= j < ids.len() && (first_index(ids, id@) < 0 || j < first_index(ids, id@))
                    ==> #[trigger] ids[j] != id@,
        decreases meta.len() - i,
    {
        if str_equal(meta[i].id.as_str(), id) {
            assert(ids[i as int] == id@);
            let ghost f = first_index(ids, id@);
            assert(f == i) by {
                if f >= 0 && f < i {
                    assert(ids[f] != id@);
                }
            }
            return Some(i);
        }
        assert(ids[i as int] != id@);
        i = i + 1;
    }
    None
}

fn find_slot(slots: &Vec<(String, Vec<FieldSchema>)>, id: &str) -> (r: Option<usize>)
    ensures
        match r {
            Some(k) => k == first_index(slot_ids(slots_view(slots@)), id@),
            None => first_index(slot_ids(slots_view(slots@)), id@) < 0,
        },
{
    let ghost ids = slot_ids(slots_view(slots@));
    proof {
        lemma_first_index(ids, id@);
    }
    let mut i: usize = 0;
    while i < slots.len()
        invariant
            i <= slots.len(),
            ids == slot_ids(slots_view(slots@)),
            ids.len() == slots@.len(),
            forall|j: int| 0 <= j < i ==> #[trigger] ids[j] != id@,
            -1 <= first_index(ids, id@) < ids.len(),
            first_index(ids, id@) >= 0 ==> ids[first_index(ids, id@)] == id@,
            forall|j: int|
                0 <= j < ids.len() && (first_index(ids, id@) < 0 || j < first_index(ids, id@))
                    ==> #[trigger] ids[j] != id@,
        decreases slots.len() - i,
    {
        if str_equal(slots[i].0.as_str(), id) {
            assert(ids[i as int] == id@);
            let ghost f = first_index(ids, id@);
            assert(f == i) by {
                if f >= 0 && f < i {
                    assert(ids[f] != id@);
                }
            }
            return Some(i);
        }
        assert(ids[i as int] != id@);
        i = i + 1;
    }
    None
}

fn meta_insert_exec(meta: &mut Vec<SectionInfo>, s: SectionInfo)
    ensures
        meta_view(final(meta)@) == meta_insert(meta_view(old(meta)@), s@),
{
    match find_meta(meta, s.id.as_str()) {
        Some(_) => {},
        None => {
            let ghost before = meta@;
            meta.push(s);
            assert(meta_view(meta@) =~= meta_view(before).push(s@));
        },
    }
}

fn slot_ensure_exec(slots: &mut Vec<(String, Vec<FieldSchema>)>, id: &str)
    ensures
        slots_view(final(slots)@) == slot_ensure(slots_view(old(slots)@), id@),
{
    match find_slot(slots, id) {
        Some(_) => {},
        None => {
            let ghost before = slots@;
            let empty: Vec<FieldSchema> = Vec::new();
            slots.push((id.to_string(), empty));
            assert(fields_view(empty@) =~= Seq::<FieldView>::empty());
            assert(slots_view(slots@) =~= slots_view(before).push((id@, Seq::<FieldView>::empty())));
        },
    }
}

fn slot_push_exec(slots: &mut Vec<(String, Vec<FieldSchema>)>, f: FieldSchema)
    ensures
        slots_view(final(slots)@) == slot_push(slots_view(old(slots)@), f@.section_id, f@),
{
    let id = f.section_id.clone();
    slot_ensure_exec(slots, id.as_str());
    let ghost s2 = slots_view(slots@);
    proof {
        lemma_first_index(slot_ids(s2), id@);
        if first_index(slot_ids(slots_view(old(slots)@)), id@) < 0 {
            assert(slot_ids(s2)[s2.len() - 1] == id@);
        }
    }
    match find_slot(slots, id.as_str()) {
        Some(k) => {
            let ghost before = slots@;
            let mut entry = slots.remove(k);
            let ghost fv = f@;
            entry.1.push(f);
            slots.insert(k, entry);
            proof {
                assert(slots@ =~= before.update(k as int, entry));
                assert(slot_ids(s2)[k as int] == id@);
                assert(fields_view(entry.1@) =~= fields_view(before[k as int].1@).push(fv));
                assert(slots_view(slots@) =~= s2.update(k as int, (id@, s2[k as int].1.push(fv))));
            }
        },
        None => {
            proof {
                assert(false);
            }
        },
    }
}

/// A deep copy of a field description.
pub fn clone_field(f: &FieldSchema) -> (r: FieldSchema)
    ensures
        r@ == f@,
{
    let default = match &f.default {
        Some(v) => Some(copy_value(v)),
        None => None,
    };
    FieldSchema {
        name: f.name.clone(),
        path: clone_strings(&f.path),
        pointer: f.pointer.clone(),
        title: f.title.clone(),
        description: clone_opt(&f.description),
        section_id: f.section_id.clone(),
        kind: clone_kind(&f.kind),
        required: f.required,
        default,
        metadata: copy_entries(&f.metadata),
    }
}

fn clone_fields(v: &Vec<FieldSchema>) -> (r: Vec<FieldSchema>)
    ensures
        fields_view(r@) == fields_view(v@),
{
    let mut out: Vec<FieldSchema> = Vec::new();
    let mut i: usize = 0;
    while i < v.len()
        invariant
            i <= v.len(),
            fields_view(out@) == fields_view(v@.subrange(0, i as int)),
        decreases v.len() - i,
    {
        let c = clone_field(&v[i]);
        let ghost before = out@;
        out.push(c);
        proof {
            assert(fields_view(out@) =~= fields_view(before).push(c@));
            assert(fields_view(v@.subrange(0, i + 1)) =~= fields_view(v@.subrange(0, i as int)).push(v@[i as int]@));
        }
        i = i + 1;
    }
    assert(v@.subrange(0, v.len() as int) =~= v@);
    out
}

/// Whether a property opens a nested group.
pub fn is_object(v: &JsonValue) -> (r: bool)
    ensures
        r == is_object_spec(v@),
{
    match read_type(v) {
        Some(t) => str_equal(t.as_str(), "object"),
        None => v.get("properties").is_some(),
    }
}

/// Reads an object schema's properties into the sections and field lists.
fn parse_object_fields(
    schema: &JsonValue,
    prefix: &Vec<String>,
    parent: &Option<SectionInfo>,
    meta: &mut Vec<SectionInfo>,
    slots: &mut Vec<(String, Vec<FieldSchema>)>,
) -> (r: Result<(), SchemaError>)
    ensures
        ({
            let st0 = WalkState { meta: meta_view(old(meta)@), slots: slots_view(old(slots)@) };
            let w = walk(schema@, string_views(prefix@), opt_section_view(*parent), st0);
            match r {
                Ok(_) => w == Ok::<WalkState, SchemaErrorView>(
                    WalkState { meta: meta_view(final(meta)@), slots: slots_view(final(slots)@) },
                ),
                Err(e) => w == Err::<WalkState, SchemaErrorView>(schema_error_view(e)),
            }
        }),
    decreases schema@,
{
    let ghost st0 = WalkState { meta: meta_view(meta@), slots: slots_view(slots@) };
    let ghost pv = string_views(prefix@);
    let ghost parv = opt_section_view(*parent);
    let props = match schema.get("properties") {
        Some(JsonValue::Object(p)) => p,
        _ => {
            return Err(SchemaError::MissingProperties);
        },
    };
    proof {
        lemma_entries_view(props@);
    }
    let ghost pview = entries_view(props@);
    assert(props_of(schema@) == Some(pview));
    let required = required_set(schema);
    let mut i: usize = 0;
    while i < props.len()
        invariant
            i <= props.len(),
            pview == entries_view(props@),
            pview.len() == props@.len(),
            forall|j: int| 0 <= j < props@.len() ==> #[trigger] pview[j] == (props@[j].0@, json_view(props@[j].1)),
            props_of(schema@) == Some(pview),
            string_views(required@) == required_names(schema@),
            pv == string_views(prefix@),
            parv == opt_section_view(*parent),
            st0 == (WalkState { meta: meta_view(old(meta)@), slots: slots_view(old(slots)@) }),
            walk_props(schema@, i as nat, pv, parv, st0) == Ok::<WalkState, SchemaErrorView>(
                WalkState { meta: meta_view(meta@), slots: slots_view(slots@) },
            ),
        decreases props.len() - i,
    {
        let ghost cur = WalkState { meta: meta_view(meta@), slots: slots_view(slots@) };
        let name = &props[i].0;
        let value = &props[i].1;
        let ghost namev = pview[i as int].0;
        let ghost valuev = pview[i as int].1;
        assert(namev == name@);
        assert(valuev == value@);
        let mut next_path = clone_strings(prefix);
        next_path.push(name.clone());
        assert(string_views(next_path@) =~= pv.push(namev));
        assert(walk_props(schema@, (i + 1) as nat, pv, parv, st0) == walk_step(schema@, i as nat, pv, parv, cur));
        if is_object(value) && key_value_fields(value).is_none() && composite_of(value).is_none() {
            let sec = section_info_for_object(value, name.as_str(), parent, &next_path);
            let ghost secv = sec@;
            meta_insert_exec(meta, clone_section(&sec));
            slot_ensure_exec(slots, sec.id.as_str());
            let sub_parent = Some(sec);
            proof {
                lemma_get_decreases(schema@, "properties"@);
                vstd::seq::axiom_seq_index_decreases(pview, i as int);
                assert(decreases_to!(get_spec(schema@, "properties"@)->0 => pview));
                assert(decreases_to!(pview[i as int] => pview[i as int].1));
            }
            let ghost st2 = WalkState { meta: meta_view(meta@), slots: slots_view(slots@) };
            assert(st2 == WalkState { meta: meta_insert(cur.meta, secv), slots: slot_ensure(cur.slots, secv.id) });
            assert(is_object_spec(valuev));
            assert(walk_step(schema@, i as nat, pv, parv, cur) == walk(valuev, pv.push(namev), Some(secv), st2));
            match parse_object_fields(value, &next_path, &sub_parent, meta, slots) {
                Ok(()) => {},
                Err(e) => {
                    proof {
                        assert(walk_props(schema@, (i + 1) as nat, pv, parv, st0) == Err::<WalkState, SchemaErrorView>(schema_error_view(e)));
                        lemma_walk_props_err(schema@, (i + 1) as nat, pview.len(), pv, parv, st0);
                    }
                    return Err(e);
                },
            }
        } else {
            let section = section_info_for_field(value, &next_path, parent);
            meta_insert_exec(meta, clone_section(&section));
            let req = contains_name(&required, name.as_str());
            match build_field_schema(value, name.as_str(), next_path, section, req) {
                Ok(f) => {
                    slot_push_exec(slots, f);
                },
                Err(e) => {
                    proof {
                        lemma_walk_props_err(schema@, (i + 1) as nat, pview.len(), pv, parv, st0);
                    }
                    return Err(e);
                },
            }
        }
        i = i + 1;
    }
    Ok(())
}

fn assemble_sections(meta: Vec<SectionInfo>, slots: &Vec<(String, Vec<FieldSchema>)>) -> (r: Vec<FormSection>)
    ensures
        sections_view(r@) == assemble(WalkState { meta: meta_view(meta@), slots: slots_view(slots@) }),
{
    let ghost st = WalkState { meta: meta_view(meta@), slots: slots_view(slots@) };
    let mut out: Vec<FormSection> = Vec::new();
    let mut i: usize = 0;
    while i < meta.len()
        invariant
            i <= meta.len(),
            st == (WalkState { meta: meta_view(meta@), slots: slots_view(slots@) }),
            sections_view(out@) == assemble(st).subrange(0, i as int),
        decreases meta.len() - i,
    {
        let m = &meta[i];
        proof {
            lemma_first_index(slot_ids(slots_view(slots@)), m.id@);
        }
        let fields = match find_slot(slots, m.id.as_str()) {
            Some(k) => clone_fields(&slots[k].1),
            None => {
                let empty: Vec<FieldSchema> = Vec::new();
                assert(fields_view(empty@) =~= Seq::<FieldView>::empty());
                empty
            },
        };
        let sec = FormSection {
            id: m.id.clone(),
            title: m.title.clone(),
            description: clone_opt(&m.description),
            root: m.root.clone(),
            path: clone_strings(&m.path),
            fields,
        };
        let ghost before = out@;
        out.push(sec);
        proof {
            assert(meta_view(meta@)[i as int] == meta@[i as int]@);
            assert(form_section_view(sec).fields == assemble(st)[i as int].fields);
            assert(form_section_view(sec) == assemble(st)[i as int]);
            assert(sections_view(out@) =~= sections_view(before).push(form_section_view(sec)));
            assert(assemble(st).subrange(0, i + 1) =~= assemble(st).subrange(0, i as int).push(assemble(st)[i as int]));
        }
        i = i + 1;
    }
    assert(assemble(st).subrange(0, meta.len() as int) =~= assemble(st));
    out
}

/// The form a schema describes once its references are resolved.
pub open spec fn parse_with_refs(schema: JsonView) -> Result<FormView, SchemaErrorView> {
    match crate::refs::resolved(schema, schema, crate::refs::MAX_REF_DEPTH as nat) {
        Err(m) => Err(SchemaErrorView::Reference(m)),
        Ok(inline) => parse_spec(inline),
    }
}

/// Reads a JSON Schema document into a form: its `$ref` references are
/// resolved first (see `refs`), then the document must be an object whose
/// type, if given, is `object`, and every nested object must define
/// `properties`.
pub fn parse_form_schema(schema: &JsonValue) -> (r: Result<FormSchema, SchemaError>)
    ensures
        match r {
            Ok(f) => parse_with_refs(schema@) == Ok::<FormView, SchemaErrorView>(f@),
            Err(e) => parse_with_refs(schema@) == Err::<FormView, SchemaErrorView>(schema_error_view(e)),
        },
{
    match crate::refs::resolve(schema, schema, crate::refs::MAX_REF_DEPTH) {
        Err(m) => Err(SchemaError::Reference(m)),
        Ok(inline) => parse_resolved_schema(&inline),
    }
}

/// Reads a schema without references into a form: the document must be an
/// object whose type, if given, is `object`, and every nested object must
/// define `properties`.
pub fn parse_resolved_schema(schema: &JsonValue) -> (r: Result<FormSchema, SchemaError>)
    ensures
        match r {
            Ok(f) => parse_spec(schema@) == Ok::<FormView, SchemaErrorView>(f@),
            Err(e) => parse_spec(schema@) == Err::<FormView, SchemaErrorView>(schema_error_view(e)),
        },
{
    if !schema.is_object() {
        return Err(SchemaError::NotAnObject);
    }
    let t = match read_type(schema) {
        Some(t) => t,
        None => "object".to_string(),
    };
    if !str_equal(t.as_str(), "object") {
        return Err(SchemaError::RootNotObject(t));
    }
    let mut meta: Vec<SectionInfo> = Vec::new();
    let mut slots: Vec<(String, Vec<FieldSchema>)> = Vec::new();
    let prefix: Vec<String> = Vec::new();
    let parent: Option<SectionInfo> = None;
    proof {
        assert(meta_view(meta@) =~= Seq::<SectionInfoView>::empty());
        assert(slots_view(slots@) =~= Seq::<(Seq<char>, Seq<FieldView>)>::empty());
        assert(string_views(prefix@) =~= Seq::<Seq<char>>::empty());
    }
    match parse_object_fields(schema, &prefix, &parent, &mut meta, &mut slots) {
        Ok(()) => {},
        Err(e) => {
            return Err(e);
        },
    }
    let title = opt_owned(get_str(schema, "title"));
    let description = opt_owned(get_str(schema, "description"));
    let sections = assemble_sections(meta, &slots);
    Ok(FormSchema { title, description, sections })
}


/// The message a schema error is reported with.
pub open spec fn schema_error_text(e: SchemaErrorView) -> Seq<char> {
    match e {
        SchemaErrorView::NotAnObject => "schema must be a JSON object"@,
        SchemaErrorView::RootNotObject(t) => "root schema must be an object, found "@ + t,
        SchemaErrorView::MissingProperties => "object schema must define properties"@,
        SchemaErrorView::UnsupportedField(name, _) => "unsupported schema for field '"@ + name + "'"@,
        SchemaErrorView::Reference(m) => m,
    }
}

/// The message a kind error is reported with.
pub open spec fn kind_error_text(e: KindErrorView) -> Seq<char> {
    match e {
        KindErrorView::MissingItems => "array schema must define items"@,
        KindErrorView::NestedArray => "nested arrays are not supported"@,
        KindErrorView::UnsupportedType(t) => "unsupported field type "@ + t,
    }
}

impl KindError {
    /// The reason, as it is reported.
    pub fn message(&self) -> (r: String)
        ensures
            r@ == kind_error_text(kind_error_view(*self)),
    {
        match self {
            KindError::MissingItems => "array schema must define items".to_string(),
            KindError::NestedArray => "nested arrays are not supported".to_string(),
            KindError::UnsupportedType(t) => {
                let mut out = chars_of("unsupported field type ");
                crate::text::push_str(&mut out, t.as_str());
                crate::text::string_from_chars(&out)
            },
        }
    }
}

impl SchemaError {
    /// The error, as it is reported.
    pub fn message(&self) -> (r: String)
        ensures
            r@ == schema_error_text(schema_error_view(*self)),
    {
        match self {
            SchemaError::NotAnObject => "schema must be a JSON object".to_string(),
            SchemaError::RootNotObject(t) => {
                let mut out = chars_of("root schema must be an object, found ");
                crate::text::push_str(&mut out, t.as_str());
                crate::text::string_from_chars(&out)
            },
            SchemaError::MissingProperties => "object schema must define properties".to_string(),
            SchemaError::Reference(m) => m.clone(),
            SchemaError::UnsupportedField { name, .. } => {
                let mut out = chars_of("unsupported schema for field '");
                crate::text::push_str(&mut out, name.as_str());
                crate::text::push_str(&mut out, "'");
                crate::text::string_from_chars(&out)
            },
        }
    }
}

/// A schema without an `enum` list, a variant choice or a map takes its
/// kind from its scalar `type`: `string`, `integer`, `number` and
/// `boolean` give the kinds of those names.
pub proof fn lemma_scalar_types(v: JsonView)
    requires
        !(get_spec(v, "enum"@) matches Some(JsonView::Array(_))),
        composite_items(v) is None,
        key_value_of(v) is None,
    ensures
        read_type_spec(v) == Some("string"@) ==> kind_spec(v) == Ok::<KindView, KindErrorView>(KindView::String),
        read_type_spec(v) == Some("integer"@) ==> kind_spec(v) == Ok::<KindView, KindErrorView>(KindView::Integer),
        read_type_spec(v) == Some("number"@) ==> kind_spec(v) == Ok::<KindView, KindErrorView>(KindView::Number),
        read_type_spec(v) == Some("boolean"@) ==> kind_spec(v) == Ok::<KindView, KindErrorView>(KindView::Boolean),
{
    reveal_strlit("string");
    reveal_strlit("integer");
    reveal_strlit("number");
    reveal_strlit("boolean");
    assert("integer"@ != "string"@) by {
        assert("integer"@[0] != "string"@[0]);
    }
    assert("number"@ != "string"@) by {
        assert("number"@[0] != "string"@[0]);
    }
    assert("number"@ != "integer"@) by {
        assert("number"@[0] != "integer"@[0]);
    }
    assert("boolean"@ != "string"@) by {
        assert("boolean"@[0] != "string"@[0]);
    }
    assert("boolean"@ != "integer"@) by {
        assert("boolean"@[0] != "integer"@[0]);
    }
    assert("boolean"@ != "number"@) by {
        assert("boolean"@[0] != "number"@[0]);
    }
}

/// A schema with an `enum` list of strings (and no variant choice or map)
/// offers exactly those strings, in order.
pub proof fn lemma_string_enum(v: JsonView, items: Seq<JsonView>)
    requires
        get_spec(v, "enum"@) == Some(JsonView::Array(items)),
        forall|i: int| 0 <= i < items.len() ==> #[trigger] items[i] is Str,
        composite_items(v) is None,
        key_value_of(v) is None,
    ensures
        kind_spec(v) == Ok::<KindView, KindErrorView>(KindView::Enum(Seq::new(items.len(), |i: int| items[i]->Str_0))),
{
    assert(option_texts(items) =~= Seq::new(items.len(), |i: int| items[i]->Str_0));
}

/// An `array` schema whose `items` have a kind other than an array (and
/// no `enum`, variant choice or map of its own) is an array of that kind.
pub proof fn lemma_array_of_items(v: JsonView, items: JsonView, k: KindView)
    requires
        !(get_spec(v, "enum"@) matches Some(JsonView::Array(_))),
        composite_items(v) is None,
        key_value_of(v) is None,
        read_type_spec(v) == Some("array"@),
        get_spec(v, "items"@) == Some(items),
        kind_spec(items) == Ok::<KindView, KindErrorView>(k),
        !(k is Array),
    ensures
        kind_spec(v) == Ok::<KindView, KindErrorView>(KindView::Array(Box::new(k))),
{
    reveal_strlit("string");
    reveal_strlit("integer");
    reveal_strlit("number");
    reveal_strlit("boolean");
    reveal_strlit("array");
    assert("array"@ != "string"@) by {
        assert("array"@[0] != "string"@[0]);
    }
    assert("array"@ != "integer"@) by {
        assert("array"@[0] != "integer"@[0]);
    }
    assert("array"@ != "number"@) by {
        assert("array"@[0] != "number"@[0]);
    }
    assert("array"@ != "boolean"@) by {
        assert("array"@[0] != "boolean"@[0]);
    }
}

} // verus!

//! JSON values as the library sees them: a document tree whose objects keep
//! their members in order, with a mathematical view used by the contracts.

use vstd::prelude::*;
use crate::text::{chars_equal, chars_of, decimal, push_decimal, push_str, string_from_chars};

verus! {

/// A JSON number: integers exactly, other numbers by their JSON text.
#[derive(Debug, PartialEq)]
pub enum JsonNumber {
    PosInt(u64),
    NegInt(i64),
    Float(String),
}

/// A JSON document. Object members keep the order in which they were read.
#[derive(Debug, PartialEq)]
pub enum JsonValue {
    Null,
    Bool(bool),
    Number(JsonNumber),
    Str(String),
    Array(Vec<JsonValue>),
    Object(Vec<(String, JsonValue)>),
}

/// The view of a JSON number.
pub enum NumberView {
    PosInt(u64),
    NegInt(i64),
    Float(Seq<char>),
}

/// The view of a JSON document.
pub enum JsonView {
    Null,
    Bool(bool),
    Number(NumberView),
    Str(Seq<char>),
    Array(Seq<JsonView>),
    Object(Seq<(Seq<char>, JsonView)>),
}

pub open spec fn number_view(n: JsonNumber) -> NumberView {
    match n {
        JsonNumber::PosInt(u) => NumberView::PosInt(u),
        JsonNumber::NegInt(i) => NumberView::NegInt(i),
        JsonNumber::Float(t) => NumberView::Float(t@),
    }
}

pub open spec fn json_view(v: JsonValue) -> JsonView
    decreases v, 0int,
{
    match v {
        JsonValue::Null => JsonView::Null,
        JsonValue::Bool(b) => JsonView::Bool(b),
        JsonValue::Number(n) => JsonView::Number(number_view(n)),
        JsonValue::Str(s) => JsonView::Str(s@),
        JsonValue::Array(items) => JsonView::Array(items_view(items@)),
        JsonValue::Object(entries) => JsonView::Object(entries_view(entries@)),
    }
}

pub open spec fn items_view(s: Seq<JsonValue>) -> Seq<JsonView>
    decreases s, 1int,
{
    if s.len() == 0 {
        Seq::empty()
    } else {
        items_view(s.drop_last()).push(json_view(s.last()))
    }
}

pub open spec fn entries_view(s: Seq<(String, JsonValue)>) -> Seq<(Seq<char>, JsonView)>
    decreases s, 1int,
{
    if s.len() == 0 {
        Seq::empty()
    } else {
        entries_view(s.drop_last()).push((s.last().0@, json_view(s.last().1)))
    }
}

impl View for JsonValue {
    type V = JsonView;

    open spec fn view(&self) -> JsonView {
        json_view(*self)
    }
}

/// The view of a sequence of values is taken element by element.
pub proof fn lemma_items_view(s: Seq<JsonValue>)
    ensures
        items_view(s).len() == s.len(),
        forall|i: int| 0 <= i < s.len() ==> #[trigger] items_view(s)[i] == json_view(s[i]),
    decreases s.len(),
{
    if s.len() > 0 {
        lemma_items_view(s.drop_last());
    }
}

/// The view of a sequence of members is taken member by member.
pub proof fn lemma_entries_view(s: Seq<(String, JsonValue)>)
    ensures
        entries_view(s).len() == s.len(),
        forall|i: int|
            0 <= i < s.len() ==> #[trigger] entries_view(s)[i] == (s[i].0@, json_view(s[i].1)),
    decreases s.len(),
{
    if s.len() > 0 {
        lemma_entries_view(s.drop_last());
    }
}

/// The index of the first member named `key`, or `-1` when there is none.
pub open spec fn find_key(entries: Seq<(Seq<char>, JsonView)>, key: Seq<char>) -> int
    decreases entries.len(),
{
    if entries.len() == 0 {
        -1
    } else if entries[0].0 == key {
        0
    } else {
        let r = find_key(entries.drop_first(), key);
        if r < 0 {
            -1
        } else {
            r + 1
        }
    }
}

/// `find_key` is the first index whose member has the key.
pub proof fn lemma_find_key(entries: Seq<(Seq<char>, JsonView)>, key: Seq<char>)
    ensures
        -1 <= find_key(entries, key) < entries.len(),
        find_key(entries, key) >= 0 ==> entries[find_key(entries, key)].0 == key,
        forall|j: int|
            0 <= j < entries.len() && (find_key(entries, key) < 0 || j < find_key(entries, key))
                ==> #[trigger] entries[j].0 != key,
    decreases entries.len(),
{
    if entries.len() > 0 && entries[0].0 != key {
        lemma_find_key(entries.drop_first(), key);
        assert forall|j: int|
            0 <= j < entries.len() && (find_key(entries, key) < 0 || j < find_key(entries, key))
                implies #[trigger] entries[j].0 != key by {
            if j > 0 {
                assert(entries[j] == entries.drop_first()[j - 1]);
            }
        }
    }
}

/// The value of the member named `key` of an object; `None` for a missing
/// member or a value that is not an object (`Value::get`).
pub open spec fn get_spec(v: JsonView, key: Seq<char>) -> Option<JsonView> {
    match v {
        JsonView::Object(entries) => {
            let i = find_key(entries, key);
            if i >= 0 {
                Some(entries[i].1)
            } else {
                None
            }
        },
        _ => None,
    }
}

/// The text of a string value (`Value::as_str`).
pub open spec fn as_str_spec(v: JsonView) -> Option<Seq<char>> {
    match v {
        JsonView::Str(s) => Some(s),
        _ => None,
    }
}

/// The value of a member, when it is a string.
pub open spec fn get_str_spec(v: JsonView, key: Seq<char>) -> Option<Seq<char>> {
    match get_spec(v, key) {
        Some(m) => as_str_spec(m),
        None => None,
    }
}

/// Whether the value is `null`.
pub open spec fn is_null_spec(v: JsonView) -> bool {
    v is Null
}

impl JsonValue {
    /// Finds the member named `key` of an object.
    pub fn get(&self, key: &str) -> (r: Option<&JsonValue>)
        ensures
            match r {
                Some(m) => get_spec(self@, key@) == Some(m@),
                None => get_spec(self@, key@) is None,
            },
    {
        match self {
            JsonValue::Object(entries) => {
                let k = chars_of(key);
                let mut i: usize = 0;
                proof {
                    lemma_entries_view(entries@);
                    lemma_find_key(entries_view(entries@), key@);
                }
                while i < entries.len()
                    invariant
                        i <= entries.len(),
                        k@ == key@,
                        *self == JsonValue::Object(*entries),
                        entries_view(entries@).len() == entries@.len(),
                        forall|j: int| 0 <= j < i ==> #[trigger] entries_view(entries@)[j].0 != key@,
                        forall|j: int|
                            0 <= j < entries@.len() ==> #[trigger] entries_view(entries@)[j] == (
                                entries@[j].0@,
                                json_view(entries@[j].1),
                            ),
                        -1 <= find_key(entries_view(entries@), key@) < entries@.len(),
                        find_key(entries_view(entries@), key@) >= 0 ==> entries_view(entries@)[find_key(entries_view(entries@), key@)].0 == key@,
                        forall|j: int|
                            0 <= j < entries@.len() && (find_key(entries_view(entries@), key@) < 0 || j < find_key(entries_view(entries@), key@))
                                ==> #[trigger] entries_view(entries@)[j].0 != key@,
                    decreases entries.len() - i,
                {
                    let name = chars_of(entries[i].0.as_str());
                    if chars_equal(&name, &k) {
                        let ghost f = find_key(entries_view(entries@), key@);
                        assert(entries_view(entries@)[i as int].0 == key@);
                        assert(f == i) by {
                            if f >= 0 && f < i {
                                assert(entries_view(entries@)[f].0 != key@);
                            }
                        }
                        assert(entries_view(entries@)[i as int].1 == json_view(entries@[i as int].1));
                        assert(self@ == JsonView::Object(entries_view(entries@)));
                        assert(get_spec(self@, key@) == Some(json_view(entries@[i as int].1)));
                        return Some(&entries[i].1);
                    }
                    i = i + 1;
                }
                None
            },
            _ => None,
        }
    }

    /// The text of a string value.
    pub fn as_str(&self) -> (r: Option<&str>)
        ensures
            match r {
                Some(s) => as_str_spec(self@) == Some(s@),
                None => as_str_spec(self@) is None,
            },
    {
        match self {
            JsonValue::Str(s) => Some(s.as_str()),
            _ => None,
        }
    }

    /// Whether the value is `null`.
    pub fn is_null(&self) -> (r: bool)
        ensures
            r == is_null_spec(self@),
    {
        match self {
            JsonValue::Null => true,
            _ => false,
        }
    }

    /// Whether the value is an object.
    pub fn is_object(&self) -> (r: bool)
        ensures
            r == (self@ is Object),
    {
        match self {
            JsonValue::Object(_) => true,
            _ => false,
        }
    }
}

/// The member's value when it is a string.
pub fn get_str<'a>(v: &'a JsonValue, key: &str) -> (r: Option<&'a str>)
    ensures
        match r {
            Some(s) => get_str_spec(v@, key@) == Some(s@),
            None => get_str_spec(v@, key@) is None,
        },
{
    match v.get(key) {
        Some(m) => m.as_str(),
        None => None,
    }
}

/// A deep copy of a JSON value.
pub fn copy_value(v: &JsonValue) -> (r: JsonValue)
    ensures
        r@ == v@,
    decreases v,
{
    match v {
        JsonValue::Null => JsonValue::Null,
        JsonValue::Bool(b) => JsonValue::Bool(*b),
        JsonValue::Number(n) => JsonValue::Number(
            match n {
                JsonNumber::PosInt(u) => JsonNumber::PosInt(*u),
                JsonNumber::NegInt(i) => JsonNumber::NegInt(*i),
                JsonNumber::Float(t) => JsonNumber::Float(t.clone()),
            },
        ),
        JsonValue::Str(s) => JsonValue::Str(s.clone()),
        JsonValue::Array(items) => {
            let mut out: Vec<JsonValue> = Vec::new();
            let mut i: usize = 0;
            while i < items.len()
                invariant
                    i <= items.len(),
                    items_view(out@) == items_view(items@.subrange(0, i as int)),
                    *v == JsonValue::Array(*items),
                decreases items.len() - i,
            {
                proof {
                    vstd::std_specs::vec::axiom_vec_decreases_to_view(*items);
                    vstd::seq::axiom_seq_index_decreases(items@, i as int);
                    assert(decreases_to!(*v => (*v)->Array_0));
                }
                let c = copy_value(&items[i]);
                let ghost old_out = out@;
                out.push(c);
                proof {
                    assert(out@.drop_last() =~= old_out);
                    assert(items@.subrange(0, i + 1).drop_last() =~= items@.subrange(0, i as int));
                }
                i = i + 1;
            }
            proof {
                assert(items@.subrange(0, items.len() as int) =~= items@);
            }
            JsonValue::Array(out)
        },
        JsonValue::Object(entries) => {
            let mut out: Vec<(String, JsonValue)> = Vec::new();
            let mut i: usize = 0;
            while i < entries.len()
                invariant
                    i <= entries.len(),
                    entries_view(out@) == entries_view(entries@.subrange(0, i as int)),
                    *v == JsonValue::Object(*entries),
                decreases entries.len() - i,
            {
                proof {
                    vstd::std_specs::vec::axiom_vec_decreases_to_view(*entries);
                    vstd::seq::axiom_seq_index_decreases(entries@, i as int);
                    assert(decreases_to!(*v => (*v)->Object_0));
                    assert(decreases_to!(entries@[i as int] => entries@[i as int].1));
                }
                let k = entries[i].0.clone();
                let c = copy_value(&entries[i].1);
                let ghost old_out = out@;
                out.push((k, c));
                proof {
                    assert(out@.drop_last() =~= old_out);
                    assert(entries@.subrange(0, i + 1).drop_last() =~= entries@.subrange(0, i as int));
                }
                i = i + 1;
            }
            proof {
                assert(entries@.subrange(0, entries.len() as int) =~= entries@);
            }
            JsonValue::Object(out)
        },
    }
}


/// A lower-case hexadecimal digit.
pub open spec fn hex_digit(d: nat) -> char {
    if d < 10 {
        ((d + 48) as u32) as char
    } else {
        ((d + 87) as u32) as char
    }
}

/// How one character of a string is written inside JSON quotes: quote,
/// backslash and control characters escaped, everything else as is.
pub open spec fn escape_json_char(c: char) -> Seq<char> {
    if c == '"' {
        seq!['\\', '"']
    } else if c == '\\' {
        seq!['\\', '\\']
    } else if c == '\n' {
        seq!['\\', 'n']
    } else if c == '\r' {
        seq!['\\', 'r']
    } else if c == '\t' {
        seq!['\\', 't']
    } else if (c as u32) == 8 {
        seq!['\\', 'b']
    } else if (c as u32) == 12 {
        seq!['\\', 'f']
    } else if (c as u32) < 32 {
        seq!['\\', 'u', '0', '0', hex_digit(((c as u32) / 16) as nat), hex_digit(((c as u32) % 16) as nat)]
    } else {
        seq![c]
    }
}

/// The escaped characters of a string, without the quotes.
pub open spec fn escape_json(s: Seq<char>) -> Seq<char>
    decreases s.len(),
{
    if s.len() == 0 {
        Seq::empty()
    } else {
        escape_json(s.drop_last()) + escape_json_char(s.last())
    }
}

/// The compact JSON text of a number.
pub open spec fn number_text(n: NumberView) -> Seq<char> {
    match n {
        NumberView::PosInt(u) => decimal(u as nat),
        NumberView::NegInt(i) => if i < 0 {
            seq!['-'] + decimal((-i) as nat)
        } else {
            decimal(i as nat)
        },
        NumberView::Float(t) => t,
    }
}

/// The compact JSON text of a value, as `Value::to_string` writes it.
pub open spec fn json_text(v: JsonView) -> Seq<char>
    decreases v, 0int,
{
    match v {
        JsonView::Null => "null"@,
        JsonView::Bool(b) => if b { "true"@ } else { "false"@ },
        JsonView::Number(n) => number_text(n),
        JsonView::Str(s) => seq!['"'] + escape_json(s) + seq!['"'],
        JsonView::Array(items) => seq!['['] + items_text(items) + seq![']'],
        JsonView::Object(entries) => seq!['{'] + entries_text(entries) + seq!['}'],
    }
}

/// The values' texts separated by commas.
pub open spec fn items_text(items: Seq<JsonView>) -> Seq<char>
    decreases items, 1int,
{
    if items.len() == 0 {
        Seq::empty()
    } else if items.len() == 1 {
        json_text(items[0])
    } else {
        items_text(items.drop_last()) + seq![','] + json_text(items.last())
    }
}

/// The members' texts, `"key":value`, separated by commas.
pub open spec fn entries_text(entries: Seq<(Seq<char>, JsonView)>) -> Seq<char>
    decreases entries, 1int,
{
    if entries.len() == 0 {
        Seq::empty()
    } else if entries.len() == 1 {
        seq!['"'] + escape_json(entries[0].0) + seq!['"', ':'] + json_text(entries[0].1)
    } else {
        entries_text(entries.drop_last()) + seq![','] + seq!['"'] + escape_json(entries.last().0)
            + seq!['"', ':'] + json_text(entries.last().1)
    }
}

fn push_hex(out: &mut Vec<char>, d: u32)
    requires
        d < 16,
    ensures
        final(out)@ == old(out)@.push(hex_digit(d as nat)),
{
    if d < 10 {
        out.push(((48 + d) as u8) as char);
    } else {
        out.push(((87 + d) as u8) as char);
    }
}

/// Appends the quoted, escaped text of a string.
pub fn push_json_string(out: &mut Vec<char>, s: &str)
    ensures
        final(out)@ == old(out)@ + seq!['"'] + escape_json(s@) + seq!['"'],
{
    let cs = chars_of(s);
    out.push('"');
    let ghost start = out@;
    let mut i: usize = 0;
    while i < cs.len()
        invariant
            i <= cs.len(),
            cs@ == s@,
            out@ == start + escape_json(cs@.subrange(0, i as int)),
        decreases cs.len() - i,
    {
        let c = cs[i];
        let ghost before = out@;
        if c == '"' {
            out.push('\\');
            out.push('"');
        } else if c == '\\' {
            out.push('\\');
            out.push('\\');
        } else if c == '\n' {
            out.push('\\');
            out.push('n');
        } else if c == '\r' {
            out.push('\\');
            out.push('r');
        } else if c == '\t' {
            out.push('\\');
            out.push('t');
        } else if (c as u32) == 8 {
            out.push('\\');
            out.push('b');
        } else if (c as u32) == 12 {
            out.push('\\');
            out.push('f');
        } else if (c as u32) < 32 {
            out.push('\\');
            out.push('u');
            out.push('0');
            out.push('0');
            push_hex(out, (c as u32) / 16);
            push_hex(out, (c as u32) % 16);
        } else {
            out.push(c);
        }
        proof {
            assert(out@ =~= before + escape_json_char(c));
            assert(cs@.subrange(0, i + 1).drop_last() =~= cs@.subrange(0, i as int));
        }
        i = i + 1;
    }
    proof {
        assert(cs@.subrange(0, cs.len() as int) =~= cs@);
    }
    out.push('"');
}

/// Appends the compact JSON text of a value.
pub fn push_json_text(out: &mut Vec<char>, v: &JsonValue)
    ensures
        final(out)@ == old(out)@ + json_text(v@),
    decreases v,
{
    match v {
        JsonValue::Null => {
            push_str(out, "null");
        },
        JsonValue::Bool(b) => {
            if *b {
                push_str(out, "true");
            } else {
                push_str(out, "false");
            }
        },
        JsonValue::Number(n) => {
            match n {
                JsonNumber::PosInt(u) => push_decimal(out, *u),
                JsonNumber::NegInt(i) => {
                    if *i < 0 {
                        out.push('-');
                        let m: u64 = ((-(*i + 1)) as u64) + 1;
                        assert(m == -(*i));
                        push_decimal(out, m);
                    } else {
                        push_decimal(out, *i as u64);
                    }
                },
                JsonNumber::Float(t) => push_str(out, t.as_str()),
            }
            proof {
                assert(old(out)@ + json_text(v@) =~= out@);
            }
        },
        JsonValue::Str(s) => {
            push_json_string(out, s.as_str());
        },
        JsonValue::Array(items) => {
            out.push('[');
            let ghost start = out@;
            let mut i: usize = 0;
            while i < items.len()
                invariant
                    i <= items.len(),
                    *v == JsonValue::Array(*items),
                    out@ == start + items_text(items_view(items@.subrange(0, i as int))),
                decreases items.len() - i,
            {
                proof {
                    vstd::std_specs::vec::axiom_vec_decreases_to_view(*items);
                    vstd::seq::axiom_seq_index_decreases(items@, i as int);
                    assert(decreases_to!(*v => (*v)->Array_0));
                }
                let ghost before = out@;
                if i > 0 {
                    out.push(',');
                }
                push_json_text(out, &items[i]);
                proof {
                    let pre = items@.subrange(0, i as int);
                    let post = items@.subrange(0, i + 1);
                    assert(post.drop_last() =~= pre);
                    assert(items_view(post) == items_view(pre).push(json_view(items@[i as int])));
                    lemma_items_view(pre);
                    if i == 0 {
                        assert(items_view(post).len() == 1);
                        assert(out@ =~= start + items_text(items_view(post)));
                    } else {
                        assert(items_view(post).drop_last() =~= items_view(pre));
                        assert(out@ =~= start + items_text(items_view(post)));
                    }
                }
                i = i + 1;
            }
            proof {
                assert(items@.subrange(0, items.len() as int) =~= items@);
            }
            out.push(']');
            proof {
                assert(out@ =~= old(out)@ + json_text(v@));
            }
        },
        JsonValue::Object(entries) => {
            out.push('{');
            let ghost start = out@;
            let mut i: usize = 0;
            while i < entries.len()
                invariant
                    i <= entries.len(),
                    *v == JsonValue::Object(*entries),
                    out@ == start + entries_text(entries_view(entries@.subrange(0, i as int))),
                decreases entries.len() - i,
            {
                proof {
                    vstd::std_specs::vec::axiom_vec_decreases_to_view(*entries);
                    vstd::seq::axiom_seq_index_decreases(entries@, i as int);
                    assert(decreases_to!(*v => (*v)->Object_0));
                    assert(decreases_to!(entries@[i as int] => entries@[i as int].1));
                }
                if i > 0 {
                    out.push(',');
                }
                push_json_string(out, entries[i].0.as_str());
                out.push(':');
                push_json_text(out, &entries[i].1);
                proof {
                    let pre = entries@.subrange(0, i as int);
                    let post = entries@.subrange(0, i + 1);
                    assert(post.drop_last() =~= pre);
                    assert(entries_view(post) == entries_view(pre).push(
                        (entries@[i as int].0@, json_view(entries@[i as int].1)),
                    ));
                    lemma_entries_view(pre);
                    if i == 0 {
                        assert(entries_view(post).len() == 1);
                        assert(out@ =~= start + entries_text(entries_view(post)));
                    } else {
                        assert(entries_view(post).drop_last() =~= entries_view(pre));
                        assert(out@ =~= start + entries_text(entries_view(post)));
                    }
                }
                i = i + 1;
            }
            proof {
                assert(entries@.subrange(0, entries.len() as int) =~= entries@);
            }
            out.push('}');
            proof {
                assert(out@ =~= old(out)@ + json_text(v@));
            }
        },
    }
}

/// The compact JSON text of a value (`Value::to_string`).
pub fn json_to_string(v: &JsonValue) -> (r: String)
    ensures
        r@ == json_text(v@),
{
    let mut out: Vec<char> = Vec::new();
    push_json_text(&mut out, v);
    assert(out@ =~= json_text(v@));
    string_from_chars(&out)
}


/// A deep copy of a list of members.
pub fn copy_entries(entries: &Vec<(String, JsonValue)>) -> (r: Vec<(String, JsonValue)>)
    ensures
        entries_view(r@) == entries_view(entries@),
{
    let mut out: Vec<(String, JsonValue)> = Vec::new();
    let mut i: usize = 0;
    while i < entries.len()
        invariant
            i <= entries.len(),
            entries_view(out@) == entries_view(entries@.subrange(0, i as int)),
        decreases entries.len() - i,
    {
        let k = entries[i].0.clone();
        let c = copy_value(&entries[i].1);
        let ghost old_out = out@;
        out.push((k, c));
        proof {
            assert(out@.drop_last() =~= old_out);
            assert(entries@.subrange(0, i + 1).drop_last() =~= entries@.subrange(0, i as int));
        }
        i = i + 1;
    }
    proof {
        assert(entries@.subrange(0, entries.len() as int) =~= entries@);
    }
    out
}


/// Equality of JSON values as JSON sees it: objects are equal when they
/// have the same number of members and every member of the first has an
/// equal value under the same key in the second; everything else compares
/// element by element.
pub open spec fn json_eq(a: JsonView, b: JsonView) -> bool
    decreases a, 0int,
{
    match (a, b) {
        (JsonView::Null, JsonView::Null) => true,
        (JsonView::Bool(x), JsonView::Bool(y)) => x == y,
        (JsonView::Number(x), JsonView::Number(y)) => x == y,
        (JsonView::Str(x), JsonView::Str(y)) => x == y,
        (JsonView::Array(x), JsonView::Array(y)) => x.len() == y.len() && items_eq(x, y),
        (JsonView::Object(x), JsonView::Object(y)) => x.len() == y.len() && members_eq(x, y),
        _ => false,
    }
}

/// Element-wise equality of equally long lists.
pub open spec fn items_eq(x: Seq<JsonView>, y: Seq<JsonView>) -> bool
    decreases x, 1int,
{
    if x.len() == 0 || x.len() != y.len() {
        x.len() == y.len()
    } else {
        items_eq(x.drop_last(), y.drop_last()) && json_eq(x.last(), y.last())
    }
}

/// Every member of `x` has an equal value under its key in `y`.
pub open spec fn members_eq(x: Seq<(Seq<char>, JsonView)>, y: Seq<(Seq<char>, JsonView)>) -> bool
    decreases x, 1int,
{
    if x.len() == 0 {
        true
    } else {
        members_eq(x.drop_last(), y) && {
            let i = find_key(y, x.last().0);
            i >= 0 && json_eq(x.last().1, y[i].1)
        }
    }
}

fn find_entry(entries: &Vec<(String, JsonValue)>, key: &str) -> (r: Option<usize>)
    ensures
        match r {
            Some(k) => k == find_key(entries_view(entries@), key@),
            None => find_key(entries_view(entries@), key@) < 0,
        },
{
    let ghost ev = entries_view(entries@);
    proof {
        lemma_entries_view(entries@);
        lemma_find_key(ev, key@);
    }
    let k = chars_of(key);
    let mut i: usize = 0;
    while i < entries.len()
        invariant
            i <= entries.len(),
            k@ == key@,
            ev == entries_view(entries@),
            ev.len() == entries@.len(),
            forall|j: int| 0 <= j < entries@.len() ==> #[trigger] ev[j] == (entries@[j].0@, json_view(entries@[j].1)),
            forall|j: int| 0 <= j < i ==> #[trigger] ev[j].0 != key@,
            -1 <= find_key(ev, key@) < ev.len(),
            find_key(ev, key@) >= 0 ==> ev[find_key(ev, key@)].0 == key@,
            forall|j: int|
                0 <= j < ev.len() && (find_key(ev, key@) < 0 || j < find_key(ev, key@)) ==> #[trigger] ev[j].0 != key@,
        decreases entries.len() - i,
    {
        if chars_equal(&chars_of(entries[i].0.as_str()), &k) {
            assert(ev[i as int].0 == key@);
            let ghost f = find_key(ev, key@);
            assert(f == i) by {
                if f >= 0 && f < i {
                    assert(ev[f].0 != key@);
                }
            }
            return Some(i);
        }
        assert(ev[i as int].0 != key@);
        i = i + 1;
    }
    None
}

/// Whether two values are equal as JSON.
pub fn json_equal(a: &JsonValue, b: &JsonValue) -> (r: bool)
    ensures
        r == json_eq(a@, b@),
    decreases a,
{
    match (a, b) {
        (JsonValue::Null, JsonValue::Null) => true,
        (JsonValue::Bool(x), JsonValue::Bool(y)) => *x == *y,
        (JsonValue::Number(x), JsonValue::Number(y)) => {
            match (x, y) {
                (JsonNumber::PosInt(p), JsonNumber::PosInt(q)) => *p == *q,
                (JsonNumber::NegInt(p), JsonNumber::NegInt(q)) => *p == *q,
                (JsonNumber::Float(p), JsonNumber::Float(q)) => {
                    let r = chars_equal(&chars_of(p.as_str()), &chars_of(q.as_str()));
                    r
                },
                _ => false,
            }
        },
        (JsonValue::Str(x), JsonValue::Str(y)) => chars_equal(&chars_of(x.as_str()), &chars_of(y.as_str())),
        (JsonValue::Array(x), JsonValue::Array(y)) => {
            proof {
                lemma_items_view(x@);
                lemma_items_view(y@);
            }
            if x.len() != y.len() {
                return false;
            }
            let mut i: usize = 0;
            assert(items_view(x@).subrange(0, 0) =~= Seq::<JsonView>::empty());
            assert(items_view(y@).subrange(0, 0) =~= Seq::<JsonView>::empty());
            while i < x.len()
                invariant
                    i <= x.len(),
                    x.len() == y.len(),
                    *a == JsonValue::Array(*x),
                    *b == JsonValue::Array(*y),
                    items_view(x@).len() == x@.len(),
                    items_view(y@).len() == y@.len(),
                    forall|j: int| 0 <= j < x@.len() ==> #[trigger] items_view(x@)[j] == json_view(x@[j]),
                    forall|j: int| 0 <= j < y@.len() ==> #[trigger] items_view(y@)[j] == json_view(y@[j]),
                    items_eq(items_view(x@).subrange(0, i as int), items_view(y@).subrange(0, i as int)),
                decreases x.len() - i,
            {
                proof {
                    vstd::std_specs::vec::axiom_vec_decreases_to_view(*x);
                    vstd::seq::axiom_seq_index_decreases(x@, i as int);
                    assert(decreases_to!(*a => (*a)->Array_0));
                }
                let ghost px = items_view(x@).subrange(0, i + 1);
                let ghost py = items_view(y@).subrange(0, i + 1);
                assert(px.drop_last() =~= items_view(x@).subrange(0, i as int));
                assert(py.drop_last() =~= items_view(y@).subrange(0, i as int));
                assert(px.last() == json_view(x@[i as int]));
                assert(py.last() == json_view(y@[i as int]));
                if !json_equal(&x[i], &y[i]) {
                    proof {
                        lemma_items_eq_prefix(items_view(x@), items_view(y@), i + 1);
                    }
                    return false;
                }
                i = i + 1;
            }
            assert(items_view(x@).subrange(0, x.len() as int) =~= items_view(x@));
            assert(items_view(y@).subrange(0, y.len() as int) =~= items_view(y@));
            true
        },
        (JsonValue::Object(x), JsonValue::Object(y)) => {
            proof {
                lemma_entries_view(x@);
                lemma_entries_view(y@);
            }
            if x.len() != y.len() {
                return false;
            }
            let ghost yv = entries_view(y@);
            let mut i: usize = 0;
            assert(entries_view(x@).subrange(0, 0) =~= Seq::<(Seq<char>, JsonView)>::empty());
            while i < x.len()
                invariant
                    i <= x.len(),
                    x.len() == y.len(),
                    *a == JsonValue::Object(*x),
                    *b == JsonValue::Object(*y),
                    yv == entries_view(y@),
                    entries_view(x@).len() == x@.len(),
                    yv.len() == y@.len(),
                    forall|j: int| 0 <= j < x@.len() ==> #[trigger] entries_view(x@)[j] == (x@[j].0@, json_view(x@[j].1)),
                    forall|j: int| 0 <= j < y@.len() ==> #[trigger] yv[j] == (y@[j].0@, json_view(y@[j].1)),
                    members_eq(entries_view(x@).subrange(0, i as int), yv),
                decreases x.len() - i,
            {
                proof {
                    vstd::std_specs::vec::axiom_vec_decreases_to_view(*x);
                    vstd::seq::axiom_seq_index_decreases(x@, i as int);
                    assert(decreases_to!(*a => (*a)->Object_0));
                    assert(decreases_to!(x@[i as int] => x@[i as int].1));
                }
                let ghost px = entries_view(x@).subrange(0, i + 1);
                assert(px.drop_last() =~= entries_view(x@).subrange(0, i as int));
                assert(px.last() == (x@[i as int].0@, json_view(x@[i as int].1)));
                proof {
                    lemma_find_key(yv, x@[i as int].0@);
                }
                match find_entry(y, x[i].0.as_str()) {
                    Some(k) => {
                        assert(yv[k as int] == (y@[k as int].0@, json_view(y@[k as int].1)));
                        if !json_equal(&x[i].1, &y[k].1) {
                            proof {
                                lemma_members_eq_prefix(entries_view(x@), yv, i + 1);
                            }
                            return false;
                        }
                    },
                    None => {
                        proof {
                            lemma_members_eq_prefix(entries_view(x@), yv, i + 1);
                        }
                        return false;
                    },
                }
                i = i + 1;
            }
            assert(entries_view(x@).subrange(0, x.len() as int) =~= entries_view(x@));
            true
        },
        _ => false,
    }
}

proof fn lemma_items_eq_prefix(x: Seq<JsonView>, y: Seq<JsonView>, i: int)
    requires
        x.len() == y.len(),
        0 <= i <= x.len(),
        !items_eq(x.subrange(0, i), y.subrange(0, i)),
    ensures
        !items_eq(x, y),
    decreases x.len() - i,
{
    if i < x.len() {
        assert(x.subrange(0, i + 1).drop_last() =~= x.subrange(0, i));
        assert(y.subrange(0, i + 1).drop_last() =~= y.subrange(0, i));
        lemma_items_eq_prefix(x, y, i + 1);
    } else {
        assert(x.subrange(0, i) =~= x);
        assert(y.subrange(0, i) =~= y);
    }
}

proof fn lemma_members_eq_prefix(x: Seq<(Seq<char>, JsonView)>, y: Seq<(Seq<char>, JsonView)>, i: int)
    requires
        0 <= i <= x.len(),
        !members_eq(x.subrange(0, i), y),
    ensures
        !members_eq(x, y),
    decreases x.len() - i,
{
    if i < x.len() {
        assert(x.subrange(0, i + 1).drop_last() =~= x.subrange(0, i));
        lemma_members_eq_prefix(x, y, i + 1);
    } else {
        assert(x.subrange(0, i) =~= x);
    }
}

} // verus!

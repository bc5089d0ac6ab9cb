//! Small layout rules of the field list: how a value is cut to the space
//! it has, how a kind is named, and how the list scrolls to keep the
//! selected field in view.

use vstd::prelude::*;
use crate::form::{SectionState, SectionStateView};
use crate::schema::{FieldKind, KindView};
use crate::text::{chars_of, push_str, string_from_chars};

verus! {

/// The ellipsis that marks a value cut short.
pub open spec fn ellipsis() -> char {
    '…'
}

/// The text shown for a value given room for `max_chars` characters: the
/// first `max_chars` characters, with the last of them replaced by an
/// ellipsis when something was cut and more than one character is kept.
pub open spec fn clamped(value: Seq<char>, max_chars: int) -> Seq<char> {
    if max_chars <= 0 {
        Seq::empty()
    } else {
        let kept = if value.len() <= max_chars { value } else { value.take(max_chars) };
        if value.len() > kept.len() && kept.len() > 1 {
            kept.drop_last().push(ellipsis())
        } else {
            kept
        }
    }
}

/// The value cut to `max_chars` characters, with its width in columns.
pub fn clamp_value(value: &str, max_chars: usize) -> (r: (String, u16))
    ensures
        r.0@ == clamped(value@, max_chars as int),
        r.0@.len() <= max_chars,
        r.0@.len() <= value@.len(),
        r.1 == (r.0@.len() as u16),
{
    if max_chars == 0 {
        let e = String::new();
        assert(e@ =~= clamped(value@, 0));
        return (e, 0);
    }
    let chars = chars_of(value);
    let mut out: Vec<char> = Vec::new();
    let mut count: usize = 0;
    while count < chars.len()
        invariant
            chars@ == value@,
            count <= chars.len(),
            count <= max_chars,
            out@ == value@.take(count as int),
        ensures
            count == chars.len() || count == max_chars,
        decreases chars.len() - count,
    {
        if count + 1 > max_chars {
            break;
        }
        out.push(chars[count]);
        count = count + 1;
        assert(out@ =~= value@.take(count as int));
    }
    proof {
        if value@.len() <= max_chars {
            assert(count == value@.len());
            assert(value@.take(count as int) =~= value@);
        } else {
            assert(count == max_chars);
        }
    }
    if chars.len() > count && count > 1 {
        out.pop();
        out.push('…');
    }
    proof {
        assert(out@ =~= clamped(value@, max_chars as int));
    }
    let s = string_from_chars(&out);
    let width = #[verifier::truncate] (out.len() as u16);
    (s, width)
}

/// The name of a kind as the field list shows it.
pub open spec fn type_label(k: KindView) -> Seq<char>
    decreases k,
{
    match k {
        KindView::String => "string"@,
        KindView::Integer => "integer"@,
        KindView::Number => "number"@,
        KindView::Boolean => "boolean"@,
        KindView::Enum(_) => "enum"@,
        KindView::Array(inner) => type_label(*inner) + "[]"@,
        KindView::Json => "object"@,
        KindView::Composite(_, _) => "composite"@,
        KindView::KeyValue(_, _) => "map"@,
    }
}

fn push_type_label(out: &mut Vec<char>, kind: &FieldKind)
    ensures
        final(out)@ == old(out)@ + type_label(kind@),
    decreases kind,
{
    match kind {
        FieldKind::String => push_str(out, "string"),
        FieldKind::Integer => push_str(out, "integer"),
        FieldKind::Number => push_str(out, "number"),
        FieldKind::Boolean => push_str(out, "boolean"),
        FieldKind::Enum(_) => push_str(out, "enum"),
        FieldKind::Array(inner) => {
            let ghost before = out@;
            push_type_label(out, &**inner);
            push_str(out, "[]");
            assert(out@ =~= before + type_label(kind@));
        },
        FieldKind::Json => push_str(out, "object"),
        FieldKind::Composite(_) => push_str(out, "composite"),
        FieldKind::KeyValue(_, _) => push_str(out, "map"),
    }
}

/// The name of a field's kind: `string`, `integer[]` and so on.
pub fn field_type_label(kind: &FieldKind) -> (r: String)
    ensures
        r@ == type_label(kind@),
{
    let mut out: Vec<char> = Vec::new();
    push_type_label(&mut out, kind);
    assert(out@ =~= type_label(kind@));
    string_from_chars(&out)
}

/// The number of field rows a list of the given height shows.
pub open spec fn window_rows(height: int) -> int {
    if height > 4 { height - 4 } else { 0 }
}

/// The scroll offset that keeps the selected row in a window of `window`
/// rows: unchanged while the row is visible, otherwise moved just enough.
pub open spec fn scrolled(offset: int, selected: int, window: int) -> int {
    if window == 0 {
        0
    } else if selected < offset {
        selected
    } else if selected >= offset + window {
        selected + 1 - window
    } else {
        offset
    }
}

/// Scrolls a section so that its selected field is in view.
pub fn adjust_scroll_offset(section: &mut SectionState, selected: usize, height: u16)
    ensures
        final(section)@ == (SectionStateView {
            scroll_offset: scrolled(old(section)@.scroll_offset, selected as int, window_rows(height as int)),
            ..old(section)@
        }),
{
    let window: usize = if height > 4 { (height - 4) as usize } else { 0 };
    if window == 0 {
        section.scroll_offset = 0;
        return;
    }
    if selected < section.scroll_offset {
        section.scroll_offset = selected;
    } else if selected - section.scroll_offset >= window {
        section.scroll_offset = selected - window + 1;
    }
}

} // verus!

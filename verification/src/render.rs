//! What a field and a composite selector look like on screen, as lines of
//! styled text. Frontends map each style to their own colours.

use vstd::prelude::*;
use crate::composite::{flags, titles, CompositeState, CompositeView};
use crate::display::{clamp_value, clamped, field_type_label, type_label};
use crate::field::{display_spec, FieldState, FieldStateView};
use crate::label::label_of;
use crate::coerce::{join_with, push_joined};
use crate::text::{chars_of, push_str, string_from_chars, string_views};

verus! {

/// How a piece of text is drawn.
#[derive(Debug, Clone, Copy, PartialEq, Eq, Structural)]
pub enum TextStyle {
    Plain,
    Label,
    FocusedLabel,
    Value,
    FocusedValue,
    Border,
    Meta,
    Error,
    Heading,
    Muted,
    Active,
    Hint,
}

/// A piece of text in one style.
#[derive(Debug, Clone)]
pub struct Span {
    pub text: String,
    pub style: TextStyle,
}

/// One line on screen.
#[derive(Debug, Clone)]
pub struct RenderLine {
    pub spans: Vec<Span>,
}

/// A line as its pieces of text and their styles.
pub open spec fn line_view(l: RenderLine) -> Seq<(Seq<char>, TextStyle)> {
    l.spans@.map_values(|s: Span| (s.text@, s.style))
}

/// Lines as plain values.
pub open spec fn lines_view(ls: Seq<RenderLine>) -> Seq<Seq<(Seq<char>, TextStyle)>> {
    ls.map_values(|l: RenderLine| line_view(l))
}

/// `n` copies of `c`.
pub open spec fn repeated(c: char, n: nat) -> Seq<char> {
    Seq::new(n, |_i: int| c)
}

/// The text under a field's value: its type, and its description when it
/// has a non-empty one.
pub open spec fn meta_text(f: FieldStateView) -> Seq<char> {
    match f.schema.description {
        Some(d) => if d.len() > 0 {
            type_label(f.schema.kind) + " | "@ + d
        } else {
            type_label(f.schema.kind)
        },
        None => type_label(f.schema.kind),
    }
}

/// The lines a field is drawn as: its label (marked `*` when required, in
/// the focused style when selected); its value cut to the width (at least
/// four characters), boxed when selected and indented otherwise; its type
/// and description; and its error, if any.
pub open spec fn field_lines(f: FieldStateView, selected: bool, max_width: int) -> Seq<Seq<(Seq<char>, TextStyle)>> {
    let label = if f.schema.required {
        label_of(f.schema.title, f.schema.name) + " *"@
    } else {
        label_of(f.schema.title, f.schema.name)
    };
    let head = seq![seq![(label, if selected { TextStyle::FocusedLabel } else { TextStyle::Label })]];
    let width = if max_width > 4 { max_width } else { 4 };
    let shown = clamped(display_spec(f.value), width);
    let value = if selected {
        let border = repeated('─', shown.len() + 2);
        seq![
            seq![(seq!['┌'] + border + seq!['┐'], TextStyle::Border)],
            seq![("│ "@, TextStyle::Border), (shown, TextStyle::FocusedValue), (" │"@, TextStyle::Border)],
            seq![(seq!['└'] + border + seq!['┘'], TextStyle::Border)],
        ]
    } else {
        seq![seq![("  "@, TextStyle::Plain), (shown, TextStyle::Value)]]
    };
    let meta = seq![seq![("  "@, TextStyle::Plain), (meta_text(f), TextStyle::Meta)]];
    let error = match f.error {
        Some(e) => seq![seq![("  ⚠ "@ + e, TextStyle::Error)]],
        None => Seq::empty(),
    };
    head + value + meta + error
}

/// The spans for the first `n` variants: a checkbox for `anyOf`, the title
/// (highlighted when active) and a separator before the next one.
pub open spec fn option_spans(names: Seq<Seq<char>>, active: Seq<bool>, multi: bool, n: nat) -> Seq<(Seq<char>, TextStyle)>
    decreases n,
{
    if n == 0 {
        Seq::empty()
    } else {
        let i = n - 1;
        let on = i < active.len() && active[i];
        let mark = if multi {
            seq![(if on { " [x] "@ } else { " [ ] "@ }, TextStyle::Muted)]
        } else {
            Seq::empty()
        };
        let title = seq![(names[i], if on { TextStyle::Active } else { TextStyle::Muted })];
        let sep = if i + 1 != names.len() {
            seq![(if multi { "  "@ } else { " | "@ }, TextStyle::Muted)]
        } else {
            Seq::empty()
        };
        option_spans(names, active, multi, (n - 1) as nat) + mark + title + sep
    }
}

/// The titles whose flag is set, in order.
pub open spec fn chosen(names: Seq<Seq<char>>, active: Seq<bool>, n: nat) -> Seq<Seq<char>>
    decreases n,
{
    if n == 0 {
        Seq::empty()
    } else {
        let i = n - 1;
        let rest = chosen(names, active, (n - 1) as nat);
        if i < active.len() && active[i] {
            rest.push(names[i])
        } else {
            rest
        }
    }
}

/// The lines of a variant selector with these titles and flags: a note
/// when there are no variants; otherwise the mode, the variants and a
/// hint, and for `anyOf` a line listing the active variants.
pub open spec fn selector_lines_of(names: Seq<Seq<char>>, active: Seq<bool>, multi: bool) -> Seq<Seq<(Seq<char>, TextStyle)>> {
    if names.len() == 0 {
        seq![seq![("  No variants available in this schema."@, TextStyle::Muted)]]
    } else {
        let mode = if multi { "  AnyOf: "@ } else { "  OneOf: "@ };
        let hint = if multi {
            "  (Enter toggles, Ctrl+E opens editor)"@
        } else {
            "  (Enter to choose variant, Ctrl+E edits)"@
        };
        let first = seq![(mode, TextStyle::Heading)] + option_spans(names, active, multi, names.len()) + seq![(hint, TextStyle::Hint)];
        if !multi {
            seq![first]
        } else {
            let picked = chosen(names, active, names.len());
            let summary = if picked.len() == 0 {
                seq![("    Active variants: <none>"@, TextStyle::Muted)]
            } else {
                seq![("    Active variants: "@, TextStyle::Muted), (crate::coerce::join_with(picked, ", "@), TextStyle::Value)]
            };
            seq![first, summary + seq![("  + Add variant (Enter)"@, TextStyle::Hint)]]
        }
    }
}

/// The lines of a composite field's variant selector.
pub open spec fn selector_lines(st: CompositeView) -> Seq<Seq<(Seq<char>, TextStyle)>> {
    selector_lines_of(titles(st.variants), flags(st.variants), st.multi)
}

fn span(text: String, style: TextStyle) -> (r: Span)
    ensures
        r.text@ == text@,
        r.style == style,
{
    Span { text, style }
}

fn push_span(line: &mut Vec<Span>, text: String, style: TextStyle)
    ensures
        final(line)@.map_values(|s: Span| (s.text@, s.style)) == old(line)@.map_values(|s: Span| (s.text@, s.style)).push(
            (text@, style),
        ),
{
    let ghost before = line@;
    let s = span(text, style);
    line.push(s);
    assert(line@.map_values(|s: Span| (s.text@, s.style)) =~= before.map_values(|s: Span| (s.text@, s.style)).push(
        (text@, style),
    ));
}

fn push_line(out: &mut Vec<RenderLine>, spans: Vec<Span>)
    ensures
        lines_view(final(out)@) == lines_view(old(out)@).push(spans@.map_values(|s: Span| (s.text@, s.style))),
{
    let ghost before = out@;
    let l = RenderLine { spans };
    out.push(l);
    assert(lines_view(out@) =~= lines_view(before).push(line_view(l)));
}

fn repeat_char(c: char, n: usize) -> (r: Vec<char>)
    ensures
        r@ == repeated(c, n as nat),
{
    let mut out: Vec<char> = Vec::new();
    let mut i: usize = 0;
    while i < n
        invariant
            i <= n,
            out@ == repeated(c, i as nat),
        decreases n - i,
    {
        out.push(c);
        i = i + 1;
        assert(out@ =~= repeated(c, i as nat));
    }
    out
}

fn meta_line_text(field: &FieldState) -> (r: String)
    ensures
        r@ == meta_text(field@),
{
    let t = field_type_label(&field.schema.kind);
    match &field.schema.description {
        Some(d) => {
            if !d.as_str().is_empty() {
                let mut out = chars_of(t.as_str());
                push_str(&mut out, " | ");
                push_str(&mut out, d.as_str());
                string_from_chars(&out)
            } else {
                t
            }
        },
        None => t,
    }
}

pub open spec fn spans_view(s: Seq<Span>) -> Seq<(Seq<char>, TextStyle)> {
    s.map_values(|x: Span| (x.text@, x.style))
}

/// Lays a field out as styled lines for a given width.
pub fn field_render_lines(field: &FieldState, selected: bool, max_width: u16) -> (r: Vec<RenderLine>)
    ensures
        lines_view(r@) == field_lines(field@, selected, max_width as int),
{
    let ghost f = field@;
    let ghost label_text = if f.schema.required {
        label_of(f.schema.title, f.schema.name) + " *"@
    } else {
        label_of(f.schema.title, f.schema.name)
    };
    let ghost w = if max_width > 4 { max_width as int } else { 4 };
    let ghost shown_text = clamped(display_spec(f.value), w);
    let mut out: Vec<RenderLine> = Vec::new();
    let mut label = chars_of(field.schema.display_label().as_str());
    if field.schema.required {
        push_str(&mut label, " *");
    }
    assert(label@ =~= label_text);
    let mut head: Vec<Span> = Vec::new();
    push_span(
        &mut head,
        string_from_chars(&label),
        if selected { TextStyle::FocusedLabel } else { TextStyle::Label },
    );
    assert(spans_view(head@) =~= seq![(label_text, if selected { TextStyle::FocusedLabel } else { TextStyle::Label })]);
    push_line(&mut out, head);
    let ghost after_head = lines_view(out@);
    let width: usize = if max_width > 4 { max_width as usize } else { 4 };
    let (shown, shown_width) = clamp_value(field.display_value().as_str(), width);
    assert(shown@ == shown_text);
    let ghost value_lines: Seq<Seq<(Seq<char>, TextStyle)>>;
    if selected {
        assert(shown_width as int == shown@.len());
        let border = repeat_char('─', shown_width as usize + 2);
        let ghost b = repeated('─', shown_text.len() + 2);
        assert(border@ == b);
        let mut top = chars_of("┌");
        push_str(&mut top, string_from_chars(&border).as_str());
        push_str(&mut top, "┐");
        let mut bottom = chars_of("└");
        push_str(&mut bottom, string_from_chars(&border).as_str());
        push_str(&mut bottom, "┘");
        proof {
            reveal_strlit("┌");
            reveal_strlit("┐");
            reveal_strlit("└");
            reveal_strlit("┘");
        }
        assert(top@ =~= seq!['┌'] + b + seq!['┐']);
        assert(bottom@ =~= seq!['└'] + b + seq!['┘']);
        let mut l1: Vec<Span> = Vec::new();
        push_span(&mut l1, string_from_chars(&top), TextStyle::Border);
        let ghost v1 = spans_view(l1@);
        assert(v1 =~= seq![(seq!['┌'] + b + seq!['┐'], TextStyle::Border)]);
        push_line(&mut out, l1);
        let mut l2: Vec<Span> = Vec::new();
        push_span(&mut l2, "│ ".to_string(), TextStyle::Border);
        push_span(&mut l2, shown, TextStyle::FocusedValue);
        push_span(&mut l2, " │".to_string(), TextStyle::Border);
        let ghost v2 = spans_view(l2@);
        assert(v2 =~= seq![("│ "@, TextStyle::Border), (shown_text, TextStyle::FocusedValue), (" │"@, TextStyle::Border)]);
        push_line(&mut out, l2);
        let mut l3: Vec<Span> = Vec::new();
        push_span(&mut l3, string_from_chars(&bottom), TextStyle::Border);
        let ghost v3 = spans_view(l3@);
        assert(v3 =~= seq![(seq!['└'] + b + seq!['┘'], TextStyle::Border)]);
        push_line(&mut out, l3);
        proof {
            value_lines = seq![v1, v2, v3];
        }
    } else {
        let mut l: Vec<Span> = Vec::new();
        push_span(&mut l, "  ".to_string(), TextStyle::Plain);
        push_span(&mut l, shown, TextStyle::Value);
        let ghost v = spans_view(l@);
        assert(v =~= seq![("  "@, TextStyle::Plain), (shown_text, TextStyle::Value)]);
        push_line(&mut out, l);
        proof {
            value_lines = seq![v];
        }
    }
    assert(lines_view(out@) =~= after_head + value_lines);
    let mut meta: Vec<Span> = Vec::new();
    push_span(&mut meta, "  ".to_string(), TextStyle::Plain);
    push_span(&mut meta, meta_line_text(field), TextStyle::Meta);
    let ghost mv = spans_view(meta@);
    assert(mv =~= seq![("  "@, TextStyle::Plain), (meta_text(f), TextStyle::Meta)]);
    push_line(&mut out, meta);
    let ghost before_error = lines_view(out@);
    assert(before_error =~= after_head + value_lines + seq![mv]);
    match &field.error {
        Some(e) => {
            let mut t = chars_of("  ⚠ ");
            push_str(&mut t, e.as_str());
            let mut l: Vec<Span> = Vec::new();
            push_span(&mut l, string_from_chars(&t), TextStyle::Error);
            let ghost ev = spans_view(l@);
            assert(ev =~= seq![("  ⚠ "@ + e@, TextStyle::Error)]);
            push_line(&mut out, l);
            assert(lines_view(out@) =~= before_error + seq![ev]);
        },
        None => {
            assert(before_error + Seq::<Seq<(Seq<char>, TextStyle)>>::empty() =~= before_error);
        },
    }
    assert(lines_view(out@) =~= field_lines(f, selected, max_width as int));
    out
}

/// Lays out the variant selector of a composite field.
pub fn composite_selector_lines(state: &CompositeState) -> (r: Vec<RenderLine>)
    ensures
        lines_view(r@) == selector_lines(state@),
{
    let names = state.option_titles();
    let active = state.active_flags();
    let multi = state.is_multi();
    let ghost nv = string_views(names@);
    let ghost av = active@;
    let mut out: Vec<RenderLine> = Vec::new();
    if names.len() == 0 {
        let mut l: Vec<Span> = Vec::new();
        push_span(&mut l, "  No variants available in this schema.".to_string(), TextStyle::Muted);
        let ghost v = spans_view(l@);
        assert(v =~= seq![("  No variants available in this schema."@, TextStyle::Muted)]);
        push_line(&mut out, l);
        assert(lines_view(out@) =~= selector_lines(state@));
        return out;
    }
    let mode = if multi { "  AnyOf: " } else { "  OneOf: " };
    let mut first: Vec<Span> = Vec::new();
    push_span(&mut first, mode.to_string(), TextStyle::Heading);
    let ghost head = seq![(mode@, TextStyle::Heading)];
    assert(spans_view(first@) =~= head + option_spans(nv, av, multi, 0));
    let mut picked: Vec<String> = Vec::new();
    assert(string_views(picked@) =~= chosen(nv, av, 0));
    let mut i: usize = 0;
    while i < names.len()
        invariant
            i <= names.len(),
            nv == string_views(names@),
            nv.len() == names@.len(),
            av == active@,
            spans_view(first@) == head + option_spans(nv, av, multi, i as nat),
            string_views(picked@) == chosen(nv, av, i as nat),
        decreases names.len() - i,
    {
        let ghost before = spans_view(first@);
        let on = i < active.len() && active[i];
        assert(on == (i < av.len() && av[i as int]));
        let ghost mark = if multi {
            seq![(if on { " [x] "@ } else { " [ ] "@ }, TextStyle::Muted)]
        } else {
            Seq::<(Seq<char>, TextStyle)>::empty()
        };
        if multi {
            push_span(&mut first, if on { " [x] ".to_string() } else { " [ ] ".to_string() }, TextStyle::Muted);
        }
        assert(spans_view(first@) =~= before + mark);
        let ghost after_mark = spans_view(first@);
        assert(nv[i as int] == names@[i as int]@);
        push_span(&mut first, names[i].clone(), if on { TextStyle::Active } else { TextStyle::Muted });
        let ghost title = seq![(nv[i as int], if on { TextStyle::Active } else { TextStyle::Muted })];
        assert(spans_view(first@) =~= after_mark + title);
        let ghost after_title = spans_view(first@);
        let ghost sep = if i + 1 != names.len() {
            seq![(if multi { "  "@ } else { " | "@ }, TextStyle::Muted)]
        } else {
            Seq::<(Seq<char>, TextStyle)>::empty()
        };
        if i + 1 != names.len() {
            push_span(&mut first, if multi { "  ".to_string() } else { " | ".to_string() }, TextStyle::Muted);
        }
        assert(spans_view(first@) =~= after_title + sep);
        assert(option_spans(nv, av, multi, (i + 1) as nat) == option_spans(nv, av, multi, i as nat) + mark + title + sep);
        assert(spans_view(first@) =~= head + option_spans(nv, av, multi, (i + 1) as nat));
        if on {
            let ghost pb = picked@;
            picked.push(names[i].clone());
            assert(string_views(picked@) =~= string_views(pb).push(nv[i as int]));
        }
        i = i + 1;
    }
    let hint = if multi {
        "  (Enter toggles, Ctrl+E opens editor)"
    } else {
        "  (Enter to choose variant, Ctrl+E edits)"
    };
    let ghost before_hint = spans_view(first@);
    push_span(&mut first, hint.to_string(), TextStyle::Hint);
    let ghost fv = spans_view(first@);
    assert(fv =~= before_hint + seq![(hint@, TextStyle::Hint)]);
    push_line(&mut out, first);
    if multi {
        let mut summary: Vec<Span> = Vec::new();
        if picked.len() == 0 {
            push_span(&mut summary, "    Active variants: <none>".to_string(), TextStyle::Muted);
            assert(spans_view(summary@) =~= seq![("    Active variants: <none>"@, TextStyle::Muted)]);
        } else {
            push_span(&mut summary, "    Active variants: ".to_string(), TextStyle::Muted);
            let mut joined: Vec<char> = Vec::new();
            push_joined(&mut joined, &picked, ", ");
            assert(joined@ =~= join_with(string_views(picked@), ", "@));
            push_span(&mut summary, string_from_chars(&joined), TextStyle::Value);
            assert(spans_view(summary@) =~= seq![
                ("    Active variants: "@, TextStyle::Muted),
                (join_with(string_views(picked@), ", "@), TextStyle::Value),
            ]);
        }
        let ghost sb = spans_view(summary@);
        push_span(&mut summary, "  + Add variant (Enter)".to_string(), TextStyle::Hint);
        assert(spans_view(summary@) =~= sb + seq![("  + Add variant (Enter)"@, TextStyle::Hint)]);
        push_line(&mut out, summary);
    }
    assert(lines_view(out@) =~= selector_lines(state@));
    out
}

} // verus!

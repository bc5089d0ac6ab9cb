//! The option popup: a list of choices for a boolean, enum, multi-select or
//! composite field, with a cursor and, for multi-selects, a toggle per option.

use vstd::prelude::*;
use crate::composite::CompositePopupData;
use crate::choice::{first_true, lemma_first_true, single_flags, ChoiceView};
use crate::field::{FieldState, FieldStateView, FieldValue, ValueView};
use crate::label::label_of;
use crate::schema::KindView;
use crate::text::{clone_strings, string_views};
use vstd::arithmetic::div_mod::{lemma_mod_self_0, lemma_small_mod};

verus! {

/// What the renderer needs to draw a popup.
pub struct PopupRender<'a> {
    pub title: &'a str,
    pub options: &'a [String],
    pub selected: usize,
    pub multi: bool,
    pub active: Option<&'a [bool]>,
}

/// The popup's state as plain values.
#[verifier::ext_equal]
pub struct PopupView {
    pub pointer: Seq<char>,
    pub title: Seq<char>,
    pub options: Seq<Seq<char>>,
    pub selected: int,
    pub multi: bool,
    pub toggles: Seq<bool>,
}

/// The cursor one step back, wrapping from the first option to the last.
pub open spec fn prev_index(selected: int, len: int) -> int {
    if len == 0 {
        selected
    } else if selected == 0 {
        len - 1
    } else {
        selected - 1
    }
}

/// The cursor one step forward, wrapping from the last option to the first.
pub open spec fn next_index(selected: int, len: int) -> int {
    if len == 0 {
        selected
    } else {
        (selected + 1) % len
    }
}

/// The toggles with the one under the cursor flipped, for a multi-select
/// whose cursor is on a toggle; unchanged otherwise.
pub open spec fn toggled(toggles: Seq<bool>, selected: int, multi: bool) -> Seq<bool> {
    if multi && 0 <= selected < toggles.len() {
        toggles.update(selected, !toggles[selected])
    } else {
        toggles
    }
}

/// An open popup for one field.
#[derive(Debug)]
pub struct PopupState {
    field_pointer: String,
    title: String,
    options: Vec<String>,
    selected: usize,
    multi: bool,
    toggles: Vec<bool>,
}

impl View for PopupState {
    type V = PopupView;

    closed spec fn view(&self) -> PopupView {
        PopupView {
            pointer: self.field_pointer@,
            title: self.title@,
            options: string_views(self.options@),
            selected: self.selected as int,
            multi: self.multi,
            toggles: self.toggles@,
        }
    }
}

/// A copy of a sequence of flags.
fn copy_flags(v: &Vec<bool>) -> (r: Vec<bool>)
    ensures
        r@ == v@,
{
    let mut out: Vec<bool> = Vec::new();
    let mut i: usize = 0;
    while i < v.len()
        invariant
            i <= v.len(),
            out@ == v@.subrange(0, i as int),
        decreases v.len() - i,
    {
        out.push(v[i]);
        i = i + 1;
    }
    assert(v@.subrange(0, v@.len() as int) =~= v@);
    out
}

/// The two choices a boolean popup offers, `true` first.
pub open spec fn bool_options() -> Seq<Seq<char>> {
    seq!["true"@, "false"@]
}

/// The popup a field opens, if it opens one: a multi-select offers its
/// options with their toggles, a boolean offers `true` and `false` with the
/// cursor on its value, and an enum offers its options with the cursor on
/// the selected one.
pub open spec fn popup_for(f: FieldStateView) -> Option<PopupView> {
    let title = label_of(f.schema.title, f.schema.name);
    match f.value {
        ValueView::Multi(options, flags) => Some(PopupView {
            pointer: f.schema.pointer,
            title,
            options,
            selected: 0,
            multi: true,
            toggles: flags,
        }),
        ValueView::Bool(b) => Some(PopupView {
            pointer: f.schema.pointer,
            title,
            options: bool_options(),
            selected: if b { 0 } else { 1 },
            multi: false,
            toggles: Seq::empty(),
        }),
        ValueView::Enum(options, selected) => Some(PopupView {
            pointer: f.schema.pointer,
            title,
            options,
            selected,
            multi: false,
            toggles: Seq::empty(),
        }),
        ValueView::Composite(c) => Some(PopupView {
            pointer: f.schema.pointer,
            title,
            options: c.titles,
            selected: if first_true(c.active) >= 0 { first_true(c.active) } else { 0 },
            multi: c.multi,
            toggles: c.active,
        }),
        _ => None,
    }
}

/// The field after the choice made in its popup: the toggles for a
/// multi-select of enum values or an `anyOf`, `true` for the first option
/// of a boolean, the chosen option of an enum or `oneOf`; any other pairing
/// leaves it unchanged.
pub open spec fn field_after_selection(f: FieldStateView, selection: int, multi: Option<Seq<bool>>) -> FieldStateView {
    match multi {
        Some(flags) => match f.schema.kind {
            KindView::Array(inner) => match *inner {
                KindView::Enum(_) => match f.value {
                    ValueView::Multi(options, cur) => if cur.len() == flags.len() && cur != flags {
                        crate::field::edited(f, ValueView::Multi(options, flags))
                    } else {
                        f
                    },
                    _ => f,
                },
                _ => f,
            },
            KindView::Composite(_, _) => match f.value {
                ValueView::Composite(c) => if c.multi && flags.len() == c.active.len() && flags != c.active {
                    crate::field::edited(f, ValueView::Composite(ChoiceView { active: flags, ..c }))
                } else {
                    f
                },
                _ => f,
            },
            _ => f,
        },
        None => match f.schema.kind {
            KindView::Boolean => match f.value {
                ValueView::Bool(cur) => if cur != (selection == 0) {
                    crate::field::edited(f, ValueView::Bool(selection == 0))
                } else {
                    f
                },
                _ => f,
            },
            KindView::Enum(_) => match f.value {
                ValueView::Enum(options, sel) => if options.len() == 0 {
                    f
                } else {
                    let bounded = if selection < options.len() { selection } else { options.len() - 1 };
                    if sel != bounded {
                        crate::field::edited(f, ValueView::Enum(options, bounded))
                    } else {
                        f
                    }
                },
                _ => f,
            },
            KindView::Composite(_, _) => match f.value {
                ValueView::Composite(c) => {
                    let n = c.active.len() as int;
                    let bounded = if selection < n { selection } else { n - 1 };
                    if !c.multi && n > 0 && single_flags(n, bounded) != c.active {
                        crate::field::edited(f, ValueView::Composite(ChoiceView { active: single_flags(n, bounded), ..c }))
                    } else {
                        f
                    }
                },
                _ => f,
            },
            _ => f,
        },
    }
}

/// Applies the choice made in a popup to its field.
pub fn apply_selection_to_field(field: &mut FieldState, selection: usize, multi: Option<Vec<bool>>)
    ensures
        final(field)@ == field_after_selection(old(field)@, selection as int, match multi {
            Some(v) => Some(v@),
            None => None,
        }),
{
    match multi {
        Some(flags) => {
            let is_enum_array = match &field.schema.kind {
                crate::schema::FieldKind::Array(inner) => match &**inner {
                    crate::schema::FieldKind::Enum(_) => true,
                    _ => false,
                },
                _ => false,
            };
            proof {
                reveal_with_fuel(crate::schema::kind_view, 2);
                assert(is_enum_array <==> (old(field)@.schema.kind matches KindView::Array(inner) && *inner is Enum));
            }
            if is_enum_array {
                let sl = flags.as_slice();
                assert(sl@ == flags@);
                field.set_multi_selection(sl);
            } else {
                match &field.schema.kind {
                    crate::schema::FieldKind::Composite(_) => {
                        let sl = flags.as_slice();
                        assert(sl@ == flags@);
                        field.set_composite_flags(sl);
                    },
                    _ => {},
                }
            }
        },
        None => {
            match &field.schema.kind {
                crate::schema::FieldKind::Boolean => field.set_bool(selection == 0),
                crate::schema::FieldKind::Enum(_) => field.set_enum_selected(selection),
                crate::schema::FieldKind::Composite(_) => field.choose_composite_variant(selection),
                _ => {},
            }
        },
    }
}

/// A field's kind and value agree the way a field starts out: a boolean
/// value on a boolean field, an enum choice within its options on an enum
/// field, toggles on an array-of-enum field, and exactly one active
/// variant on a `oneOf` field with variants.
pub open spec fn value_fits_kind(f: FieldStateView) -> bool {
    &&& (f.value is Bool ==> f.schema.kind is Boolean)
    &&& (f.value matches ValueView::Enum(options, sel) ==> f.schema.kind is Enum && 0 <= sel < options.len())
    &&& (f.value is Multi ==> (f.schema.kind matches KindView::Array(inner) && *inner is Enum))
    &&& (f.value matches ValueView::Composite(c) ==> f.schema.kind is Composite && (!c.multi && c.active.len() > 0
        ==> first_true(c.active) >= 0 && c.active == single_flags(c.active.len() as int, first_true(c.active))))
}

/// Confirming a popup as it opened, without moving the cursor or
/// toggling anything, leaves its field as it was.
pub proof fn lemma_confirm_unchanged_popup(f: FieldStateView)
    requires
        value_fits_kind(f),
        popup_for(f) is Some,
    ensures
        ({
            let p = popup_for(f).unwrap();
            field_after_selection(f, p.selected, if p.multi { Some(p.toggles) } else { None }) == f
        }),
{
    match f.value {
        ValueView::Composite(c) => {
            lemma_first_true(c.active);
        },
        _ => {},
    }
}

impl PopupState {
    /// The cursor is on an option whenever there is one.
    pub open spec fn wf(&self) -> bool {
        self@.options.len() > 0 ==> 0 <= self@.selected < self@.options.len()
    }

    /// A popup over the given options with the cursor at `selected`.
    pub fn new(
        field_pointer: String,
        title: String,
        options: Vec<String>,
        selected: usize,
        multi: bool,
        toggles: Vec<bool>,
    ) -> (r: Self)
        ensures
            r@ == (PopupView {
                pointer: field_pointer@,
                title: title@,
                options: string_views(options@),
                selected: selected as int,
                multi,
                toggles: toggles@,
            }),
    {
        PopupState { field_pointer, title, options, selected, multi, toggles }
    }

    /// The popup a field opens: multi-selects, booleans and enums have one;
    /// other fields have none.
    pub fn from_field(field: &FieldState) -> (r: Option<Self>)
        ensures
            match popup_for(field@) {
                Some(p) => r matches Some(x) && x@ == p,
                None => r is None,
            },
    {
        let title = field.schema.display_label();
        match &field.value {
            FieldValue::MultiSelect { options, selected } => Some(PopupState {
                field_pointer: field.schema.pointer.clone(),
                title,
                options: clone_strings(options),
                selected: 0,
                multi: true,
                toggles: copy_flags(selected),
            }),
            FieldValue::Bool(current) => {
                let mut options: Vec<String> = Vec::new();
                options.push("true".to_string());
                options.push("false".to_string());
                assert(string_views(options@) =~= bool_options());
                Some(PopupState {
                    field_pointer: field.schema.pointer.clone(),
                    title,
                    options,
                    selected: if *current { 0 } else { 1 },
                    multi: false,
                    toggles: Vec::new(),
                })
            },
            FieldValue::Enum { options, selected } => {
                let r = PopupState {
                    field_pointer: field.schema.pointer.clone(),
                    title,
                    options: clone_strings(options),
                    selected: *selected,
                    multi: false,
                    toggles: Vec::new(),
                };
                assert(r.toggles@ =~= Seq::<bool>::empty());
                Some(r)
            },
            FieldValue::Composite(c) => Some(PopupState {
                field_pointer: field.schema.pointer.clone(),
                title,
                options: clone_strings(&c.titles),
                selected: c.cursor(),
                multi: c.multi,
                toggles: c.flags(),
            }),
            _ => None,
        }
    }

    /// The popup of a composite field, from the variants' titles and flags.
    pub fn from_composite(field: &FieldState, data: CompositePopupData) -> (r: Self)
        ensures
            r@ == (PopupView {
                pointer: field@.schema.pointer,
                title: label_of(field@.schema.title, field@.schema.name),
                options: string_views(data.options@),
                selected: data.selected as int,
                multi: data.multi,
                toggles: data.active@,
            }),
    {
        PopupState {
            field_pointer: field.schema.pointer.clone(),
            title: field.schema.display_label(),
            options: data.options,
            selected: data.selected,
            multi: data.multi,
            toggles: data.active,
        }
    }

    /// Moves the cursor up, wrapping to the last option.
    pub fn select_previous(&mut self)
        ensures
            final(self)@ == (PopupView {
                selected: prev_index(old(self)@.selected, old(self)@.options.len() as int),
                ..old(self)@
            }),
    {
        if self.options.len() == 0 {
            return;
        }
        if self.selected == 0 {
            self.selected = self.options.len() - 1;
        } else {
            self.selected = self.selected - 1;
        }
    }

    /// Moves the cursor down, wrapping to the first option.
    pub fn select_next(&mut self)
        ensures
            final(self)@ == (PopupView {
                selected: next_index(old(self)@.selected, old(self)@.options.len() as int),
                ..old(self)@
            }),
            final(self).wf(),
    {
        if self.options.len() == 0 {
            return;
        }
        let len = self.options.len();
        proof {
            vstd::arithmetic::div_mod::lemma_add_mod_noop(self.selected as int, 1, len as int);
            vstd::arithmetic::div_mod::lemma_add_mod_noop_right(self.selected as int % len as int, 1, len as int);
        }
        self.selected = (self.selected % len + 1) % len;
    }

    /// The option under the cursor.
    pub fn selection(&self) -> (r: usize)
        ensures
            r == self@.selected,
    {
        self.selected
    }

    /// The pointer of the field the popup edits.
    pub fn pointer(&self) -> (r: &str)
        ensures
            r@ == self@.pointer,
    {
        self.field_pointer.as_str()
    }

    /// Whether several options can be active at once.
    pub fn is_multi(&self) -> (r: bool)
        ensures
            r == self@.multi,
    {
        self.multi
    }

    /// Flips the toggle under the cursor of a multi-select; does nothing
    /// for a single choice.
    pub fn toggle_current(&mut self)
        ensures
            final(self)@ == (PopupView {
                toggles: toggled(old(self)@.toggles, old(self)@.selected, old(self)@.multi),
                ..old(self)@
            }),
    {
        if !self.multi {
            return;
        }
        if self.selected < self.toggles.len() {
            let flag = self.toggles[self.selected];
            self.toggles.set(self.selected, !flag);
        }
    }

    /// The toggles of a multi-select; `None` for a single choice.
    pub fn active(&self) -> (r: Option<&[bool]>)
        ensures
            r matches Some(t) ==> self@.multi && t@ == self@.toggles,
            r is None <==> !self@.multi,
    {
        if self.multi {
            Some(self.toggles.as_slice())
        } else {
            None
        }
    }

    /// A copy of the toggles of a multi-select; `None` for a single choice.
    pub fn active_copy(&self) -> (r: Option<Vec<bool>>)
        ensures
            match r {
                Some(v) => self@.multi && v@ == self@.toggles,
                None => !self@.multi,
            },
    {
        if self.multi {
            Some(copy_flags(&self.toggles))
        } else {
            None
        }
    }

    /// The popup as the renderer sees it.
    pub fn as_render(&self) -> (r: PopupRender<'_>)
        ensures
            r.title@ == self@.title,
            string_views(r.options@) == self@.options,
            r.selected == self@.selected,
            r.multi == self@.multi,
            r.active matches Some(t) ==> self@.multi && t@ == self@.toggles,
            r.active is None <==> !self@.multi,
    {
        PopupRender {
            title: self.title.as_str(),
            options: self.options.as_slice(),
            selected: self.selected,
            multi: self.multi,
            active: self.active(),
        }
    }
}

/// Moving the cursor down and then up, or up and then down, puts it back
/// where it was.
pub proof fn lemma_next_prev_inverse(selected: int, len: int)
    requires
        len > 0,
        0 <= selected < len,
    ensures
        prev_index(next_index(selected, len), len) == selected,
        next_index(prev_index(selected, len), len) == selected,
        0 <= next_index(selected, len) < len,
        0 <= prev_index(selected, len) < len,
{
    if selected + 1 < len {
        lemma_small_mod((selected + 1) as nat, len as nat);
    } else {
        lemma_mod_self_0(len);
    }
    if selected == 0 {
        lemma_mod_self_0(len);
    } else {
        lemma_small_mod(selected as nat, len as nat);
    }
}

/// Toggling the same option twice leaves the toggles as they were.
pub proof fn lemma_toggle_twice(toggles: Seq<bool>, selected: int, multi: bool)
    ensures
        toggled(toggled(toggles, selected, multi), selected, multi) == toggles,
{
    if multi && 0 <= selected < toggles.len() {
        assert(toggled(toggled(toggles, selected, multi), selected, multi) =~= toggles);
    }
}

} // verus!

//! Composite fields (`oneOf` / `anyOf`): which variants are active, what
//! they show, and the value the active ones build.

use vstd::prelude::*;
use crate::coerce::{join_with, push_joined, CoercionErrorView, FieldCoercionError};
use crate::field::display_spec;
use crate::form::{all_fields, build_fields, initial_sections, section_views, FormState, FormStateView, SectionStateView};
use crate::json::{copy_value, items_view, json_view, JsonValue, JsonView};
use crate::label::label_of;
use crate::pointer::{join_pointer, joined_pointer};
use crate::schema::{parse_resolved_schema, parse_spec, schema_error_text, schema_error_view, CompositeMode};
use crate::text::{chars_of, clone_opt, opt_view, push_str, string_from_chars, string_views};

verus! {

/// One variant of a composite field.
#[derive(Debug, PartialEq)]
pub struct CompositeVariant {
    pub id: String,
    pub title: String,
    pub description: Option<String>,
    pub schema: JsonValue,
}

/// A composite field's variants and how they combine.
#[derive(Debug, PartialEq)]
pub struct CompositeField {
    pub mode: CompositeMode,
    pub variants: Vec<CompositeVariant>,
}

/// A copy of a composite field's description.
pub fn clone_composite_field(c: &CompositeField) -> (r: CompositeField)
    ensures
        r.mode == c.mode,
        crate::schema::variant_descs(r.variants@) == crate::schema::variant_descs(c.variants@),
{
    let mut variants: Vec<CompositeVariant> = Vec::new();
    let mut i: usize = 0;
    while i < c.variants.len()
        invariant
            i <= c.variants.len(),
            variants@.len() == i,
            forall|j: int| 0 <= j < i ==> #[trigger] crate::schema::variant_desc(variants@[j]) == crate::schema::variant_desc(c.variants@[j]),
        decreases c.variants.len() - i,
    {
        let v = &c.variants[i];
        variants.push(CompositeVariant {
            id: v.id.clone(),
            title: v.title.clone(),
            description: clone_opt(&v.description),
            schema: copy_value(&v.schema),
        });
        i = i + 1;
    }
    assert(crate::schema::variant_descs(variants@) =~= crate::schema::variant_descs(c.variants@));
    CompositeField { mode: c.mode, variants }
}

/// What the popup for a composite field offers.
#[derive(Debug, Clone)]
pub struct CompositePopupData {
    pub options: Vec<String>,
    pub selected: usize,
    pub multi: bool,
    pub active: Vec<bool>,
}

/// The variants of a composite field as the renderer lists them.
#[derive(Debug, Clone)]
pub struct CompositeSelectorView {
    pub multi: bool,
    pub options: Vec<String>,
    pub active: Vec<bool>,
}

/// The fields of one active variant, as lines of text.
#[derive(Debug, Clone)]
pub struct CompositeVariantSummary {
    pub title: String,
    pub description: Option<String>,
    pub lines: Vec<String>,
}

/// The view of a variant summary.
pub struct SummaryView {
    pub title: Seq<char>,
    pub description: Option<Seq<char>>,
    pub lines: Seq<Seq<char>>,
}

impl View for CompositeVariantSummary {
    type V = SummaryView;

    open spec fn view(&self) -> SummaryView {
        SummaryView { title: self.title@, description: opt_view(self.description), lines: string_views(self.lines@) }
    }
}

/// A variant and the form it is edited in, once that form exists.
#[derive(Debug)]
pub struct CompositeVariantState {
    id: String,
    title: String,
    description: Option<String>,
    schema: JsonValue,
    active: bool,
    form: Option<FormState>,
}

/// The view of a variant's state.
pub struct VariantView {
    pub id: Seq<char>,
    pub title: Seq<char>,
    pub description: Option<Seq<char>>,
    pub schema: JsonView,
    pub active: bool,
    pub form: Option<FormStateView>,
}

impl View for CompositeVariantState {
    type V = VariantView;

    closed spec fn view(&self) -> VariantView {
        VariantView {
            id: self.id@,
            title: self.title@,
            description: opt_view(self.description),
            schema: self.schema@,
            active: self.active,
            form: match self.form {
                Some(f) => Some(f@),
                None => None,
            },
        }
    }
}

/// The state of a composite field.
#[derive(Debug)]
pub struct CompositeState {
    pointer: String,
    mode: CompositeMode,
    variants: Vec<CompositeVariantState>,
}

/// The view of a composite field's state.
pub struct CompositeView {
    pub pointer: Seq<char>,
    pub multi: bool,
    pub variants: Seq<VariantView>,
}

pub open spec fn variant_views(s: Seq<CompositeVariantState>) -> Seq<VariantView> {
    s.map_values(|v: CompositeVariantState| v@)
}

impl View for CompositeState {
    type V = CompositeView;

    closed spec fn view(&self) -> CompositeView {
        CompositeView { pointer: self.pointer@, multi: self.mode == CompositeMode::AnyOf, variants: variant_views(self.variants@) }
    }
}

/// A session editing one variant's form outside the composite.
#[derive(Debug)]
pub struct CompositeEditorSession {
    pub variant_index: usize,
    pub title: String,
    pub description: Option<String>,
    pub form_state: FormState,
}

// ---------------------------------------------------------------------------
// Selection.

pub open spec fn titles(vs: Seq<VariantView>) -> Seq<Seq<char>> {
    vs.map_values(|v: VariantView| v.title)
}

pub open spec fn flags(vs: Seq<VariantView>) -> Seq<bool> {
    vs.map_values(|v: VariantView| v.active)
}

/// The index of the first active variant, or `-1`.
pub open spec fn first_active(vs: Seq<VariantView>) -> int
    decreases vs.len(),
{
    if vs.len() == 0 {
        -1
    } else if vs[0].active {
        0
    } else {
        let r = first_active(vs.drop_first());
        if r < 0 {
            -1
        } else {
            r + 1
        }
    }
}

proof fn lemma_first_active(vs: Seq<VariantView>)
    ensures
        -1 <= first_active(vs) < vs.len(),
        first_active(vs) >= 0 ==> vs[first_active(vs)].active,
        forall|j: int| 0 <= j < vs.len() && (first_active(vs) < 0 || j < first_active(vs)) ==> !(#[trigger] vs[j]).active,
    decreases vs.len(),
{
    if vs.len() > 0 && !vs[0].active {
        lemma_first_active(vs.drop_first());
        assert forall|j: int| 0 <= j < vs.len() && (first_active(vs) < 0 || j < first_active(vs)) implies !(#[trigger] vs[j]).active by {
            if j > 0 {
                assert(vs[j] == vs.drop_first()[j - 1]);
            }
        }
    }
}

/// The titles of the active variants, in order.
pub open spec fn active_titles(vs: Seq<VariantView>) -> Seq<Seq<char>>
    decreases vs.len(),
{
    if vs.len() == 0 {
        Seq::empty()
    } else {
        let r = active_titles(vs.drop_last());
        if vs.last().active {
            r.push(vs.last().title)
        } else {
            r
        }
    }
}

/// The line a composite field shows: the chosen variant for `oneOf`, the
/// active ones for `anyOf`.
pub open spec fn summary_spec(st: CompositeView) -> Seq<char> {
    if !st.multi {
        let i = first_active(st.variants);
        if i >= 0 {
            "Variant: "@ + st.variants[i].title
        } else {
            "Variant: <none>"@
        }
    } else {
        let t = active_titles(st.variants);
        if t.len() == 0 {
            "Variants: []"@
        } else {
            "Variants: "@ + join_with(t, ", "@)
        }
    }
}

/// What a composite field shows as its value: its summary and how to
/// change it.
pub open spec fn composite_display(st: CompositeView) -> Seq<char> {
    summary_spec(st) + if st.multi { " (Enter to toggle)"@ } else { " (Enter to choose)"@ }
}

/// The flags after choosing variant `target` alone.
pub open spec fn single_flags(n: int, target: int) -> Seq<bool> {
    Seq::new(n as nat, |i: int| i == target)
}

/// The variants with the given activity.
pub open spec fn with_flags(vs: Seq<VariantView>, f: Seq<bool>) -> Seq<VariantView> {
    Seq::new(vs.len(), |i: int| VariantView { active: f[i], ..vs[i] })
}

impl CompositeState {
    proof fn lemma_view(&self)
        ensures
            self@.variants.len() == self.variants@.len(),
            forall|i: int| 0 <= i < self.variants@.len() ==> #[trigger] self@.variants[i] == self.variants@[i]@,
            self@.pointer == self.pointer@,
            self@.multi == (self.mode == CompositeMode::AnyOf),
    {
    }

    /// A composite field's state: for `oneOf` the first variant is chosen,
    /// for `anyOf` none is active; no variant form exists yet.
    pub fn new(pointer: &str, field: &CompositeField) -> (r: Self)
        ensures
            r@.pointer == pointer@,
            r@.multi == (field.mode == CompositeMode::AnyOf),
            r@.variants.len() == field.variants@.len(),
            forall|i: int| 0 <= i < r@.variants.len() ==> {
                let v = #[trigger] r@.variants[i];
                &&& v.id == field.variants@[i].id@
                &&& v.title == field.variants@[i].title@
                &&& v.description == opt_view(field.variants@[i].description)
                &&& v.schema == field.variants@[i].schema@
                &&& v.active == (field.mode == CompositeMode::OneOf && i == 0)
                &&& v.form is None
            },
    {
        let mut variants: Vec<CompositeVariantState> = Vec::new();
        let mut i: usize = 0;
        while i < field.variants.len()
            invariant
                i <= field.variants.len(),
                variants@.len() == i,
                forall|j: int| 0 <= j < i ==> {
                    let v = (#[trigger] variants@[j])@;
                    &&& v.id == field.variants@[j].id@
                    &&& v.title == field.variants@[j].title@
                    &&& v.description == opt_view(field.variants@[j].description)
                    &&& v.schema == field.variants@[j].schema@
                    &&& v.active == (field.mode == CompositeMode::OneOf && j == 0)
                    &&& v.form is None
                },
            decreases field.variants.len() - i,
        {
            let src = &field.variants[i];
            let active = match field.mode {
                CompositeMode::OneOf => i == 0,
                CompositeMode::AnyOf => false,
            };
            variants.push(CompositeVariantState {
                id: src.id.clone(),
                title: src.title.clone(),
                description: clone_opt(&src.description),
                schema: copy_value(&src.schema),
                active,
                form: None,
            });
            i = i + 1;
        }
        CompositeState { pointer: pointer.to_string(), mode: field.mode, variants }
    }

    /// The field's pointer.
    pub fn pointer(&self) -> (r: &str)
        ensures
            r@ == self@.pointer,
    {
        self.pointer.as_str()
    }

    /// Whether several variants can be active (`anyOf`).
    pub fn is_multi(&self) -> (r: bool)
        ensures
            r == self@.multi,
    {
        match self.mode {
            CompositeMode::AnyOf => true,
            CompositeMode::OneOf => false,
        }
    }

    /// The number of variants.
    pub fn variant_count(&self) -> (r: usize)
        ensures
            r == self@.variants.len(),
    {
        proof {
            self.lemma_view();
        }
        self.variants.len()
    }

    /// The variants' titles.
    pub fn option_titles(&self) -> (r: Vec<String>)
        ensures
            string_views(r@) == titles(self@.variants),
    {
        proof {
            self.lemma_view();
        }
        let mut out: Vec<String> = Vec::new();
        let mut i: usize = 0;
        while i < self.variants.len()
            invariant
                i <= self.variants.len(),
                string_views(out@) == titles(self@.variants).subrange(0, i as int),
            decreases self.variants.len() - i,
        {
            let ghost before = out@;
            let t = self.variants[i].title.clone();
            out.push(t);
            proof {
                assert(self@.variants[i as int] == self.variants@[i as int]@);
                assert(string_views(out@) =~= string_views(before).push(t@));
                assert(titles(self@.variants).subrange(0, i + 1) =~= titles(self@.variants).subrange(0, i as int).push(
                    self@.variants[i as int].title,
                ));
            }
            i = i + 1;
        }
        assert(titles(self@.variants).subrange(0, self.variants.len() as int) =~= titles(self@.variants));
        out
    }

    /// Which variants are active.
    pub fn active_flags(&self) -> (r: Vec<bool>)
        ensures
            r@ == flags(self@.variants),
    {
        proof {
            self.lemma_view();
        }
        let mut out: Vec<bool> = Vec::new();
        let mut i: usize = 0;
        while i < self.variants.len()
            invariant
                i <= self.variants.len(),
                out@ == flags(self@.variants).subrange(0, i as int),
            decreases self.variants.len() - i,
        {
            out.push(self.variants[i].active);
            proof {
                assert(self@.variants[i as int] == self.variants@[i as int]@);
                assert(out@ =~= flags(self@.variants).subrange(0, i + 1));
            }
            i = i + 1;
        }
        assert(flags(self@.variants).subrange(0, self.variants.len() as int) =~= flags(self@.variants));
        out
    }

    /// The first active variant.
    pub fn selected_index(&self) -> (r: Option<usize>)
        ensures
            match r {
                Some(i) => i == first_active(self@.variants),
                None => first_active(self@.variants) < 0,
            },
    {
        proof {
            self.lemma_view();
        }
        proof {
            lemma_first_active(self@.variants);
        }
        let mut i: usize = 0;
        while i < self.variants.len()
            invariant
                i <= self.variants.len(),
                -1 <= first_active(self@.variants) < self@.variants.len(),
                first_active(self@.variants) >= 0 ==> self@.variants[first_active(self@.variants)].active,
                forall|j: int| 0 <= j < self@.variants.len() && (first_active(self@.variants) < 0 || j < first_active(self@.variants)) ==> !(#[trigger] self@.variants[j]).active,
                forall|j: int| 0 <= j < i ==> !(#[trigger] self@.variants[j]).active,
            decreases self.variants.len() - i,
        {
            assert(self@.variants[i as int] == self.variants@[i as int]@);
            if self.variants[i].active {
                let ghost f = first_active(self@.variants);
                assert(f == i) by {
                    if f >= 0 && f < i {
                        assert(!self@.variants[f].active);
                    }
                }
                return Some(i);
            }
            i = i + 1;
        }
        None
    }

    /// The indices of the active variants, in order.
    pub fn active_indices(&self) -> (r: Vec<usize>)
        ensures
            forall|k: int| 0 <= k < r@.len() ==> 0 <= #[trigger] r@[k] < self@.variants.len() && self@.variants[r@[k] as int].active,
            forall|i: int| 0 <= i < self@.variants.len() && #[trigger] self@.variants[i].active ==> r@.contains(i as usize),
            forall|a: int, b: int| 0 <= a < b < r@.len() ==> r@[a] < r@[b],
    {
        proof {
            self.lemma_view();
        }
        let mut out: Vec<usize> = Vec::new();
        let mut i: usize = 0;
        while i < self.variants.len()
            invariant
                i <= self.variants.len(),
                forall|k: int| 0 <= k < out@.len() ==> 0 <= #[trigger] out@[k] < i && self@.variants[out@[k] as int].active,
                forall|q: int| 0 <= q < i && #[trigger] self@.variants[q].active ==> out@.contains(q as usize),
                forall|a: int, b: int| 0 <= a < b < out@.len() ==> out@[a] < out@[b],
            decreases self.variants.len() - i,
        {
            assert(self@.variants[i as int] == self.variants@[i as int]@);
            if self.variants[i].active {
                let ghost before = out@;
                out.push(i);
                assert(out@[out@.len() - 1] == i);
                assert forall|q: int| 0 <= q < i + 1 && #[trigger] self@.variants[q].active implies out@.contains(q as usize) by {
                    if q < i {
                        assert(before.contains(q as usize));
                        let w = choose|w: int| 0 <= w < before.len() && before[w] == q as usize;
                        assert(out@[w] == q as usize);
                    } else {
                        assert(out@[out@.len() - 1] == q as usize);
                    }
                }
            }
            i = i + 1;
        }
        out
    }

    /// The line the field shows.
    pub fn summary(&self) -> (r: String)
        ensures
            r@ == summary_spec(self@),
    {
        proof {
            self.lemma_view();
        }
        match self.mode {
            CompositeMode::OneOf => {
                proof {
                    lemma_first_active(self@.variants);
                }
                match self.selected_index() {
                    Some(i) => {
                        let mut out = chars_of("Variant: ");
                        push_str(&mut out, self.variants[i].title.as_str());
                        proof {
                            assert(self@.variants[i as int] == self.variants@[i as int]@);
                        }
                        string_from_chars(&out)
                    },
                    None => "Variant: <none>".to_string(),
                }
            },
            CompositeMode::AnyOf => {
                let mut t: Vec<String> = Vec::new();
                let mut i: usize = 0;
                while i < self.variants.len()
                    invariant
                        i <= self.variants.len(),
                        string_views(t@) == active_titles(self@.variants.subrange(0, i as int)),
                    decreases self.variants.len() - i,
                {
                    let ghost pre = self@.variants.subrange(0, i as int);
                    let ghost post = self@.variants.subrange(0, i + 1);
                    assert(post.drop_last() =~= pre);
                    assert(post.last() == self.variants@[i as int]@);
                    if self.variants[i].active {
                        let ghost before = t@;
                        t.push(self.variants[i].title.clone());
                        assert(string_views(t@) =~= string_views(before).push(self.variants@[i as int].title@));
                    }
                    i = i + 1;
                }
                assert(self@.variants.subrange(0, self.variants.len() as int) =~= self@.variants);
                if t.len() == 0 {
                    "Variants: []".to_string()
                } else {
                    let mut out = chars_of("Variants: ");
                    push_joined(&mut out, &t, ", ");
                    string_from_chars(&out)
                }
            },
        }
    }

    /// The value a composite field shows: the summary, then how to change
    /// the choice.
    pub fn display_value(&self) -> (r: String)
        ensures
            r@ == composite_display(self@),
    {
        let summary = self.summary();
        let mut out = chars_of(summary.as_str());
        if self.is_multi() {
            push_str(&mut out, " (Enter to toggle)");
        } else {
            push_str(&mut out, " (Enter to choose)");
        }
        string_from_chars(&out)
    }

    fn set_active(&mut self, i: usize, active: bool)
        requires
            i < old(self)@.variants.len(),
        ensures
            final(self)@ == (CompositeView {
                variants: old(self)@.variants.update(i as int, VariantView { active, ..old(self)@.variants[i as int] }),
                ..old(self)@
            }),
    {
        let ghost before = self.variants@;
        let mut v = self.variants.remove(i);
        v.active = active;
        self.variants.insert(i, v);
        proof {
            assert(self.variants@ =~= before.update(i as int, v));
            assert(variant_views(self.variants@) =~= variant_views(before).update(i as int, v@));
        }
    }

    /// Chooses one variant of a `oneOf`, bounded to the last; `true` when
    /// that changed which variants are active. Nothing happens for `anyOf`
    /// or without variants.
    pub fn apply_single(&mut self, index: usize) -> (r: bool)
        ensures
            (old(self)@.multi || old(self)@.variants.len() == 0) ==> !r && final(self)@ == old(self)@,
            (!old(self)@.multi && old(self)@.variants.len() > 0) ==> ({
                let n = old(self)@.variants.len() as int;
                let target = if index < n { index as int } else { n - 1 };
                &&& final(self)@ == (CompositeView {
                    variants: with_flags(old(self)@.variants, single_flags(n, target)),
                    ..old(self)@
                })
                &&& r == (flags(old(self)@.variants) != single_flags(n, target))
            }),
    {
        proof {
            self.lemma_view();
        }
        if self.is_multi() || self.variants.len() == 0 {
            return false;
        }
        let n = self.variants.len();
        let target = if index < n { index } else { n - 1 };
        let ghost old_vs = self@.variants;
        let mut changed = false;
        let mut i: usize = 0;
        while i < n
            invariant
                n == self.variants.len(),
                n == old_vs.len(),
                i <= n,
                target < n,
                self@.pointer == old(self)@.pointer,
                self@.multi == old(self)@.multi,
                old_vs == old(self)@.variants,
                forall|j: int| 0 <= j < i ==> #[trigger] self@.variants[j] == (VariantView { active: j == target, ..old_vs[j] }),
                forall|j: int| i <= j < n ==> #[trigger] self@.variants[j] == old_vs[j],
                changed == (exists|j: int| 0 <= j < i && #[trigger] old_vs[j].active != (j == target)),
            decreases n - i,
        {
            let next = i == target;
            proof {
                self.lemma_view();
            }
            assert(self@.variants[i as int] == self.variants@[i as int]@);
            assert(old_vs[i as int] == self@.variants[i as int]);
            let differs = self.variants[i].active != next;
            let ghost was = changed;
            if differs {
                self.set_active(i, next);
                proof {
                    self.lemma_view();
                }
                changed = true;
            }
            proof {
                assert(differs == (old_vs[i as int].active != (i == target)));
                if differs {
                    assert(old_vs[i as int].active != (i == target));
                }
                if !was && !differs {
                    assert forall|j: int| 0 <= j < i + 1 implies !(#[trigger] old_vs[j].active != (j == target)) by {
                        if j < i {
                        }
                    }
                }
            }
            i = i + 1;
        }
        proof {
            let n = old_vs.len() as int;
            assert(self@.variants =~= with_flags(old_vs, single_flags(n, target as int)));
            if changed {
                let j = choose|j: int| 0 <= j < n && #[trigger] old_vs[j].active != (j == target);
                assert(flags(old_vs)[j] != single_flags(n, target as int)[j]);
            } else {
                assert(flags(old_vs) =~= single_flags(n, target as int));
            }
        }
        changed
    }

    /// Sets which variants of an `anyOf` are active; `true` when that
    /// changed anything. Nothing happens for `oneOf` or flags of another
    /// length.
    pub fn apply_multi(&mut self, new_flags: &[bool]) -> (r: bool)
        ensures
            (!old(self)@.multi || new_flags@.len() != old(self)@.variants.len()) ==> !r && final(self)@ == old(self)@,
            (old(self)@.multi && new_flags@.len() == old(self)@.variants.len()) ==> ({
                &&& final(self)@ == (CompositeView { variants: with_flags(old(self)@.variants, new_flags@), ..old(self)@ })
                &&& r == (flags(old(self)@.variants) != new_flags@)
            }),
    {
        proof {
            self.lemma_view();
        }
        if !self.is_multi() || new_flags.len() != self.variants.len() {
            return false;
        }
        let n = self.variants.len();
        let ghost old_vs = self@.variants;
        let mut changed = false;
        let mut i: usize = 0;
        while i < n
            invariant
                n == self.variants.len(),
                n == old_vs.len(),
                n == new_flags@.len(),
                i <= n,
                self@.pointer == old(self)@.pointer,
                self@.multi == old(self)@.multi,
                old_vs == old(self)@.variants,
                forall|j: int| 0 <= j < i ==> #[trigger] self@.variants[j] == (VariantView { active: new_flags@[j], ..old_vs[j] }),
                forall|j: int| i <= j < n ==> #[trigger] self@.variants[j] == old_vs[j],
                changed == (exists|j: int| 0 <= j < i && #[trigger] old_vs[j].active != new_flags@[j]),
            decreases n - i,
        {
            proof {
                self.lemma_view();
            }
            assert(self@.variants[i as int] == self.variants@[i as int]@);
            assert(old_vs[i as int] == self@.variants[i as int]);
            let differs = self.variants[i].active != new_flags[i];
            let ghost was = changed;
            if differs {
                self.set_active(i, new_flags[i]);
                proof {
                    self.lemma_view();
                }
                changed = true;
            }
            proof {
                assert(differs == (old_vs[i as int].active != new_flags@[i as int]));
                if differs {
                    assert(old_vs[i as int].active != new_flags@[i as int]);
                }
                if !was && !differs {
                    assert forall|j: int| 0 <= j < i + 1 implies !(#[trigger] old_vs[j].active != new_flags@[j]) by {
                        if j < i {
                        }
                    }
                }
            }
            i = i + 1;
        }
        proof {
            assert(self@.variants =~= with_flags(old_vs, new_flags@));
            if changed {
                let j = choose|j: int| 0 <= j < n && #[trigger] old_vs[j].active != new_flags@[j];
                assert(flags(old_vs)[j] != new_flags@[j]);
            } else {
                assert(flags(old_vs) =~= new_flags@);
            }
        }
        changed
    }

    /// What the selection popup offers: the titles, the first active
    /// variant (or the first), the mode and the flags; `None` without
    /// variants.
    pub fn composite_popup(&self) -> (r: Option<CompositePopupData>)
        ensures
            self@.variants.len() == 0 ==> r is None,
            self@.variants.len() > 0 ==> (r matches Some(d) && string_views(d.options@) == titles(self@.variants)
                && d.selected == (if first_active(self@.variants) >= 0 { first_active(self@.variants) } else { 0 })
                && d.multi == self@.multi && d.active@ == flags(self@.variants)),
    {
        proof {
            self.lemma_view();
        }
        let options = self.option_titles();
        assert(string_views(options@).len() == options@.len());
        assert(titles(self@.variants).len() == self@.variants.len());
        if options.len() == 0 {
            return None;
        }
        proof {
            lemma_first_active(self@.variants);
        }
        let sel = match self.selected_index() {
            Some(i) => i,
            None => 0,
        };
        let selected = if sel < options.len() - 1 { sel } else { options.len() - 1 };
        Some(CompositePopupData { options, selected, multi: self.is_multi(), active: self.active_flags() })
    }

    /// The variants as the renderer lists them; `None` without variants.
    pub fn composite_selector(&self) -> (r: Option<CompositeSelectorView>)
        ensures
            self@.variants.len() == 0 ==> r is None,
            self@.variants.len() > 0 ==> (r matches Some(d) && string_views(d.options@) == titles(self@.variants)
                && d.multi == self@.multi && d.active@ == flags(self@.variants)),
    {
        proof {
            self.lemma_view();
        }
        let options = self.option_titles();
        assert(string_views(options@).len() == options@.len());
        assert(titles(self@.variants).len() == self@.variants.len());
        if options.len() == 0 {
            return None;
        }
        Some(CompositeSelectorView { multi: self.is_multi(), options, active: self.active_flags() })
    }
}

/// Choosing a variant of a `oneOf` leaves exactly that variant active.
pub proof fn lemma_single_choice_exclusive(vs: Seq<VariantView>, target: int)
    requires
        0 <= target < vs.len(),
    ensures
        first_active(with_flags(vs, single_flags(vs.len() as int, target))) == target,
        forall|i: int| 0 <= i < vs.len() ==> (#[trigger] with_flags(vs, single_flags(vs.len() as int, target))[i]).active == (i == target),
{
    let w = with_flags(vs, single_flags(vs.len() as int, target));
    lemma_first_active(w);
    let f = first_active(w);
    assert(w[target].active);
    if f < 0 || f > target {
        assert(!w[target].active);
    }
    if 0 <= f && f < target {
        assert(!w[f].active);
    }
}


// ---------------------------------------------------------------------------
// Values and summaries.

/// The message for a variant whose schema cannot be read as a form.
pub open spec fn variant_parse_error(base: Seq<char>, title: Seq<char>, reason: Seq<char>) -> CoercionErrorView {
    CoercionErrorView { pointer: base, message: "failed to parse composite variant '"@ + title + "': "@ + reason }
}

/// The sections a variant is edited in: its form once it exists, otherwise
/// a fresh form read from its schema.
pub open spec fn ready_sections(v: VariantView, base: Seq<char>) -> Result<Seq<SectionStateView>, CoercionErrorView> {
    match v.form {
        Some(f) => Ok(f.sections),
        None => match parse_spec(v.schema) {
            Ok(fv) => Ok(initial_sections(fv)),
            Err(e) => Err(variant_parse_error(base, v.title, schema_error_text(e))),
        },
    }
}

/// An error from inside a variant, with its pointer made absolute.
pub open spec fn rejoined(e: CoercionErrorView, base: Seq<char>) -> CoercionErrorView {
    CoercionErrorView { pointer: joined_pointer(base, e.pointer), message: e.message }
}

/// The value one variant's form builds.
pub open spec fn build_one(v: VariantView, base: Seq<char>) -> Result<JsonView, CoercionErrorView> {
    match ready_sections(v, base) {
        Err(e) => Err(e),
        Ok(secs) => match build_fields(all_fields(secs)) {
            Ok(x) => Ok(x),
            Err(e) => Err(rejoined(e, base)),
        },
    }
}

/// The values of the active variants, in order; the first failure wins.
pub open spec fn build_all(vs: Seq<VariantView>, base: Seq<char>) -> Result<Seq<JsonView>, CoercionErrorView>
    decreases vs.len(),
{
    if vs.len() == 0 {
        Ok(Seq::empty())
    } else {
        match build_all(vs.drop_last(), base) {
            Err(e) => Err(e),
            Ok(vals) => if vs.last().active {
                match build_one(vs.last(), base) {
                    Err(e) => Err(e),
                    Ok(x) => Ok(vals.push(x)),
                }
            } else {
                Ok(vals)
            },
        }
    }
}

/// The value a composite field contributes: the chosen variant's value for
/// `oneOf`, the array of the active variants' values for `anyOf`; a
/// required field without an active variant is an error, an optional one
/// contributes nothing.
pub open spec fn build_value_spec(st: CompositeView, required: bool) -> Result<Option<JsonView>, CoercionErrorView> {
    if !st.multi {
        let i = first_active(st.variants);
        if i >= 0 {
            match build_one(st.variants[i], st.pointer) {
                Ok(x) => Ok(Some(x)),
                Err(e) => Err(e),
            }
        } else if required {
            Err(CoercionErrorView { pointer: st.pointer, message: "oneOf requires a selected variant"@ })
        } else {
            Ok(None)
        }
    } else {
        match build_all(st.variants, st.pointer) {
            Err(e) => Err(e),
            Ok(vals) => if vals.len() == 0 {
                if required {
                    Err(CoercionErrorView { pointer: st.pointer, message: "anyOf requires at least one active variant"@ })
                } else {
                    Ok(None)
                }
            } else {
                Ok(Some(JsonView::Array(vals)))
            },
        }
    }
}

/// Two variant lists that agree on which variants are active, and on
/// everything about the active ones.
pub open spec fn same_active(a: Seq<VariantView>, b: Seq<VariantView>) -> bool {
    &&& a.len() == b.len()
    &&& forall|i: int| 0 <= i < a.len() ==> #[trigger] a[i].active == b[i].active
    &&& forall|i: int| 0 <= i < a.len() && #[trigger] a[i].active ==> a[i] == b[i]
}

proof fn lemma_first_active_same(a: Seq<VariantView>, b: Seq<VariantView>)
    requires
        same_active(a, b),
    ensures
        first_active(a) == first_active(b),
    decreases a.len(),
{
    if a.len() > 0 {
        assert(a[0].active == b[0].active);
        let a1 = a.drop_first();
        let b1 = b.drop_first();
        assert forall|i: int| 0 <= i < a1.len() implies #[trigger] a1[i].active == b1[i].active by {
            assert(a[i + 1].active == b[i + 1].active);
        }
        assert forall|i: int| 0 <= i < a1.len() && #[trigger] a1[i].active implies a1[i] == b1[i] by {
            assert(a[i + 1].active);
        }
        lemma_first_active_same(a1, b1);
    }
}

proof fn lemma_build_all_same(a: Seq<VariantView>, b: Seq<VariantView>, base: Seq<char>)
    requires
        same_active(a, b),
    ensures
        build_all(a, base) == build_all(b, base),
    decreases a.len(),
{
    if a.len() > 0 {
        let a1 = a.drop_last();
        let b1 = b.drop_last();
        assert forall|i: int| 0 <= i < a1.len() implies #[trigger] a1[i].active == b1[i].active by {
            assert(a[i].active == b[i].active);
        }
        assert forall|i: int| 0 <= i < a1.len() && #[trigger] a1[i].active implies a1[i] == b1[i] by {
            assert(a[i].active);
        }
        lemma_build_all_same(a1, b1, base);
        assert(a.last().active == b.last().active);
        if a.last().active {
            assert(a.last() == b.last());
        }
    }
}

/// Variants that are not active never reach the document: whatever their
/// schemas and half-filled forms hold, the field's value is the same.
pub proof fn lemma_inactive_variants_ignored(a: CompositeView, b: CompositeView, required: bool)
    requires
        a.pointer == b.pointer,
        a.multi == b.multi,
        same_active(a.variants, b.variants),
    ensures
        build_value_spec(a, required) == build_value_spec(b, required),
{
    lemma_first_active_same(a.variants, b.variants);
    lemma_first_active(a.variants);
    lemma_build_all_same(a.variants, b.variants, a.pointer);
    let i = first_active(a.variants);
    if i >= 0 {
        assert(a.variants[i].active);
        assert(a.variants[i] == b.variants[i]);
    }
}

proof fn lemma_build_all_err(vs: Seq<VariantView>, i: int, base: Seq<char>)
    requires
        0 <= i <= vs.len(),
        build_all(vs.subrange(0, i), base) is Err,
    ensures
        build_all(vs, base) == build_all(vs.subrange(0, i), base),
    decreases vs.len() - i,
{
    if i < vs.len() {
        assert(vs.subrange(0, i + 1).drop_last() =~= vs.subrange(0, i));
        lemma_build_all_err(vs, i + 1, base);
    } else {
        assert(vs.subrange(0, i) =~= vs);
    }
}

fn parse_failure(base: &str, title: &str, reason: String) -> (r: FieldCoercionError)
    ensures
        r@ == variant_parse_error(base@, title@, reason@),
{
    let mut out = chars_of("failed to parse composite variant '");
    push_str(&mut out, title);
    push_str(&mut out, "': ");
    push_str(&mut out, reason.as_str());
    FieldCoercionError { pointer: base.to_string(), message: string_from_chars(&out) }
}

fn build_variant(v: &CompositeVariantState, base: &str) -> (r: Result<JsonValue, FieldCoercionError>)
    ensures
        match (r, build_one(v@, base@)) {
            (Ok(x), Ok(w)) => x@ == w,
            (Err(e), Err(w)) => e@ == w,
            _ => false,
        },
{
    let built = match &v.form {
        Some(f) => f.try_build_value(),
        None => match parse_resolved_schema(&v.schema) {
            Ok(fs) => {
                let form = FormState::from_schema(&fs);
                form.try_build_value()
            },
            Err(e) => {
                return Err(parse_failure(base, v.title.as_str(), e.message()));
            },
        },
    };
    match built {
        Ok(x) => Ok(x),
        Err(e) => Err(FieldCoercionError { pointer: join_pointer(base, e.pointer.as_str()), message: e.message }),
    }
}

impl CompositeState {
    /// The value the field contributes to the document.
    pub fn build_value(&self, required: bool) -> (r: Result<Option<JsonValue>, FieldCoercionError>)
        ensures
            match (r, build_value_spec(self@, required)) {
                (Ok(Some(v)), Ok(Some(w))) => v@ == w,
                (Ok(None), Ok(None)) => true,
                (Err(e), Err(w)) => e@ == w,
                _ => false,
            },
    {
        proof {
            self.lemma_view();
            lemma_first_active(self@.variants);
        }
        let base = self.pointer.as_str();
        match self.mode {
            CompositeMode::OneOf => {
                match self.selected_index() {
                    Some(i) => match build_variant(&self.variants[i], base) {
                        Ok(x) => Ok(Some(x)),
                        Err(e) => Err(e),
                    },
                    None => {
                        if required {
                            Err(FieldCoercionError {
                                pointer: self.pointer.clone(),
                                message: "oneOf requires a selected variant".to_string(),
                            })
                        } else {
                            Ok(None)
                        }
                    },
                }
            },
            CompositeMode::AnyOf => {
                let ghost vs = self@.variants;
                let mut values: Vec<JsonValue> = Vec::new();
                let mut i: usize = 0;
                assert(vs.subrange(0, 0) =~= Seq::<VariantView>::empty());
                assert(items_view(values@) =~= Seq::<JsonView>::empty());
                while i < self.variants.len()
                    invariant
                        i <= self.variants.len(),
                        vs == self@.variants,
                        vs.len() == self.variants@.len(),
                        forall|q: int| 0 <= q < self.variants@.len() ==> #[trigger] vs[q] == self.variants@[q]@,
                        base@ == self@.pointer,
                        self@.multi,
                        build_all(vs.subrange(0, i as int), base@) == Ok::<Seq<JsonView>, CoercionErrorView>(items_view(values@)),
                    decreases self.variants.len() - i,
                {
                    let ghost pre = vs.subrange(0, i as int);
                    let ghost post = vs.subrange(0, i + 1);
                    assert(post.drop_last() =~= pre);
                    assert(post.last() == self.variants@[i as int]@);
                    if self.variants[i].active {
                        match build_variant(&self.variants[i], base) {
                            Ok(x) => {
                                let ghost before = values@;
                                values.push(x);
                                assert(values@.drop_last() =~= before);
                            },
                            Err(e) => {
                                proof {
                                    lemma_build_all_err(vs, i + 1, base@);
                                }
                                return Err(e);
                            },
                        }
                    }
                    i = i + 1;
                }
                assert(vs.subrange(0, self.variants.len() as int) =~= vs);
                if values.len() == 0 {
                    assert(items_view(values@).len() == 0) by {
                        crate::json::lemma_items_view(values@);
                    }
                    if required {
                        Err(FieldCoercionError {
                            pointer: self.pointer.clone(),
                            message: "anyOf requires at least one active variant".to_string(),
                        })
                    } else {
                        Ok(None)
                    }
                } else {
                    proof {
                        crate::json::lemma_items_view(values@);
                    }
                    Ok(Some(JsonValue::Array(values)))
                }
            },
        }
    }
}


/// One field as a summary line.
pub open spec fn field_line(f: crate::field::FieldStateView) -> Seq<char> {
    "  • "@ + label_of(f.schema.title, f.schema.name) + " = "@ + display_spec(f.value)
}

pub open spec fn field_lines(fields: Seq<crate::field::FieldStateView>) -> Seq<Seq<char>> {
    fields.map_values(|f: crate::field::FieldStateView| field_line(f))
}

/// One section as summary lines: its title, then its fields or `<empty>`.
pub open spec fn section_lines(s: SectionStateView) -> Seq<Seq<char>> {
    seq!["Section: "@ + s.title] + if s.fields.len() == 0 {
        seq!["  • <empty>"@]
    } else {
        field_lines(s.fields)
    }
}

pub open spec fn sections_lines(secs: Seq<SectionStateView>) -> Seq<Seq<char>>
    decreases secs.len(),
{
    if secs.len() == 0 {
        Seq::empty()
    } else {
        sections_lines(secs.drop_last()) + section_lines(secs.last())
    }
}

/// A form as summary lines.
pub open spec fn form_lines(secs: Seq<SectionStateView>) -> Seq<Seq<char>> {
    if secs.len() == 0 {
        seq!["No fields defined for this variant."@]
    } else {
        sections_lines(secs)
    }
}

/// The summary of one variant: its form's lines, or the error reading it.
pub open spec fn summary_of(v: VariantView, base: Seq<char>) -> SummaryView {
    SummaryView {
        title: v.title,
        description: v.description,
        lines: match ready_sections(v, base) {
            Ok(secs) => form_lines(secs),
            Err(e) => seq!["Error: "@ + e.message],
        },
    }
}

/// The summaries of the active variants, in order.
pub open spec fn active_summaries_spec(vs: Seq<VariantView>, base: Seq<char>) -> Seq<SummaryView>
    decreases vs.len(),
{
    if vs.len() == 0 {
        Seq::empty()
    } else {
        let r = active_summaries_spec(vs.drop_last(), base);
        if vs.last().active {
            r.push(summary_of(vs.last(), base))
        } else {
            r
        }
    }
}

fn push_line(lines: &mut Vec<String>, text: Vec<char>)
    ensures
        string_views(final(lines)@) == string_views(old(lines)@).push(text@),
{
    let s = string_from_chars(&text);
    let ghost before = lines@;
    lines.push(s);
    assert(string_views(lines@) =~= string_views(before).push(text@));
}

fn lines_of_form(form: &FormState) -> (r: Vec<String>)
    ensures
        string_views(r@) == form_lines(form@.sections),
{
    let mut lines: Vec<String> = Vec::new();
    if form.sections.len() == 0 {
        push_line(&mut lines, chars_of("No fields defined for this variant."));
        assert(string_views(lines@) =~= form_lines(form@.sections));
        return lines;
    }
    let ghost secs = form@.sections;
    let mut i: usize = 0;
    assert(string_views(lines@) =~= sections_lines(secs.subrange(0, 0)));
    while i < form.sections.len()
        invariant
            i <= form.sections.len(),
            secs == form@.sections,
            secs.len() == form.sections@.len(),
            string_views(lines@) == sections_lines(secs.subrange(0, i as int)),
        decreases form.sections.len() - i,
    {
        let s = &form.sections[i];
        assert(secs[i as int] == s@);
        let ghost start = string_views(lines@);
        let mut head = chars_of("Section: ");
        crate::text::push_str(&mut head, s.title.as_str());
        push_line(&mut lines, head);
        if s.fields.len() == 0 {
            push_line(&mut lines, chars_of("  • <empty>"));
            assert(string_views(lines@) =~= start + section_lines(s@));
        } else {
            let mut j: usize = 0;
            while j < s.fields.len()
                invariant
                    j <= s.fields.len(),
                    string_views(lines@) == start + seq!["Section: "@ + s@.title] + field_lines(s@.fields).subrange(0, j as int),
                decreases s.fields.len() - j,
            {
                let f = &s.fields[j];
                let mut line = chars_of("  • ");
                let label = f.schema.display_label();
                crate::text::push_str(&mut line, label.as_str());
                crate::text::push_str(&mut line, " = ");
                let shown = f.display_value();
                crate::text::push_str(&mut line, shown.as_str());
                push_line(&mut lines, line);
                proof {
                    assert(s@.fields[j as int] == f@);
                    assert(field_lines(s@.fields).subrange(0, j + 1) =~= field_lines(s@.fields).subrange(0, j as int).push(field_line(f@)));
                    assert(string_views(lines@) =~= start + seq!["Section: "@ + s@.title] + field_lines(s@.fields).subrange(0, j + 1));
                }
                j = j + 1;
            }
            assert(field_lines(s@.fields).subrange(0, s.fields.len() as int) =~= field_lines(s@.fields));
            assert(string_views(lines@) =~= start + section_lines(s@));
        }
        proof {
            assert(secs.subrange(0, i + 1).drop_last() =~= secs.subrange(0, i as int));
        }
        i = i + 1;
    }
    assert(secs.subrange(0, form.sections.len() as int) =~= secs);
    lines
}

fn summarize(v: &CompositeVariantState, base: &str) -> (r: CompositeVariantSummary)
    ensures
        r@ == summary_of(v@, base@),
{
    let lines = match &v.form {
        Some(f) => lines_of_form(f),
        None => match parse_resolved_schema(&v.schema) {
            Ok(fs) => {
                let form = FormState::from_schema(&fs);
                lines_of_form(&form)
            },
            Err(e) => {
                let err = parse_failure(base, v.title.as_str(), e.message());
                let mut line = chars_of("Error: ");
                crate::text::push_str(&mut line, err.message.as_str());
                let mut lines: Vec<String> = Vec::new();
                push_line(&mut lines, line);
                assert(string_views(lines@) =~= seq!["Error: "@ + err@.message]);
                lines
            },
        },
    };
    CompositeVariantSummary { title: v.title.clone(), description: clone_opt(&v.description), lines }
}

impl CompositeState {
    /// The summaries of the active variants, in order.
    pub fn active_summaries(&self) -> (r: Vec<CompositeVariantSummary>)
        ensures
            r@.map_values(|s: CompositeVariantSummary| s@) == active_summaries_spec(self@.variants, self@.pointer),
    {
        proof {
            self.lemma_view();
        }
        let ghost vs = self@.variants;
        let mut out: Vec<CompositeVariantSummary> = Vec::new();
        let mut i: usize = 0;
        assert(out@.map_values(|s: CompositeVariantSummary| s@) =~= active_summaries_spec(vs.subrange(0, 0), self@.pointer));
        while i < self.variants.len()
            invariant
                i <= self.variants.len(),
                vs == self@.variants,
                vs.len() == self.variants@.len(),
                forall|q: int| 0 <= q < self.variants@.len() ==> #[trigger] vs[q] == self.variants@[q]@,
                self.pointer@ == self@.pointer,
                out@.map_values(|s: CompositeVariantSummary| s@) == active_summaries_spec(vs.subrange(0, i as int), self@.pointer),
            decreases self.variants.len() - i,
        {
            let ghost pre = vs.subrange(0, i as int);
            let ghost post = vs.subrange(0, i + 1);
            assert(post.drop_last() =~= pre);
            assert(post.last() == self.variants@[i as int]@);
            if self.variants[i].active {
                let s = summarize(&self.variants[i], self.pointer.as_str());
                let ghost before = out@;
                out.push(s);
                assert(out@.map_values(|s: CompositeVariantSummary| s@) =~= before.map_values(|s: CompositeVariantSummary| s@).push(s@));
            }
            i = i + 1;
        }
        assert(vs.subrange(0, self.variants.len() as int) =~= vs);
        out
    }

    /// Takes the form of an active variant out for editing; the variant is
    /// left without a form until the session is restored.
    pub fn take_editor_session(&mut self, pointer: &str, variant_index: usize) -> (r: Result<CompositeEditorSession, FieldCoercionError>)
        ensures
            variant_index >= old(self)@.variants.len() ==> (r matches Err(e) && e@ == (CoercionErrorView { pointer: pointer@, message: "invalid variant selection"@ }) && final(self)@ == old(self)@),
            variant_index < old(self)@.variants.len() && !old(self)@.variants[variant_index as int].active ==> (r matches Err(e) && e@ == (CoercionErrorView { pointer: pointer@, message: "variant is not active; select it before editing"@ }) && final(self)@ == old(self)@),
            variant_index < old(self)@.variants.len() && old(self)@.variants[variant_index as int].active ==> match ready_sections(old(self)@.variants[variant_index as int], pointer@) {
                Err(w) => r matches Err(e) && e@ == w && final(self)@ == old(self)@,
                Ok(secs) => r matches Ok(s) && s.variant_index == variant_index && s.title@ == old(self)@.variants[variant_index as int].title
                    && opt_view(s.description) == old(self)@.variants[variant_index as int].description
                    && s.form_state@.sections == secs
                    && final(self)@ == (CompositeView {
                        variants: old(self)@.variants.update(variant_index as int, VariantView { form: None, ..old(self)@.variants[variant_index as int] }),
                        ..old(self)@
                    }),
            },
    {
        proof {
            self.lemma_view();
        }
        if variant_index >= self.variants.len() {
            return Err(FieldCoercionError { pointer: pointer.to_string(), message: "invalid variant selection".to_string() });
        }
        if !self.variants[variant_index].active {
            return Err(FieldCoercionError {
                pointer: pointer.to_string(),
                message: "variant is not active; select it before editing".to_string(),
            });
        }
        let ghost before = self.variants@;
        let mut v = self.variants.remove(variant_index);
        let form = match v.form {
            Some(f) => f,
            None => match parse_resolved_schema(&v.schema) {
                Ok(fs) => FormState::from_schema(&fs),
                Err(e) => {
                    let err = parse_failure(pointer, v.title.as_str(), e.message());
                    v.form = None;
                    self.variants.insert(variant_index, v);
                    proof {
                        assert(self.variants@ =~= before);
                        self.lemma_view();
                    }
                    return Err(err);
                },
            },
        };
        let title = v.title.clone();
        let description = clone_opt(&v.description);
        v.form = None;
        self.variants.insert(variant_index, v);
        proof {
            assert(self.variants@ =~= before.update(variant_index as int, v));
            assert(variant_views(self.variants@) =~= variant_views(before).update(variant_index as int, v@));
        }
        Ok(CompositeEditorSession { variant_index, title, description, form_state: form })
    }

    /// Puts an edited form back into its variant.
    pub fn restore_editor_session(&mut self, session: CompositeEditorSession)
        ensures
            session.variant_index < old(self)@.variants.len() ==> final(self)@ == (CompositeView {
                variants: old(self)@.variants.update(
                    session.variant_index as int,
                    VariantView { form: Some(session.form_state@), ..old(self)@.variants[session.variant_index as int] },
                ),
                ..old(self)@
            }),
            session.variant_index >= old(self)@.variants.len() ==> final(self)@ == old(self)@,
    {
        proof {
            self.lemma_view();
        }
        let k = session.variant_index;
        if k < self.variants.len() {
            let ghost before = self.variants@;
            let ghost fv = session.form_state@;
            let mut v = self.variants.remove(k);
            v.form = Some(session.form_state);
            self.variants.insert(k, v);
            proof {
                assert(self.variants@ =~= before.update(k as int, v));
                assert(variant_views(self.variants@) =~= variant_views(before).update(k as int, v@));
            }
        }
    }
}

} // verus!

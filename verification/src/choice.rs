//! The value of a `oneOf` / `anyOf` field: which variants are active, and
//! the document each variant's editor last saved.

use vstd::prelude::*;
use crate::coerce::{join_with, push_joined, CoercionErrorView, FieldCoercionError};
use crate::composite::CompositeField;
use crate::json::{copy_value, items_view, json_view, JsonValue, JsonView};
use crate::schema::{variant_descs, CompositeMode, VariantDesc};
use crate::text::{chars_of, push_str, string_from_chars, string_views};

verus! {

/// A composite field's choice.
#[derive(Debug)]
pub struct CompositeChoice {
    pub multi: bool,
    pub titles: Vec<String>,
    pub active: Vec<bool>,
    pub documents: Vec<Option<JsonValue>>,
}

/// The view of a composite field's choice.
pub struct ChoiceView {
    pub multi: bool,
    pub titles: Seq<Seq<char>>,
    pub active: Seq<bool>,
    pub documents: Seq<Option<JsonView>>,
}

pub open spec fn opt_json(v: Option<JsonValue>) -> Option<JsonView> {
    match v {
        Some(x) => Some(x@),
        None => None,
    }
}

pub open spec fn documents_view(d: Seq<Option<JsonValue>>) -> Seq<Option<JsonView>> {
    d.map_values(|x: Option<JsonValue>| opt_json(x))
}

impl View for CompositeChoice {
    type V = ChoiceView;

    open spec fn view(&self) -> ChoiceView {
        ChoiceView {
            multi: self.multi,
            titles: string_views(self.titles@),
            active: self.active@,
            documents: documents_view(self.documents@),
        }
    }
}

/// The index of the first set flag, or `-1`.
pub open spec fn first_true(flags: Seq<bool>) -> int
    decreases flags.len(),
{
    if flags.len() == 0 {
        -1
    } else if flags[0] {
        0
    } else {
        let r = first_true(flags.drop_first());
        if r < 0 {
            -1
        } else {
            r + 1
        }
    }
}

pub proof fn lemma_first_true(flags: Seq<bool>)
    ensures
        -1 <= first_true(flags) < flags.len(),
        first_true(flags) >= 0 ==> flags[first_true(flags)],
        forall|j: int| 0 <= j < flags.len() && (first_true(flags) < 0 || j < first_true(flags)) ==> !#[trigger] flags[j],
    decreases flags.len(),
{
    if flags.len() > 0 && !flags[0] {
        lemma_first_true(flags.drop_first());
        assert forall|j: int| 0 <= j < flags.len() && (first_true(flags) < 0 || j < first_true(flags)) implies !#[trigger] flags[j] by {
            if j > 0 {
                assert(flags[j] == flags.drop_first()[j - 1]);
            }
        }
    }
}

/// The flags with only `target` set.
pub open spec fn single_flags(n: int, target: int) -> Seq<bool> {
    Seq::new(n as nat, |i: int| i == target)
}

/// How a choice starts: for `oneOf` the first variant is active, for
/// `anyOf` none is; no variant has a document yet.
pub open spec fn initial_choice(multi: bool, vs: Seq<VariantDesc>) -> ChoiceView {
    ChoiceView {
        multi,
        titles: vs.map_values(|v: VariantDesc| v.title),
        active: Seq::new(vs.len(), |i: int| !multi && i == 0),
        documents: Seq::new(vs.len(), |i: int| None),
    }
}

/// The titles of the active variants, over the first `n`.
pub open spec fn active_titles_upto(titles: Seq<Seq<char>>, active: Seq<bool>, n: int) -> Seq<Seq<char>>
    decreases n,
{
    if n <= 0 {
        Seq::empty()
    } else {
        let rest = active_titles_upto(titles, active, n - 1);
        if n - 1 < active.len() && active[n - 1] && n - 1 < titles.len() {
            rest.push(titles[n - 1])
        } else {
            rest
        }
    }
}

/// The summary of a choice: the chosen variant for `oneOf`, the active
/// ones for `anyOf`.
pub open spec fn choice_summary(c: ChoiceView) -> Seq<char> {
    if !c.multi {
        let i = first_true(c.active);
        if 0 <= i < c.titles.len() {
            "Variant: "@ + c.titles[i]
        } else {
            "Variant: <none>"@
        }
    } else {
        let t = active_titles_upto(c.titles, c.active, c.active.len() as int);
        if t.len() == 0 {
            "Variants: []"@
        } else {
            "Variants: "@ + join_with(t, ", "@)
        }
    }
}

/// What a composite field shows: its summary and how to change it.
pub open spec fn choice_display(c: ChoiceView) -> Seq<char> {
    choice_summary(c) + if c.multi { " (Enter to toggle)"@ } else { " (Enter to choose)"@ }
}

/// The document a variant contributes: the one its editor saved, or an
/// empty object while it has none.
pub open spec fn variant_document(d: Option<JsonView>) -> JsonView {
    match d {
        Some(x) => x,
        None => JsonView::Object(Seq::empty()),
    }
}

/// The documents of the active variants, over the first `n`.
pub open spec fn active_documents(active: Seq<bool>, docs: Seq<Option<JsonView>>, n: int) -> Seq<JsonView>
    decreases n,
{
    if n <= 0 {
        Seq::empty()
    } else {
        let rest = active_documents(active, docs, n - 1);
        if n - 1 < active.len() && active[n - 1] && n - 1 < docs.len() {
            rest.push(variant_document(docs[n - 1]))
        } else {
            rest
        }
    }
}

/// The value a composite field contributes: the chosen variant's document
/// for `oneOf`, the array of the active variants' documents for `anyOf`; a
/// required field without an active variant is an error, an optional one
/// contributes nothing.
pub open spec fn choice_value(c: ChoiceView, required: bool, pointer: Seq<char>) -> Result<Option<JsonView>, CoercionErrorView> {
    if !c.multi {
        let i = first_true(c.active);
        if 0 <= i < c.documents.len() {
            Ok(Some(variant_document(c.documents[i])))
        } else if required {
            Err(CoercionErrorView { pointer, message: "oneOf requires a selected variant"@ })
        } else {
            Ok(None)
        }
    } else {
        let vals = active_documents(c.active, c.documents, c.active.len() as int);
        if vals.len() == 0 {
            if required {
                Err(CoercionErrorView { pointer, message: "anyOf requires at least one active variant"@ })
            } else {
                Ok(None)
            }
        } else {
            Ok(Some(JsonView::Array(vals)))
        }
    }
}

/// The choice after it is seeded with a document value: an object becomes
/// the document of a `oneOf`'s chosen variant; anything else changes
/// nothing.
pub open spec fn seeded_choice(c: ChoiceView, j: JsonView) -> ChoiceView {
    let i = first_true(c.active);
    if !c.multi && j is Object && 0 <= i < c.documents.len() {
        ChoiceView { documents: c.documents.update(i, Some(j)), ..c }
    } else {
        c
    }
}

/// The active documents depend only on the active variants.
proof fn lemma_active_documents_same(a: ChoiceView, b: ChoiceView, n: int)
    requires
        a.active == b.active,
        a.documents.len() == b.documents.len(),
        forall|i: int| 0 <= i < a.active.len() && a.active[i] && i < a.documents.len() ==> a.documents[i] == b.documents[i],
    ensures
        active_documents(a.active, a.documents, n) == active_documents(b.active, b.documents, n),
    decreases n,
{
    if n > 0 {
        lemma_active_documents_same(a, b, n - 1);
    }
}

/// Inactive variants stay out of the document: two choices with the same
/// mode and active variants, whose active variants hold the same
/// documents, contribute the same value whatever the inactive ones hold.
pub proof fn lemma_inactive_documents_ignored(a: ChoiceView, b: ChoiceView, required: bool, pointer: Seq<char>)
    requires
        a.multi == b.multi,
        a.active == b.active,
        a.documents.len() == b.documents.len(),
        forall|i: int| 0 <= i < a.active.len() && a.active[i] && i < a.documents.len() ==> a.documents[i] == b.documents[i],
    ensures
        choice_value(a, required, pointer) == choice_value(b, required, pointer),
{
    lemma_first_true(a.active);
    lemma_active_documents_same(a, b, a.active.len() as int);
}

impl CompositeChoice {
    /// The choice a composite field starts with.
    pub fn initial(field: &CompositeField) -> (r: Self)
        ensures
            r@ == initial_choice(field.mode is AnyOf, variant_descs(field.variants@)),
    {
        let multi = match field.mode {
            CompositeMode::AnyOf => true,
            CompositeMode::OneOf => false,
        };
        let ghost target = initial_choice(multi, variant_descs(field.variants@));
        let mut titles: Vec<String> = Vec::new();
        let mut active: Vec<bool> = Vec::new();
        let mut documents: Vec<Option<JsonValue>> = Vec::new();
        let mut i: usize = 0;
        while i < field.variants.len()
            invariant
                i <= field.variants.len(),
                target == initial_choice(multi, variant_descs(field.variants@)),
                titles@.len() == i,
                active@.len() == i,
                documents@.len() == i,
                forall|j: int| 0 <= j < i ==> #[trigger] titles@[j]@ == field.variants@[j].title@,
                forall|j: int| 0 <= j < i ==> #[trigger] active@[j] == (!multi && j == 0),
                forall|j: int| 0 <= j < i ==> #[trigger] documents@[j] is None,
            decreases field.variants.len() - i,
        {
            titles.push(field.variants[i].title.clone());
            active.push(!multi && i == 0);
            documents.push(None);
            i = i + 1;
        }
        let r = CompositeChoice { multi, titles, active, documents };
        assert(r@.titles =~= target.titles);
        assert(r@.active =~= target.active);
        assert(r@.documents =~= target.documents);
        r
    }

    fn first_active(&self) -> (r: Option<usize>)
        ensures
            match r {
                Some(i) => i == first_true(self@.active),
                None => first_true(self@.active) < 0,
            },
    {
        proof {
            lemma_first_true(self.active@);
        }
        let mut i: usize = 0;
        while i < self.active.len()
            invariant
                i <= self.active.len(),
                forall|j: int| 0 <= j < i ==> !#[trigger] self.active@[j],
                -1 <= first_true(self.active@) < self.active@.len(),
                first_true(self.active@) >= 0 ==> self.active@[first_true(self.active@)],
            decreases self.active.len() - i,
        {
            if self.active[i] {
                let ghost f = first_true(self.active@);
                assert(f == i) by {
                    if f < 0 || f > i {
                        lemma_first_true(self.active@);
                    }
                }
                return Some(i);
            }
            i = i + 1;
        }
        proof {
            let f = first_true(self.active@);
            if f >= 0 {
                assert(!self.active@[f]);
            }
        }
        None
    }

    /// What the field shows.
    pub fn display_value(&self) -> (r: String)
        ensures
            r@ == choice_display(self@),
    {
        let mut out: Vec<char>;
        if !self.multi {
            match self.first_active() {
                Some(i) => {
                    if i < self.titles.len() {
                        out = chars_of("Variant: ");
                        push_str(&mut out, self.titles[i].as_str());
                    } else {
                        out = chars_of("Variant: <none>");
                    }
                },
                None => {
                    out = chars_of("Variant: <none>");
                },
            }
            assert(out@ == choice_summary(self@));
            push_str(&mut out, " (Enter to choose)");
        } else {
            let mut t: Vec<String> = Vec::new();
            let mut i: usize = 0;
            while i < self.active.len()
                invariant
                    i <= self.active.len(),
                    string_views(t@) == active_titles_upto(self@.titles, self@.active, i as int),
                decreases self.active.len() - i,
            {
                if self.active[i] && i < self.titles.len() {
                    let ghost before = t@;
                    t.push(self.titles[i].clone());
                    assert(string_views(t@) =~= string_views(before).push(self@.titles[i as int]));
                }
                i = i + 1;
            }
            if t.len() == 0 {
                out = chars_of("Variants: []");
            } else {
                out = chars_of("Variants: ");
                push_joined(&mut out, &t, ", ");
            }
            assert(out@ == choice_summary(self@));
            push_str(&mut out, " (Enter to toggle)");
        }
        string_from_chars(&out)
    }

    /// The value the field contributes to the document.
    pub fn value(&self, required: bool, pointer: &str) -> (r: Result<Option<JsonValue>, FieldCoercionError>)
        ensures
            match (r, choice_value(self@, required, pointer@)) {
                (Ok(Some(v)), Ok(Some(w))) => v@ == w,
                (Ok(None), Ok(None)) => true,
                (Err(e), Err(w)) => e@ == w,
                _ => false,
            },
    {
        if !self.multi {
            match self.first_active() {
                Some(i) => {
                    if i < self.documents.len() {
                        assert(self@.documents[i as int] == opt_json(self.documents@[i as int]));
                        let doc = match &self.documents[i] {
                            Some(d) => copy_value(d),
                            None => {
                                let empty: Vec<(String, JsonValue)> = Vec::new();
                                let e = JsonValue::Object(empty);
                                assert(e@ == JsonView::Object(Seq::empty())) by {
                                    crate::json::lemma_entries_view(empty@);
                                }
                                e
                            },
                        };
                        return Ok(Some(doc));
                    }
                },
                None => {},
            }
            if required {
                Err(FieldCoercionError { pointer: pointer.to_string(), message: "oneOf requires a selected variant".to_string() })
            } else {
                Ok(None)
            }
        } else {
            let mut vals: Vec<JsonValue> = Vec::new();
            let mut i: usize = 0;
            while i < self.active.len()
                invariant
                    i <= self.active.len(),
                    items_view(vals@) == active_documents(self@.active, self@.documents, i as int),
                decreases self.active.len() - i,
            {
                if self.active[i] && i < self.documents.len() {
                    assert(self@.documents[i as int] == opt_json(self.documents@[i as int]));
                    let doc = match &self.documents[i] {
                        Some(d) => copy_value(d),
                        None => {
                            let empty: Vec<(String, JsonValue)> = Vec::new();
                            let e = JsonValue::Object(empty);
                            assert(e@ == JsonView::Object(Seq::empty())) by {
                                crate::json::lemma_entries_view(empty@);
                            }
                            e
                        },
                    };
                    let ghost before = vals@;
                    vals.push(doc);
                    assert(vals@.drop_last() =~= before);
                    assert(items_view(vals@) == items_view(before).push(json_view(doc)));
                }
                i = i + 1;
            }
            if vals.len() == 0 {
                if required {
                    Err(FieldCoercionError {
                        pointer: pointer.to_string(),
                        message: "anyOf requires at least one active variant".to_string(),
                    })
                } else {
                    Ok(None)
                }
            } else {
                proof {
                    crate::json::lemma_items_view(vals@);
                }
                Ok(Some(JsonValue::Array(vals)))
            }
        }
    }

    /// Seeds the choice with a document value.
    pub fn seed(&mut self, value: &JsonValue)
        ensures
            final(self)@ == seeded_choice(old(self)@, value@),
    {
        if self.multi {
            return;
        }
        match value {
            JsonValue::Object(_) => {},
            _ => {
                return;
            },
        }
        match self.first_active() {
            Some(i) => {
                if i < self.documents.len() {
                    let ghost before = self.documents@;
                    self.documents.set(i, Some(copy_value(value)));
                    assert(documents_view(self.documents@) =~= documents_view(before).update(i as int, Some(value@)));
                }
            },
            None => {},
        }
    }

    /// Where a popup over the variants puts its cursor: on the first active
    /// variant, or on the first variant.
    pub fn cursor(&self) -> (r: usize)
        ensures
            r == (if first_true(self@.active) >= 0 { first_true(self@.active) } else { 0 }),
    {
        match self.first_active() {
            Some(i) => i,
            None => 0,
        }
    }

    /// A copy of the flags.
    pub fn flags(&self) -> (r: Vec<bool>)
        ensures
            r@ == self@.active,
    {
        let mut out: Vec<bool> = Vec::new();
        let mut i: usize = 0;
        while i < self.active.len()
            invariant
                i <= self.active.len(),
                out@ == self.active@.subrange(0, i as int),
            decreases self.active.len() - i,
        {
            out.push(self.active[i]);
            i = i + 1;
        }
        assert(self.active@.subrange(0, self.active.len() as int) =~= self.active@);
        out
    }

    /// Takes new flags for an `anyOf`; `true` when that changed them.
    pub fn set_flags(&mut self, flags: &[bool]) -> (r: bool)
        ensures
            (old(self)@.multi && flags@.len() == old(self)@.active.len() && flags@ != old(self)@.active) ==> (r
                && final(self)@ == (ChoiceView { active: flags@, ..old(self)@ })),
            !(old(self)@.multi && flags@.len() == old(self)@.active.len() && flags@ != old(self)@.active) ==> (!r
                && final(self)@ == old(self)@),
    {
        if !self.multi || flags.len() != self.active.len() {
            return false;
        }
        let mut same = true;
        let mut i: usize = 0;
        while i < flags.len()
            invariant
                i <= flags.len(),
                flags@.len() == self.active@.len(),
                same == (forall|j: int| 0 <= j < i ==> flags@[j] == self.active@[j]),
            decreases flags.len() - i,
        {
            if flags[i] != self.active[i] {
                same = false;
            }
            i = i + 1;
            assert(same == (forall|j: int| 0 <= j < i ==> flags@[j] == self.active@[j]));
        }
        if same {
            assert(flags@ =~= self.active@);
            return false;
        }
        let mut out: Vec<bool> = Vec::new();
        let mut k: usize = 0;
        while k < flags.len()
            invariant
                k <= flags.len(),
                out@ == flags@.subrange(0, k as int),
            decreases flags.len() - k,
        {
            out.push(flags[k]);
            k = k + 1;
        }
        assert(flags@.subrange(0, flags.len() as int) =~= flags@);
        self.active = out;
        true
    }

    /// Chooses variant `index` of a `oneOf` alone, bounded to the last;
    /// `true` when that changed which variant is active.
    pub fn choose_variant(&mut self, index: usize) -> (r: bool)
        ensures
            ({
                let n = old(self)@.active.len() as int;
                let bounded = if index < n { index as int } else { n - 1 };
                if !old(self)@.multi && n > 0 && single_flags(n, bounded) != old(self)@.active {
                    r && final(self)@ == (ChoiceView { active: single_flags(n, bounded), ..old(self)@ })
                } else {
                    !r && final(self)@ == old(self)@
                }
            }),
    {
        let n = self.active.len();
        if self.multi || n == 0 {
            return false;
        }
        let bounded: usize = if index < n { index } else { n - 1 };
        let ghost target = single_flags(n as int, bounded as int);
        let mut out: Vec<bool> = Vec::new();
        let mut same = true;
        let mut i: usize = 0;
        while i < n
            invariant
                i <= n,
                n == self.active@.len(),
                target == single_flags(n as int, bounded as int),
                out@ == target.subrange(0, i as int),
                same == (forall|j: int| 0 <= j < i ==> target[j] == self.active@[j]),
            decreases n - i,
        {
            let flag = i == bounded;
            assert(target[i as int] == flag);
            if flag != self.active[i] {
                same = false;
            }
            out.push(flag);
            assert(out@ =~= target.subrange(0, i + 1));
            i = i + 1;
        }
        assert(target.subrange(0, n as int) =~= target);
        if same {
            assert(target =~= self.active@);
            return false;
        }
        self.active = out;
        true
    }

    /// The first active variant, if any.
    pub fn active_index(&self) -> (r: Option<usize>)
        ensures
            match r {
                Some(i) => i == first_true(self@.active),
                None => first_true(self@.active) < 0,
            },
    {
        self.first_active()
    }

    /// The document variant `i` last saved, if any.
    pub fn document(&self, i: usize) -> (r: Option<&JsonValue>)
        ensures
            i < self@.documents.len() ==> opt_json(match r {
                Some(d) => Some(*d),
                None => None,
            }) == self@.documents[i as int],
            i >= self@.documents.len() ==> r is None,
    {
        if i < self.documents.len() {
            assert(self@.documents[i as int] == opt_json(self.documents@[i as int]));
            match &self.documents[i] {
                Some(d) => Some(d),
                None => None,
            }
        } else {
            None
        }
    }

    /// Stores the document variant `i`'s editor saved.
    pub fn set_document(&mut self, i: usize, doc: JsonValue)
        ensures
            i < old(self)@.documents.len() ==> final(self)@ == (ChoiceView {
                documents: old(self)@.documents.update(i as int, Some(doc@)),
                ..old(self)@
            }),
            i >= old(self)@.documents.len() ==> final(self)@ == old(self)@,
    {
        if i < self.documents.len() {
            let ghost before = self.documents@;
            let ghost dv = doc@;
            self.documents.set(i, Some(doc));
            assert(documents_view(self.documents@) =~= documents_view(before).update(i as int, Some(dv)));
        }
    }
}

} // verus!

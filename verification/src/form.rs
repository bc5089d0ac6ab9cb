//! The state of a whole form: sections of fields, which field has the
//! focus, and the document the fields build together.

use vstd::prelude::*;
use crate::coerce::{CoercionErrorView, FieldCoercionError};
use crate::keys::FormCommand;
use crate::field::{current_value_spec, initial_value, FieldState, FieldStateView};
use crate::json::{
    entries_view, find_key, get_spec, json_view, lemma_entries_view, lemma_find_key, JsonValue, JsonView,
};
use crate::schema::{
    clone_field, first_index, form_section_view, lemma_first_index, FieldView, FormSchema, FormSection, FormView, SectionView,
};
use crate::text::{clone_opt, clone_strings, opt_view, str_equal, string_views};

verus! {

/// The editing state of one section.
#[derive(Debug)]
pub struct SectionState {
    pub id: String,
    pub title: String,
    pub description: Option<String>,
    /// The root tab the section is shown under.
    pub root: String,
    /// The property path of the object the section stands for.
    pub path: Vec<String>,
    pub fields: Vec<FieldState>,
    pub scroll_offset: usize,
}

/// The view of a section's editing state.
pub struct SectionStateView {
    pub id: Seq<char>,
    pub title: Seq<char>,
    pub description: Option<Seq<char>>,
    pub root: Seq<char>,
    pub path: Seq<Seq<char>>,
    pub fields: Seq<FieldStateView>,
    pub scroll_offset: int,
}

pub open spec fn field_views(s: Seq<FieldState>) -> Seq<FieldStateView> {
    s.map_values(|f: FieldState| f@)
}

impl View for SectionState {
    type V = SectionStateView;

    open spec fn view(&self) -> SectionStateView {
        SectionStateView {
            id: self.id@,
            title: self.title@,
            description: opt_view(self.description),
            root: self.root@,
            path: string_views(self.path@),
            fields: field_views(self.fields@),
            scroll_offset: self.scroll_offset as int,
        }
    }
}

impl SectionState {
    /// The editing state of a section of the form, every field at its
    /// initial value.
    pub fn from(section: &FormSection) -> (r: Self)
        ensures
            r@.id == section.id@,
            r@.title == section.title@,
            r@.description == opt_view(section.description),
            r@.fields.len() == section.fields@.len(),
            forall|i: int| 0 <= i < r@.fields.len() ==> #[trigger] r@.fields[i].schema == section.fields@[i]@,
            forall|i: int| 0 <= i < r@.fields.len() ==> !(#[trigger] r@.fields[i]).dirty && r@.fields[i].error is None,
            r@ == initial_section(form_section_view(*section)),
            r@.scroll_offset == 0,
    {
        let mut fields: Vec<FieldState> = Vec::new();
        let mut i: usize = 0;
        while i < section.fields.len()
            invariant
                i <= section.fields.len(),
                fields@.len() == i,
                forall|j: int| 0 <= j < i ==> (#[trigger] fields@[j])@.schema == section.fields@[j]@,
                forall|j: int| 0 <= j < i ==> !(#[trigger] fields@[j])@.dirty && fields@[j]@.error is None,
                forall|j: int| 0 <= j < i ==> (#[trigger] fields@[j])@ == initial_field(section.fields@[j]@),
            decreases section.fields.len() - i,
        {
            let f = FieldState::from_schema(clone_field(&section.fields[i]));
            fields.push(f);
            i = i + 1;
        }
        proof {
            assert(field_views(fields@) =~= form_section_view(*section).fields.map_values(|fv: FieldView| initial_field(fv)));
        }
        SectionState {
            id: section.id.clone(),
            title: section.title.clone(),
            description: clone_opt(&section.description),
            root: section.root.clone(),
            path: clone_strings(&section.path),
            fields,
            scroll_offset: 0,
        }
    }
}

/// A field as it starts: at its initial value, unedited, without error.
pub open spec fn initial_field(fv: FieldView) -> FieldStateView {
    FieldStateView { schema: fv, value: initial_value(fv), dirty: false, error: None }
}

/// A section as it starts.
pub open spec fn initial_section(s: SectionView) -> SectionStateView {
    SectionStateView {
        id: s.id,
        title: s.title,
        description: s.description,
        root: s.root,
        path: s.path,
        fields: s.fields.map_values(|fv: FieldView| initial_field(fv)),
        scroll_offset: 0,
    }
}

/// The sections a form starts with; one empty `General` section when the
/// form has none.
pub open spec fn initial_sections(f: FormView) -> Seq<SectionStateView> {
    if f.sections.len() == 0 {
        seq![
            SectionStateView {
                id: "general"@,
                title: "General"@,
                description: None,
                root: "general"@,
                path: Seq::empty(),
                fields: Seq::empty(),
                scroll_offset: 0,
            },
        ]
    } else {
        f.sections.map_values(|s: SectionView| initial_section(s))
    }
}

/// The editing state of a whole form.
#[derive(Debug)]
pub struct FormState {
    pub sections: Vec<SectionState>,
    pub section_index: usize,
    pub field_index: usize,
}

/// The view of a form's editing state.
pub struct FormStateView {
    pub sections: Seq<SectionStateView>,
    pub section_index: int,
    pub field_index: int,
}

pub open spec fn section_views(s: Seq<SectionState>) -> Seq<SectionStateView> {
    s.map_values(|x: SectionState| x@)
}

impl View for FormState {
    type V = FormStateView;

    open spec fn view(&self) -> FormStateView {
        FormStateView {
            sections: section_views(self.sections@),
            section_index: self.section_index as int,
            field_index: self.field_index as int,
        }
    }
}

// ---------------------------------------------------------------------------
// Focus.

/// The number of fields of each section.
pub open spec fn field_counts(sections: Seq<SectionStateView>) -> Seq<int> {
    sections.map_values(|s: SectionStateView| s.fields.len() as int)
}

/// The focus one field forward: the next field of the section, or the first
/// field of the next section, wrapping to the first section. Nothing moves
/// in a form without sections or from a section without fields.
pub open spec fn next_focus(counts: Seq<int>, si: int, fi: int) -> (int, int) {
    if counts.len() == 0 || counts[si] == 0 {
        (si, fi)
    } else if fi + 1 < counts[si] {
        (si, fi + 1)
    } else {
        ((si + 1) % (counts.len() as int), 0)
    }
}

/// The focus one field back: the previous field of the section, or the last
/// field of the previous section, wrapping to the last section.
pub open spec fn prev_focus(counts: Seq<int>, si: int, fi: int) -> (int, int) {
    if counts.len() == 0 || counts[si] == 0 {
        (si, fi)
    } else if fi > 0 {
        (si, fi - 1)
    } else {
        let s = if si == 0 {
            counts.len() - 1
        } else {
            si - 1
        };
        (s, if counts[s] > 0 { counts[s] - 1 } else { fi })
    }
}

/// The section `direction` steps away, wrapping to the last section below
/// the first and to the first section past the last.
pub open spec fn section_step(si: int, direction: int, n: int) -> int {
    let idx = si + direction;
    if idx < 0 {
        n - 1
    } else if idx >= n {
        0
    } else {
        idx
    }
}

/// The focus is on an existing section, and on an existing field of it
/// when it has any.
pub open spec fn focus_valid(counts: Seq<int>, si: int, fi: int) -> bool {
    counts.len() > 0 ==> (0 <= si < counts.len() && 0 <= fi && (counts[si] > 0 ==> fi < counts[si]))
}

/// An empty section, used when the schema yields none.
fn empty_section() -> (r: SectionState)
    ensures
        r@.id == "general"@,
        r@.title == "General"@,
        r@.description is None,
        r@.root == "general"@,
        r@.path.len() == 0,
        r@.fields.len() == 0,
        r@.scroll_offset == 0,
{
    let fields: Vec<FieldState> = Vec::new();
    let path: Vec<String> = Vec::new();
    assert(field_views(fields@) =~= Seq::<FieldStateView>::empty());
    assert(string_views(path@) =~= Seq::<Seq<char>>::empty());
    SectionState {
        id: "general".to_string(),
        title: "General".to_string(),
        description: None,
        root: "general".to_string(),
        path,
        fields,
        scroll_offset: 0,
    }
}

/// The form with the focus `direction` sections away (wrapping), on the
/// same field index where the new section has that many fields, else on
/// its last field; a form without sections stays as it is.
pub open spec fn section_moved(st: FormStateView, direction: int) -> FormStateView {
    if st.sections.len() == 0 {
        st
    } else {
        let n = st.sections.len() as int;
        let s = section_step(st.section_index, direction, n);
        let c = field_counts(st.sections)[s];
        FormStateView {
            section_index: s,
            field_index: if c > 0 {
                if st.field_index < c - 1 { st.field_index } else { c - 1 }
            } else {
                0
            },
            ..st
        }
    }
}

/// The form after a focus command.
pub open spec fn after_command(st: FormStateView, command: FormCommand) -> FormStateView {
    match command {
        FormCommand::FocusNextField => FormStateView {
            section_index: next_focus(field_counts(st.sections), st.section_index, st.field_index).0,
            field_index: next_focus(field_counts(st.sections), st.section_index, st.field_index).1,
            ..st
        },
        FormCommand::FocusPrevField => FormStateView {
            section_index: prev_focus(field_counts(st.sections), st.section_index, st.field_index).0,
            field_index: prev_focus(field_counts(st.sections), st.section_index, st.field_index).1,
            ..st
        },
        FormCommand::FocusNextSection(d) => section_moved(st, d as int),
        FormCommand::FocusNextRoot(d) => root_moved(st, d as int),
    }
}

/// Applies a focus command to the form.
pub fn apply_command(state: &mut FormState, command: FormCommand)
    requires
        old(state).wf(),
    ensures
        final(state).wf(),
        final(state)@ == after_command(old(state)@, command),
{
    match command {
        FormCommand::FocusNextField => state.focus_next_field(),
        FormCommand::FocusPrevField => state.focus_prev_field(),
        FormCommand::FocusNextSection(delta) => state.focus_next_section(delta),
        FormCommand::FocusNextRoot(delta) => state.focus_next_root(delta),
    }
}

/// The roots of the sections, in order.
pub open spec fn section_roots(sections: Seq<SectionStateView>) -> Seq<Seq<char>> {
    sections.map_values(|s: SectionStateView| s.root)
}

/// The distinct entries of `roots`, in the order they first appear.
pub open spec fn distinct_in_order(roots: Seq<Seq<char>>) -> Seq<Seq<char>>
    decreases roots.len(),
{
    if roots.len() == 0 {
        Seq::empty()
    } else {
        let t = distinct_in_order(roots.drop_last());
        if first_index(t, roots.last()) >= 0 {
            t
        } else {
            t.push(roots.last())
        }
    }
}

/// Every entry shows up among the distinct entries, and each distinct
/// entry is one of the entries.
pub proof fn lemma_distinct_in_order(roots: Seq<Seq<char>>)
    ensures
        forall|i: int| 0 <= i < roots.len() ==> first_index(distinct_in_order(roots), #[trigger] roots[i]) >= 0,
        forall|j: int| 0 <= j < distinct_in_order(roots).len() ==> first_index(roots, #[trigger] distinct_in_order(roots)[j]) >= 0,
        distinct_in_order(roots).len() <= roots.len(),
    decreases roots.len(),
{
    if roots.len() > 0 {
        let p = roots.drop_last();
        let t = distinct_in_order(p);
        lemma_distinct_in_order(p);
        lemma_first_index(t, roots.last());
        let d = distinct_in_order(roots);
        assert forall|i: int| 0 <= i < roots.len() implies first_index(d, #[trigger] roots[i]) >= 0 by {
            if i < roots.len() - 1 {
                assert(roots[i] == p[i]);
                lemma_first_index(t, p[i]);
                let k = first_index(t, p[i]);
                assert(d[k] == p[i]);
                lemma_first_index(d, p[i]);
            } else {
                lemma_first_index(d, roots[i]);
                if first_index(t, roots.last()) < 0 {
                    assert(d[d.len() - 1] == roots[i]);
                }
            }
        }
        assert forall|j: int| 0 <= j < d.len() implies first_index(roots, #[trigger] d[j]) >= 0 by {
            lemma_first_index(roots, d[j]);
            if j < t.len() {
                assert(d[j] == t[j]);
                lemma_first_index(p, t[j]);
                let k = first_index(p, t[j]);
                assert(roots[k] == p[k]);
            } else {
                assert(d[j] == roots[roots.len() - 1]);
            }
        }
    }
}

/// The root tabs of a form: the sections' roots, each once, in the order
/// they first appear.
pub open spec fn root_ids(st: FormStateView) -> Seq<Seq<char>> {
    distinct_in_order(section_roots(st.sections))
}

/// The position of the focused section's root among the root tabs.
pub open spec fn root_position(st: FormStateView) -> int {
    first_index(root_ids(st), st.sections[st.section_index].root)
}

/// The form with the focus on the first field of the first section of the
/// root tab `direction` tabs away from the focused one (wrapping past
/// either end); a form without sections stays as it is.
pub open spec fn root_moved(st: FormStateView, direction: int) -> FormStateView {
    if st.sections.len() == 0 {
        st
    } else {
        let ids = root_ids(st);
        let next = section_step(root_position(st), direction, ids.len() as int);
        FormStateView {
            section_index: first_index(section_roots(st.sections), ids[next]),
            field_index: 0,
            ..st
        }
    }
}

/// No entry occurs twice among the distinct entries.
pub proof fn lemma_distinct_no_repeats(roots: Seq<Seq<char>>)
    ensures
        forall|i: int, j: int|
            0 <= i < j < distinct_in_order(roots).len() ==> #[trigger] distinct_in_order(roots)[i] != #[trigger] distinct_in_order(roots)[j],
    decreases roots.len(),
{
    if roots.len() > 0 {
        let p = roots.drop_last();
        let t = distinct_in_order(p);
        lemma_distinct_no_repeats(p);
        lemma_first_index(t, roots.last());
    }
}

/// In a sequence without repeats, an entry's first index is its index.
proof fn lemma_index_of_distinct(ids: Seq<Seq<char>>, k: int)
    requires
        0 <= k < ids.len(),
        forall|i: int, j: int| 0 <= i < j < ids.len() ==> #[trigger] ids[i] != #[trigger] ids[j],
    ensures
        first_index(ids, ids[k]) == k,
{
    lemma_first_index(ids, ids[k]);
    let f = first_index(ids, ids[k]);
    if f != k {
        if f < k {
            assert(ids[f] != ids[k]);
        } else {
            assert(ids[k] != ids[k]);
        }
    }
}

/// The root tabs list every section's root exactly once, and each tab is
/// the root of some section.
pub proof fn lemma_root_tabs_cover(st: FormStateView)
    ensures
        forall|i: int| 0 <= i < st.sections.len() ==> first_index(root_ids(st), #[trigger] st.sections[i].root) >= 0,
        forall|j: int| 0 <= j < root_ids(st).len() ==> first_index(section_roots(st.sections), #[trigger] root_ids(st)[j]) >= 0,
        forall|i: int, j: int| 0 <= i < j < root_ids(st).len() ==> #[trigger] root_ids(st)[i] != #[trigger] root_ids(st)[j],
{
    let roots = section_roots(st.sections);
    lemma_distinct_in_order(roots);
    lemma_distinct_no_repeats(roots);
    assert forall|i: int| 0 <= i < st.sections.len() implies first_index(root_ids(st), #[trigger] st.sections[i].root) >= 0 by {
        assert(roots[i] == st.sections[i].root);
    }
}

/// Stepping to another root tab focuses the first field of that tab's
/// first section.
pub proof fn lemma_root_step_lands_on_tab_start(st: FormStateView, direction: int)
    requires
        0 <= st.section_index < st.sections.len(),
    ensures
        ({
            let moved = root_moved(st, direction);
            &&& 0 <= moved.section_index < st.sections.len()
            &&& moved.field_index == 0
            &&& first_index(section_roots(st.sections), st.sections[moved.section_index].root) == moved.section_index
        }),
{
    let roots = section_roots(st.sections);
    let ids = root_ids(st);
    lemma_distinct_in_order(roots);
    assert(roots[st.section_index] == st.sections[st.section_index].root);
    lemma_first_index(ids, st.sections[st.section_index].root);
    let next = section_step(root_position(st), direction, ids.len() as int);
    lemma_first_index(roots, ids[next]);
    let s = first_index(roots, ids[next]);
    assert(roots[s] == st.sections[s].root);
}

/// Stepping one root tab forward and then one back returns to the tab the
/// focus started on.
pub proof fn lemma_root_step_round_trip(st: FormStateView)
    requires
        0 <= st.section_index < st.sections.len(),
    ensures
        root_position(root_moved(root_moved(st, 1), -1)) == root_position(st),
{
    let roots = section_roots(st.sections);
    let ids = root_ids(st);
    lemma_distinct_in_order(roots);
    lemma_distinct_no_repeats(roots);
    assert(roots[st.section_index] == st.sections[st.section_index].root);
    lemma_first_index(ids, st.sections[st.section_index].root);
    let k = root_position(st);
    let n = ids.len() as int;
    let next = section_step(k, 1, n);
    lemma_first_index(roots, ids[next]);
    let s1 = first_index(roots, ids[next]);
    let m1 = root_moved(st, 1);
    assert(m1.sections == st.sections);
    assert(m1.section_index == s1);
    assert(roots[s1] == st.sections[s1].root);
    assert(root_ids(m1) == ids);
    lemma_index_of_distinct(ids, next);
    assert(root_position(m1) == next);
    let back = section_step(next, -1, n);
    assert(back == k);
    lemma_first_index(roots, ids[back]);
    let s2 = first_index(roots, ids[back]);
    let m2 = root_moved(m1, -1);
    assert(m2.sections == st.sections);
    assert(m2.section_index == s2);
    assert(roots[s2] == st.sections[s2].root);
    lemma_index_of_distinct(ids, k);
}

/// A root tab: its id and the title of its first section.
#[derive(Debug)]
pub struct RootTab {
    pub id: String,
    pub title: String,
}

impl FormState {
    fn roots_vec(&self) -> (r: Vec<String>)
        ensures
            string_views(r@) == root_ids(self@),
    {
        let ghost roots = section_roots(self@.sections);
        let mut out: Vec<String> = Vec::new();
        let mut i: usize = 0;
        assert(roots.subrange(0, 0) =~= Seq::<Seq<char>>::empty());
        assert(string_views(out@) =~= Seq::<Seq<char>>::empty());
        while i < self.sections.len()
            invariant
                i <= self.sections.len(),
                roots == section_roots(self@.sections),
                roots.len() == self.sections@.len(),
                string_views(out@) == distinct_in_order(roots.subrange(0, i as int)),
            decreases self.sections.len() - i,
        {
            let ghost pre = roots.subrange(0, i as int);
            let ghost next = roots.subrange(0, i + 1);
            assert(next.drop_last() =~= pre);
            assert(self@.sections[i as int] == self.sections@[i as int]@);
            assert(next.last() == self.sections@[i as int].root@);
            match crate::field::position_of(&out, self.sections[i].root.as_str()) {
                Some(_) => {},
                None => {
                    let ghost before = out@;
                    out.push(self.sections[i].root.clone());
                    assert(string_views(out@) =~= string_views(before).push(next.last()));
                },
            }
            i = i + 1;
        }
        assert(roots.subrange(0, self.sections.len() as int) =~= roots);
        out
    }

    fn first_section_of(&self, root: &str) -> (r: Option<usize>)
        ensures
            match r {
                Some(k) => k == first_index(section_roots(self@.sections), root@),
                None => first_index(section_roots(self@.sections), root@) < 0,
            },
    {
        let ghost ids = section_roots(self@.sections);
        proof {
            lemma_first_index(ids, root@);
        }
        let mut i: usize = 0;
        while i < self.sections.len()
            invariant
                i <= self.sections.len(),
                ids == section_roots(self@.sections),
                ids.len() == self.sections@.len(),
                forall|j: int| 0 <= j < i ==> #[trigger] ids[j] != root@,
                -1 <= first_index(ids, root@) < ids.len(),
                first_index(ids, root@) >= 0 ==> ids[first_index(ids, root@)] == root@,
                forall|j: int|
                    0 <= j < ids.len() && (first_index(ids, root@) < 0 || j < first_index(ids, root@))
                        ==> #[trigger] ids[j] != root@,
            decreases self.sections.len() - i,
        {
            assert(ids[i as int] == self.sections@[i as int].root@);
            if str_equal(self.sections[i].root.as_str(), root) {
                let ghost f = first_index(ids, root@);
                assert(f == i) by {
                    if f >= 0 && f < i {
                        assert(ids[f] != root@);
                    }
                }
                return Some(i);
            }
            i = i + 1;
        }
        None
    }

    /// The root tabs, in the order their sections first appear, each with
    /// the title of its first section.
    pub fn root_tabs(&self) -> (r: Vec<RootTab>)
        ensures
            r@.len() == root_ids(self@).len(),
            forall|i: int| 0 <= i < r@.len() ==> (#[trigger] r@[i]).id@ == root_ids(self@)[i]
                && r@[i].title@ == self@.sections[first_index(section_roots(self@.sections), root_ids(self@)[i])].title,
    {
        let ids = self.roots_vec();
        proof {
            lemma_distinct_in_order(section_roots(self@.sections));
        }
        let mut out: Vec<RootTab> = Vec::new();
        let mut i: usize = 0;
        while i < ids.len()
            invariant
                i <= ids.len(),
                string_views(ids@) == root_ids(self@),
                forall|j: int| 0 <= j < string_views(ids@).len() ==> first_index(section_roots(self@.sections), #[trigger] string_views(ids@)[j]) >= 0,
                out@.len() == i,
                forall|j: int| 0 <= j < i ==> (#[trigger] out@[j]).id@ == root_ids(self@)[j]
                    && out@[j].title@ == self@.sections[first_index(section_roots(self@.sections), root_ids(self@)[j])].title,
            decreases ids.len() - i,
        {
            assert(string_views(ids@)[i as int] == ids@[i as int]@);
            let k = match self.first_section_of(ids[i].as_str()) {
                Some(k) => k,
                None => {
                    proof {
                        assert(first_index(section_roots(self@.sections), string_views(ids@)[i as int]) >= 0);
                    }
                    return out;
                },
            };
            proof {
                lemma_first_index(section_roots(self@.sections), ids@[i as int]@);
            }
            assert(self@.sections[k as int] == self.sections@[k as int]@);
            out.push(RootTab { id: ids[i].clone(), title: self.sections[k].title.clone() });
            i = i + 1;
        }
        out
    }

    /// Moves the focus to the first field of the first section of the root
    /// tab `direction` tabs away (wrapping).
    pub fn focus_next_root(&mut self, direction: i32)
        requires
            old(self).wf(),
        ensures
            final(self).wf(),
            final(self)@ == root_moved(old(self)@, direction as int),
    {
        if self.sections.len() == 0 {
            return;
        }
        let ghost st = self@;
        let ids = self.roots_vec();
        proof {
            lemma_distinct_in_order(section_roots(st.sections));
            assert(section_roots(st.sections)[self.section_index as int] == st.sections[self.section_index as int].root);
            lemma_first_index(root_ids(st), st.sections[self.section_index as int].root);
        }
        assert(self@.sections[self.section_index as int] == self.sections@[self.section_index as int]@);
        let k = match crate::field::position_of(&ids, self.sections[self.section_index].root.as_str()) {
            Some(k) => k,
            None => {
                return;
            },
        };
        let n = ids.len();
        let idx: i128 = k as i128 + direction as i128;
        let next: usize = if idx < 0 {
            n - 1
        } else if idx >= n as i128 {
            0
        } else {
            idx as usize
        };
        assert(next as int == section_step(root_position(st), direction as int, n as int));
        assert(string_views(ids@)[next as int] == ids@[next as int]@);
        proof {
            lemma_first_index(section_roots(st.sections), ids@[next as int]@);
        }
        match self.first_section_of(ids[next].as_str()) {
            Some(s) => {
                self.section_index = s;
                self.field_index = 0;
            },
            None => {},
        }
    }
}

impl FormState {
    /// The section index is in range whenever there are sections.
    pub open spec fn wf(&self) -> bool {
        self.sections@.len() > 0 ==> self.section_index < self.sections@.len()
    }

    /// The editing state of a form, focused on its first field; a schema
    /// without sections gets one empty `General` section.
    pub fn from_schema(schema: &FormSchema) -> (r: Self)
        ensures
            r.wf(),
            r@.section_index == 0,
            r@.field_index == 0,
            schema.sections@.len() == 0 ==> r@.sections.len() == 1 && r@.sections[0].id == "general"@
                && r@.sections[0].fields.len() == 0,
            schema.sections@.len() > 0 ==> r@.sections.len() == schema.sections@.len() && forall|i: int|
                0 <= i < r@.sections.len() ==> (#[trigger] r@.sections[i]).id == schema.sections@[i].id@
                    && r@.sections[i].fields.len() == schema.sections@[i].fields@.len(),
            r@.sections == initial_sections(schema@),
    {
        let mut sections: Vec<SectionState> = Vec::new();
        if schema.sections.len() == 0 {
            sections.push(empty_section());
        } else {
            let mut i: usize = 0;
            while i < schema.sections.len()
                invariant
                    i <= schema.sections.len(),
                    sections@.len() == i,
                    forall|j: int| 0 <= j < i ==> (#[trigger] sections@[j])@.id == schema.sections@[j].id@
                        && sections@[j]@.fields.len() == schema.sections@[j].fields@.len(),
                    forall|j: int| 0 <= j < i ==> (#[trigger] sections@[j])@ == initial_section(form_section_view(schema.sections@[j])),
                decreases schema.sections.len() - i,
            {
                let s = SectionState::from(&schema.sections[i]);
                sections.push(s);
                i = i + 1;
            }
            proof {
                assert(section_views(sections@) =~= schema@.sections.map_values(|s: SectionView| initial_section(s)));
            }
        }
        proof {
            if schema.sections.len() == 0 {
                assert(sections@.len() == 1);
                assert(section_views(sections@)[0] == sections@[0]@);
                assert(sections@[0]@.fields =~= Seq::<FieldStateView>::empty());
                assert(sections@[0]@.path =~= Seq::<Seq<char>>::empty());
                assert(section_views(sections@) =~= initial_sections(schema@));
            }
        }
        FormState { sections, section_index: 0, field_index: 0 }
    }

    fn fields_len(&self, si: usize) -> (r: usize)
        requires
            si < self.sections@.len(),
        ensures
            r as int == field_counts(self@.sections)[si as int],
    {
        self.sections[si].fields.len()
    }

    /// The focused field.
    pub fn focused_field(&self) -> (r: Option<&FieldState>)
        ensures
            match r {
                Some(f) => 0 <= self@.section_index < self@.sections.len() && 0 <= self@.field_index
                    < self@.sections[self@.section_index].fields.len() && f@
                    == self@.sections[self@.section_index].fields[self@.field_index],
                None => !(0 <= self@.section_index < self@.sections.len() && 0 <= self@.field_index
                    < self@.sections[self@.section_index].fields.len()),
            },
    {
        if self.section_index < self.sections.len() {
            let s = &self.sections[self.section_index];
            if self.field_index < s.fields.len() {
                return Some(&s.fields[self.field_index]);
            }
        }
        None
    }

    /// Moves the focus one field forward.
    pub fn focus_next_field(&mut self)
        requires
            old(self).wf(),
        ensures
            final(self).wf(),
            final(self)@.sections == old(self)@.sections,
            (final(self)@.section_index, final(self)@.field_index) == next_focus(
                field_counts(old(self)@.sections),
                old(self)@.section_index,
                old(self)@.field_index,
            ),
    {
        if self.sections.len() == 0 {
            return;
        }
        let len = self.fields_len(self.section_index);
        if len == 0 {
            return;
        }
        if self.field_index < len - 1 {
            self.field_index = self.field_index + 1;
        } else {
            self.section_index = (self.section_index + 1) % self.sections.len();
            self.field_index = 0;
        }
    }

    /// Moves the focus one field back.
    pub fn focus_prev_field(&mut self)
        requires
            old(self).wf(),
        ensures
            final(self).wf(),
            final(self)@.sections == old(self)@.sections,
            (final(self)@.section_index, final(self)@.field_index) == prev_focus(
                field_counts(old(self)@.sections),
                old(self)@.section_index,
                old(self)@.field_index,
            ),
    {
        if self.sections.len() == 0 {
            return;
        }
        let len = self.fields_len(self.section_index);
        if len == 0 {
            return;
        }
        if self.field_index > 0 {
            self.field_index = self.field_index - 1;
        } else {
            if self.section_index == 0 {
                self.section_index = self.sections.len() - 1;
            } else {
                self.section_index = self.section_index - 1;
            }
            let l = self.fields_len(self.section_index);
            if l > 0 {
                self.field_index = l - 1;
            }
        }
    }

    /// Moves the focus `direction` sections away, keeping the field index
    /// where the new section has that many fields.
    pub fn focus_next_section(&mut self, direction: i32)
        requires
            old(self).wf(),
        ensures
            final(self).wf(),
            final(self)@ == section_moved(old(self)@, direction as int),
    {
        if self.sections.len() == 0 {
            return;
        }
        let len = self.sections.len();
        let index: i128 = self.section_index as i128 + direction as i128;
        self.section_index = if index < 0 {
            len - 1
        } else if index >= len as i128 {
            0
        } else {
            index as usize
        };
        let l = self.fields_len(self.section_index);
        let cap: usize = if l > 0 { l - 1 } else { 0 };
        self.field_index = if self.field_index < cap { self.field_index } else { cap };
    }
}

/// With every section holding a field, stepping the focus forward and then
/// back, or back and then forward, returns it to where it was.
pub proof fn lemma_focus_round_trip(counts: Seq<int>, si: int, fi: int)
    requires
        counts.len() > 0,
        forall|i: int| 0 <= i < counts.len() ==> #[trigger] counts[i] > 0,
        0 <= si < counts.len(),
        0 <= fi < counts[si],
    ensures
        ({
            let (s1, f1) = next_focus(counts, si, fi);
            prev_focus(counts, s1, f1) == (si, fi)
        }),
        ({
            let (s2, f2) = prev_focus(counts, si, fi);
            next_focus(counts, s2, f2) == (si, fi)
        }),
{
    let n = counts.len() as int;
    if fi + 1 >= counts[si] {
        if si + 1 < n {
            vstd::arithmetic::div_mod::lemma_small_mod((si + 1) as nat, n as nat);
        } else {
            vstd::arithmetic::div_mod::lemma_mod_self_0(n);
        }
    }
    if fi == 0 {
        let s = if si == 0 { n - 1 } else { si - 1 };
        assert(counts[s] > 0);
        if s + 1 < n {
            vstd::arithmetic::div_mod::lemma_small_mod((s + 1) as nat, n as nat);
        } else {
            vstd::arithmetic::div_mod::lemma_mod_self_0(n);
        }
    }
}

/// Every focus move keeps the focus on an existing section and field.
pub proof fn lemma_focus_stays_valid(counts: Seq<int>, si: int, fi: int, direction: int)
    requires
        focus_valid(counts, si, fi),
        forall|i: int| 0 <= i < counts.len() ==> #[trigger] counts[i] >= 0,
    ensures
        focus_valid(counts, next_focus(counts, si, fi).0, next_focus(counts, si, fi).1),
        focus_valid(counts, prev_focus(counts, si, fi).0, prev_focus(counts, si, fi).1),
        counts.len() > 0 ==> ({
            let s = section_step(si, direction, counts.len() as int);
            let c = counts[s];
            focus_valid(counts, s, if c > 0 { if fi < c - 1 { fi } else { c - 1 } } else { 0 })
        }),
{
    if counts.len() > 0 {
        let n = counts.len() as int;
        if si + 1 < n {
            vstd::arithmetic::div_mod::lemma_small_mod((si + 1) as nat, n as nat);
        } else {
            vstd::arithmetic::div_mod::lemma_mod_self_0(n);
        }
    }
}

// ---------------------------------------------------------------------------
// Building the document.

/// `Map::insert` on an object's members: a member with the key is replaced
/// in place, otherwise the member is appended.
pub open spec fn obj_insert(entries: Seq<(Seq<char>, JsonView)>, key: Seq<char>, v: JsonView) -> Seq<(Seq<char>, JsonView)> {
    let i = find_key(entries, key);
    if i >= 0 {
        entries.update(i, (key, v))
    } else {
        entries.push((key, v))
    }
}

/// The members of an object, or none for any other value.
pub open spec fn members(v: JsonView) -> Seq<(Seq<char>, JsonView)> {
    match v {
        JsonView::Object(e) => e,
        _ => Seq::empty(),
    }
}

/// The document with `v` placed at `path`: objects are created along the
/// way, and anything that is not an object on the way is replaced by one.
pub open spec fn insert_path_spec(root: JsonView, path: Seq<Seq<char>>, v: JsonView) -> JsonView
    decreases path.len(),
{
    if path.len() == 0 {
        v
    } else {
        let entries = members(root);
        if path.len() == 1 {
            JsonView::Object(obj_insert(entries, path[0], v))
        } else {
            let i = find_key(entries, path[0]);
            let child = if i >= 0 {
                entries[i].1
            } else {
                JsonView::Object(Seq::empty())
            };
            JsonView::Object(obj_insert(entries, path[0], insert_path_spec(child, path.drop_first(), v)))
        }
    }
}

/// The value found by following `path` through objects.
pub open spec fn get_path(root: JsonView, path: Seq<Seq<char>>) -> Option<JsonView>
    decreases path.len(),
{
    if path.len() == 0 {
        Some(root)
    } else {
        match get_spec(root, path[0]) {
            Some(c) => get_path(c, path.drop_first()),
            None => None,
        }
    }
}

proof fn lemma_find_key_is(entries: Seq<(Seq<char>, JsonView)>, key: Seq<char>, i: int)
    requires
        0 <= i < entries.len(),
        entries[i].0 == key,
        forall|j: int| 0 <= j < i ==> #[trigger] entries[j].0 != key,
    ensures
        find_key(entries, key) == i,
{
    lemma_find_key(entries, key);
    let f = find_key(entries, key);
    if f < 0 {
        assert(entries[i].0 != key);
    } else if f < i {
        assert(entries[f].0 != key);
    } else if f > i {
        assert(entries[i].0 != key);
    }
}

/// After inserting a member, the object maps its key to the new value.
pub proof fn lemma_obj_insert_get(entries: Seq<(Seq<char>, JsonView)>, key: Seq<char>, v: JsonView)
    ensures
        get_spec(JsonView::Object(obj_insert(entries, key, v)), key) == Some(v),
{
    lemma_find_key(entries, key);
    let i = find_key(entries, key);
    let e2 = obj_insert(entries, key, v);
    if i >= 0 {
        assert forall|j: int| 0 <= j < i implies #[trigger] e2[j].0 != key by {
            assert(e2[j] == entries[j]);
        }
        lemma_find_key_is(e2, key, i);
    } else {
        assert forall|j: int| 0 <= j < entries.len() implies #[trigger] e2[j].0 != key by {
            assert(e2[j] == entries[j]);
        }
        lemma_find_key_is(e2, key, entries.len() as int);
    }
}

/// What is written at a path is what is read back from it.
pub proof fn lemma_insert_then_get(root: JsonView, path: Seq<Seq<char>>, v: JsonView)
    ensures
        get_path(insert_path_spec(root, path, v), path) == Some(v),
    decreases path.len(),
{
    if path.len() == 0 {
    } else if path.len() == 1 {
        lemma_obj_insert_get(members(root), path[0], v);
        assert(path.drop_first().len() == 0);
        assert(insert_path_spec(root, path, v) == JsonView::Object(obj_insert(members(root), path[0], v)));
        assert(get_path(v, path.drop_first()) == Some(v));
    } else {
        let entries = members(root);
        let i = find_key(entries, path[0]);
        let child = if i >= 0 {
            entries[i].1
        } else {
            JsonView::Object(Seq::empty())
        };
        let inner = insert_path_spec(child, path.drop_first(), v);
        lemma_obj_insert_get(entries, path[0], inner);
        lemma_insert_then_get(child, path.drop_first(), v);
        assert(insert_path_spec(root, path, v) == JsonView::Object(obj_insert(entries, path[0], inner)));
    }
}

/// Inserting a member leaves the lookup of every other key as it was.
proof fn lemma_obj_insert_other(entries: Seq<(Seq<char>, JsonView)>, key: Seq<char>, v: JsonView, other: Seq<char>)
    requires
        other != key,
    ensures
        get_spec(JsonView::Object(obj_insert(entries, key, v)), other) == get_spec(JsonView::Object(entries), other),
{
    lemma_find_key(entries, key);
    lemma_find_key(entries, other);
    let e2 = obj_insert(entries, key, v);
    let f = find_key(entries, other);
    assert forall|j: int| 0 <= j < entries.len() implies #[trigger] e2[j].0 == other <==> entries[j].0 == other by {
        if find_key(entries, key) >= 0 && j == find_key(entries, key) {
            assert(e2[j].0 == key);
        } else {
            assert(e2[j] == entries[j]);
        }
    }
    if f >= 0 {
        assert forall|j: int| 0 <= j < f implies #[trigger] e2[j].0 != other by {
            assert(entries[j].0 != other);
        }
        assert(e2[f].0 == other);
        lemma_find_key_is(e2, other, f);
        if find_key(entries, key) >= 0 && f == find_key(entries, key) {
            assert(entries[f].0 == key);
        } else {
            assert(e2[f] == entries[f]);
        }
    } else {
        lemma_find_key(e2, other);
        let g = find_key(e2, other);
        if g >= 0 {
            if g < entries.len() {
                assert(entries[g].0 != other);
            } else {
                assert(e2[g].0 == key);
            }
        }
    }
}

/// Two paths that part ways somewhere: neither leads into the other.
pub open spec fn paths_diverge(p: Seq<Seq<char>>, q: Seq<Seq<char>>) -> bool {
    exists|j: int| 0 <= j < p.len() && j < q.len() && #[trigger] p[j] != q[j]
}

/// Writing at one path leaves what is found at a diverging path alone.
pub proof fn lemma_insert_keeps_other(root: JsonView, q: Seq<Seq<char>>, v: JsonView, p: Seq<Seq<char>>)
    requires
        paths_diverge(p, q),
        get_path(root, p) is Some,
    ensures
        get_path(insert_path_spec(root, q, v), p) == get_path(root, p),
    decreases p.len(),
{
    let entries = members(root);
    assert(get_spec(root, p[0]) is Some);
    assert(root is Object);
    let after = insert_path_spec(root, q, v);
    if p[0] != q[0] {
        if q.len() == 1 {
            lemma_obj_insert_other(entries, q[0], v, p[0]);
        } else {
            let i = find_key(entries, q[0]);
            let child = if i >= 0 { entries[i].1 } else { JsonView::Object(Seq::empty()) };
            lemma_obj_insert_other(entries, q[0], insert_path_spec(child, q.drop_first(), v), p[0]);
        }
        assert(get_spec(after, p[0]) == get_spec(root, p[0]));
    } else {
        let j = choose|j: int| 0 <= j < p.len() && j < q.len() && #[trigger] p[j] != q[j];
        assert(j > 0);
        assert(q.len() > 1);
        let p1 = p.drop_first();
        let q1 = q.drop_first();
        assert(p1[j - 1] != q1[j - 1]);
        assert(paths_diverge(p1, q1));
        lemma_find_key(entries, q[0]);
        let i = find_key(entries, q[0]);
        assert(i >= 0);
        let child = entries[i].1;
        assert(get_spec(root, p[0]) == Some(child));
        let inner = insert_path_spec(child, q1, v);
        lemma_obj_insert_get(entries, q[0], inner);
        lemma_insert_keeps_other(child, q1, v, p1);
        assert(get_spec(after, p[0]) == Some(inner));
    }
}

/// Building the document puts each field's value at the field's path,
/// provided no other field's path runs into or out of it: what a field
/// holds is what the document holds at its pointer.
pub proof fn lemma_build_places_values(fields: Seq<FieldStateView>, i: int, v: JsonView)
    requires
        0 <= i < fields.len(),
        build_fields(fields) is Ok,
        current_value_spec(fields[i]) == Ok::<Option<JsonView>, CoercionErrorView>(Some(v)),
        forall|k: int| 0 <= k < fields.len() && k != i ==> paths_diverge(fields[i].schema.path, #[trigger] fields[k].schema.path),
    ensures
        get_path(build_fields(fields)->Ok_0, fields[i].schema.path) == Some(v),
    decreases fields.len(),
{
    let init = fields.drop_last();
    let last = fields.last();
    if i == fields.len() - 1 {
        lemma_insert_then_get(build_fields(init)->Ok_0, last.schema.path, v);
    } else {
        assert forall|k: int| 0 <= k < init.len() && k != i implies paths_diverge(init[i].schema.path, #[trigger] init[k].schema.path) by {
            assert(init[k] == fields[k]);
        }
        assert(init[i] == fields[i]);
        lemma_build_places_values(init, i, v);
        match current_value_spec(last) {
            Ok(Some(w)) => {
                assert(paths_diverge(fields[i].schema.path, fields[fields.len() - 1].schema.path));
                lemma_insert_keeps_other(build_fields(init)->Ok_0, last.schema.path, w, fields[i].schema.path);
            },
            _ => {},
        }
    }
}

fn find_member(entries: &Vec<(String, JsonValue)>, key: &str) -> (r: Option<usize>)
    ensures
        match r {
            Some(k) => k == find_key(entries_view(entries@), key@),
            None => find_key(entries_view(entries@), key@) < 0,
        },
{
    let ghost ev = entries_view(entries@);
    proof {
        lemma_entries_view(entries@);
        lemma_find_key(ev, key@);
    }
    let mut i: usize = 0;
    while i < entries.len()
        invariant
            i <= entries.len(),
            ev == entries_view(entries@),
            ev.len() == entries@.len(),
            forall|j: int| 0 <= j < entries@.len() ==> #[trigger] ev[j] == (entries@[j].0@, json_view(entries@[j].1)),
            forall|j: int| 0 <= j < i ==> #[trigger] ev[j].0 != key@,
            -1 <= find_key(ev, key@) < ev.len(),
            find_key(ev, key@) >= 0 ==> ev[find_key(ev, key@)].0 == key@,
            forall|j: int|
                0 <= j < ev.len() && (find_key(ev, key@) < 0 || j < find_key(ev, key@)) ==> #[trigger] ev[j].0 != key@,
        decreases entries.len() - i,
    {
        if str_equal(entries[i].0.as_str(), key) {
            assert(ev[i as int].0 == key@);
            let ghost f = find_key(ev, key@);
            assert(f == i) by {
                if f >= 0 && f < i {
                    assert(ev[f].0 != key@);
                }
            }
            return Some(i);
        }
        assert(ev[i as int].0 != key@);
        i = i + 1;
    }
    None
}

proof fn lemma_entries_view_update(s: Seq<(String, JsonValue)>, i: int, x: (String, JsonValue))
    requires
        0 <= i < s.len(),
    ensures
        entries_view(s.update(i, x)) == entries_view(s).update(i, (x.0@, json_view(x.1))),
{
    lemma_entries_view(s);
    lemma_entries_view(s.update(i, x));
    assert(entries_view(s.update(i, x)) =~= entries_view(s).update(i, (x.0@, json_view(x.1))));
}

proof fn lemma_entries_view_push(s: Seq<(String, JsonValue)>, x: (String, JsonValue))
    ensures
        entries_view(s.push(x)) == entries_view(s).push((x.0@, json_view(x.1))),
{
    assert(s.push(x).drop_last() =~= s);
}

/// Places `value` at `path[start..]` inside `root`.
pub fn insert_path(root: &mut JsonValue, path: &Vec<String>, start: usize, value: JsonValue)
    requires
        start <= path.len(),
    ensures
        final(root)@ == insert_path_spec(old(root)@, string_views(path@).subrange(start as int, path.len() as int), value@),
    decreases path.len() - start,
{
    let ghost rest = string_views(path@).subrange(start as int, path.len() as int);
    if start == path.len() {
        *root = value;
        return;
    }
    assert(rest[0] == path@[start as int]@);
    assert(rest.drop_first() =~= string_views(path@).subrange(start + 1, path.len() as int));
    let mut entries: Vec<(String, JsonValue)> = match root {
        JsonValue::Object(e) => {
            let mut taken: Vec<(String, JsonValue)> = Vec::new();
            std::mem::swap(&mut taken, e);
            taken
        },
        _ => Vec::new(),
    };
    assert(entries_view(entries@) == members(old(root)@));
    let key = path[start].clone();
    let pos = find_member(&entries, key.as_str());
    proof {
        lemma_entries_view(entries@);
        lemma_find_key(entries_view(entries@), key@);
    }
    if start + 1 == path.len() {
        match pos {
            Some(k) => {
                let ghost before = entries@;
                entries.set(k, (key, value));
                proof {
                    lemma_entries_view_update(before, k as int, entries@[k as int]);
                }
            },
            None => {
                let ghost before = entries@;
                entries.push((key, value));
                proof {
                    lemma_entries_view_push(before, entries@.last());
                    assert(entries@ == before.push(entries@.last()));
                }
            },
        }
        *root = JsonValue::Object(entries);
    } else {
        match pos {
            Some(k) => {
                let ghost before = entries@;
                let (name, mut child) = entries.remove(k);
                proof {
                    lemma_entries_view(before);
                    assert(before[k as int] == (name, child));
                }
                let ghost child_before = child@;
                insert_path(&mut child, path, start + 1, value);
                entries.insert(k, (name, child));
                proof {
                    assert(entries@ =~= before.update(k as int, (name, child)));
                    lemma_entries_view_update(before, k as int, (name, child));
                }
            },
            None => {
                let mut child = JsonValue::Object(Vec::new());
                proof {
                    assert(entries_view(Seq::<(String, JsonValue)>::empty()) =~= Seq::<(Seq<char>, JsonView)>::empty());
                }
                insert_path(&mut child, path, start + 1, value);
                let ghost before = entries@;
                entries.push((key, child));
                proof {
                    lemma_entries_view_push(before, entries@.last());
                    assert(entries@ == before.push(entries@.last()));
                }
            },
        }
        *root = JsonValue::Object(entries);
    }
}


/// The fields of all sections, in order.
pub open spec fn all_fields(sections: Seq<SectionStateView>) -> Seq<FieldStateView>
    decreases sections.len(),
{
    if sections.len() == 0 {
        Seq::empty()
    } else {
        all_fields(sections.drop_last()) + sections.last().fields
    }
}

/// The document the fields build, starting from an empty object: each
/// field's value, where it has one, is placed at the field's path, in field
/// order; the first field whose text cannot be read fails the whole build.
pub open spec fn build_fields(fields: Seq<FieldStateView>) -> Result<JsonView, CoercionErrorView>
    decreases fields.len(),
{
    if fields.len() == 0 {
        Ok(JsonView::Object(Seq::empty()))
    } else {
        match build_fields(fields.drop_last()) {
            Err(e) => Err(e),
            Ok(root) => match current_value_spec(fields.last()) {
                Err(e) => Err(e),
                Ok(None) => Ok(root),
                Ok(Some(v)) => Ok(insert_path_spec(root, fields.last().schema.path, v)),
            },
        }
    }
}

proof fn lemma_build_err(a: Seq<FieldStateView>, b: Seq<FieldStateView>)
    requires
        build_fields(a) is Err,
    ensures
        build_fields(a + b) == build_fields(a),
    decreases b.len(),
{
    if b.len() == 0 {
        assert(a + b =~= a);
    } else {
        lemma_build_err(a, b.drop_last());
        assert((a + b).drop_last() =~= a + b.drop_last());
    }
}

/// The first field, section by section, whose pointer is `pointer`.
pub open spec fn first_in_fields(fields: Seq<FieldStateView>, pointer: Seq<char>) -> int
    decreases fields.len(),
{
    if fields.len() == 0 {
        -1
    } else if fields[0].schema.pointer == pointer {
        0
    } else {
        let r = first_in_fields(fields.drop_first(), pointer);
        if r < 0 {
            -1
        } else {
            r + 1
        }
    }
}

pub open spec fn first_match(sections: Seq<SectionStateView>, pointer: Seq<char>) -> Option<(int, int)>
    decreases sections.len(),
{
    if sections.len() == 0 {
        None
    } else {
        let j = first_in_fields(sections[0].fields, pointer);
        if j >= 0 {
            Some((0, j))
        } else {
            match first_match(sections.drop_first(), pointer) {
                Some((a, b)) => Some((a + 1, b)),
                None => None,
            }
        }
    }
}

proof fn lemma_first_in_fields(fields: Seq<FieldStateView>, pointer: Seq<char>)
    ensures
        -1 <= first_in_fields(fields, pointer) < fields.len(),
        first_in_fields(fields, pointer) >= 0 ==> fields[first_in_fields(fields, pointer)].schema.pointer == pointer,
        forall|j: int|
            0 <= j < fields.len() && (first_in_fields(fields, pointer) < 0 || j < first_in_fields(fields, pointer))
                ==> #[trigger] fields[j].schema.pointer != pointer,
    decreases fields.len(),
{
    if fields.len() > 0 && fields[0].schema.pointer != pointer {
        lemma_first_in_fields(fields.drop_first(), pointer);
        assert forall|j: int|
            0 <= j < fields.len() && (first_in_fields(fields, pointer) < 0 || j < first_in_fields(fields, pointer))
                implies #[trigger] fields[j].schema.pointer != pointer by {
            if j > 0 {
                assert(fields[j] == fields.drop_first()[j - 1]);
            }
        }
    }
}

proof fn lemma_first_match(sections: Seq<SectionStateView>, pointer: Seq<char>)
    ensures
        match first_match(sections, pointer) {
            Some((a, b)) => 0 <= a < sections.len() && b == first_in_fields(sections[a].fields, pointer) && b >= 0
                && forall|i: int| 0 <= i < a ==> first_in_fields(#[trigger] sections[i].fields, pointer) < 0,
            None => forall|i: int| 0 <= i < sections.len() ==> first_in_fields(#[trigger] sections[i].fields, pointer) < 0,
        },
    decreases sections.len(),
{
    if sections.len() > 0 {
        lemma_first_match(sections.drop_first(), pointer);
        let j = first_in_fields(sections[0].fields, pointer);
        if j < 0 {
            match first_match(sections.drop_first(), pointer) {
                Some((a, b)) => {
                    assert forall|i: int| 0 <= i < a + 1 implies first_in_fields(#[trigger] sections[i].fields, pointer) < 0 by {
                        if i > 0 {
                            assert(sections[i] == sections.drop_first()[i - 1]);
                        }
                    }
                    assert(sections[a + 1] == sections.drop_first()[a]);
                },
                None => {
                    assert forall|i: int| 0 <= i < sections.len() implies first_in_fields(#[trigger] sections[i].fields, pointer) < 0 by {
                        if i > 0 {
                            assert(sections[i] == sections.drop_first()[i - 1]);
                        }
                    }
                },
            }
        }
    }
}

impl FormState {
    /// Builds the document from the fields' current values.
    pub fn try_build_value(&self) -> (r: Result<JsonValue, FieldCoercionError>)
        ensures
            match (r, build_fields(all_fields(self@.sections))) {
                (Ok(v), Ok(w)) => v@ == w,
                (Err(e), Err(w)) => e@ == w,
                _ => false,
            },
    {
        let ghost secs = self@.sections;
        let mut root = JsonValue::Object(Vec::new());
        proof {
            assert(entries_view(Seq::<(String, JsonValue)>::empty()) =~= Seq::<(Seq<char>, JsonView)>::empty());
            assert(secs.subrange(0, 0) =~= Seq::<SectionStateView>::empty());
        }
        let mut i: usize = 0;
        while i < self.sections.len()
            invariant
                i <= self.sections.len(),
                secs == self@.sections,
                secs.len() == self.sections@.len(),
                build_fields(all_fields(secs.subrange(0, i as int))) == Ok::<JsonView, CoercionErrorView>(root@),
            decreases self.sections.len() - i,
        {
            let section = &self.sections[i];
            let ghost before = all_fields(secs.subrange(0, i as int));
            assert(secs[i as int] == section@);
            let mut j: usize = 0;
            assert(section@.fields.subrange(0, 0) =~= Seq::<FieldStateView>::empty());
            assert(before + section@.fields.subrange(0, 0) =~= before);
            while j < section.fields.len()
                invariant
                    j <= section.fields.len(),
                    secs == self@.sections,
                    i < self.sections.len(),
                    section == &self.sections[i as int],
                    secs[i as int] == section@,
                    before == all_fields(secs.subrange(0, i as int)),
                    build_fields(before + section@.fields.subrange(0, j as int)) == Ok::<JsonView, CoercionErrorView>(root@),
                decreases section.fields.len() - j,
            {
                let field = &section.fields[j];
                let ghost pre = before + section@.fields.subrange(0, j as int);
                let ghost post = before + section@.fields.subrange(0, j + 1);
                assert(post.drop_last() =~= pre);
                assert(section@.fields[j as int] == field@);
                assert(post.last() == field@);
                match field.current_value() {
                    Err(e) => {
                        proof {
                            let all = all_fields(secs);
                            let rest_in = section@.fields.subrange(j + 1, section@.fields.len() as int);
                            lemma_all_fields_split(secs, i as int);
                            assert(post + rest_in =~= before + section@.fields);
                            lemma_build_err(post, rest_in + all_fields(secs.subrange(i + 1, secs.len() as int)));
                            assert(post + (rest_in + all_fields(secs.subrange(i + 1, secs.len() as int))) =~= all);
                        }
                        return Err(e);
                    },
                    Ok(None) => {},
                    Ok(Some(v)) => {
                        proof {
                            assert(field@.schema.path == string_views(field.schema.path@));
                            assert(string_views(field.schema.path@).subrange(0, field.schema.path@.len() as int)
                                =~= string_views(field.schema.path@));
                        }
                        insert_path(&mut root, &field.schema.path, 0, v);
                    },
                }
                j = j + 1;
            }
            proof {
                assert(section@.fields.subrange(0, section@.fields.len() as int) =~= section@.fields);
                assert(secs.subrange(0, i + 1).drop_last() =~= secs.subrange(0, i as int));
                assert(all_fields(secs.subrange(0, i + 1)) == before + section@.fields);
            }
            i = i + 1;
        }
        proof {
            assert(secs.subrange(0, secs.len() as int) =~= secs);
        }
        Ok(root)
    }

    /// Whether any field has been edited.
    pub fn is_dirty(&self) -> (r: bool)
        ensures
            r == exists|i: int, j: int|
                0 <= i < self@.sections.len() && 0 <= j < self@.sections[i].fields.len()
                    && #[trigger] self@.sections[i].fields[j].dirty,
    {
        let mut i: usize = 0;
        while i < self.sections.len()
            invariant
                i <= self.sections.len(),
                forall|a: int, b: int|
                    0 <= a < i && 0 <= b < self@.sections[a].fields.len() ==> !#[trigger] self@.sections[a].fields[b].dirty,
            decreases self.sections.len() - i,
        {
            let section = &self.sections[i];
            let mut j: usize = 0;
            while j < section.fields.len()
                invariant
                    j <= section.fields.len(),
                    i < self.sections.len(),
                    section == &self.sections[i as int],
                    forall|b: int| 0 <= b < j ==> !#[trigger] self@.sections[i as int].fields[b].dirty,
                decreases section.fields.len() - j,
            {
                if section.fields[j].dirty {
                    assert(self@.sections[i as int].fields[j as int].dirty);
                    return true;
                }
                j = j + 1;
            }
            i = i + 1;
        }
        false
    }
}

/// The fields of the first sections, then of the next one.
pub proof fn lemma_all_fields_split(secs: Seq<SectionStateView>, i: int)
    requires
        0 <= i < secs.len(),
    ensures
        all_fields(secs) == all_fields(secs.subrange(0, i)) + secs[i].fields + all_fields(secs.subrange(i + 1, secs.len() as int)),
    decreases secs.len() - i,
{
    lemma_all_fields_concat(secs.subrange(0, i + 1), secs.subrange(i + 1, secs.len() as int));
    assert(secs.subrange(0, i + 1) + secs.subrange(i + 1, secs.len() as int) =~= secs);
    assert(secs.subrange(0, i + 1).drop_last() =~= secs.subrange(0, i));
}

proof fn lemma_all_fields_concat(a: Seq<SectionStateView>, b: Seq<SectionStateView>)
    ensures
        all_fields(a + b) == all_fields(a) + all_fields(b),
    decreases b.len(),
{
    if b.len() == 0 {
        assert(a + b =~= a);
        assert(all_fields(a) + Seq::<FieldStateView>::empty() =~= all_fields(a));
    } else {
        lemma_all_fields_concat(a, b.drop_last());
        assert((a + b).drop_last() =~= a + b.drop_last());
        assert((a + b).last() == b.last());
        assert(all_fields(a) + all_fields(b.drop_last()) + b.last().fields =~= all_fields(a) + (all_fields(
            b.drop_last(),
        ) + b.last().fields));
    }
}


/// The fields with their errors cleared.
pub open spec fn cleared(fields: Seq<FieldStateView>) -> Seq<FieldStateView> {
    fields.map_values(|f: FieldStateView| FieldStateView { error: None, ..f })
}

/// The section with field `b` carrying the error `message`.
pub open spec fn with_error(s: SectionStateView, b: int, message: Seq<char>) -> SectionStateView {
    SectionStateView { fields: s.fields.update(b, FieldStateView { error: Some(message), ..s.fields[b] }), ..s }
}

fn first_field_with_pointer(fields: &Vec<FieldState>, pointer: &str) -> (r: Option<usize>)
    ensures
        match r {
            Some(k) => k == first_in_fields(field_views(fields@), pointer@),
            None => first_in_fields(field_views(fields@), pointer@) < 0,
        },
{
    let ghost fv = field_views(fields@);
    proof {
        lemma_first_in_fields(fv, pointer@);
    }
    let mut j: usize = 0;
    while j < fields.len()
        invariant
            j <= fields.len(),
            fv == field_views(fields@),
            fv.len() == fields@.len(),
            forall|q: int| 0 <= q < j ==> #[trigger] fv[q].schema.pointer != pointer@,
            -1 <= first_in_fields(fv, pointer@) < fv.len(),
            first_in_fields(fv, pointer@) >= 0 ==> fv[first_in_fields(fv, pointer@)].schema.pointer == pointer@,
            forall|q: int|
                0 <= q < fv.len() && (first_in_fields(fv, pointer@) < 0 || q < first_in_fields(fv, pointer@))
                    ==> #[trigger] fv[q].schema.pointer != pointer@,
        decreases fields.len() - j,
    {
        assert(fv[j as int] == fields@[j as int]@);
        if str_equal(fields[j].schema.pointer.as_str(), pointer) {
            assert(fv[j as int].schema.pointer == pointer@);
            let ghost f = first_in_fields(fv, pointer@);
            assert(f == j) by {
                if f >= 0 && f < j {
                    assert(fv[f].schema.pointer != pointer@);
                }
            }
            return Some(j);
        }
        j = j + 1;
    }
    None
}

/// Follows a path of member names through a document.
pub fn value_at<'a>(data: &'a JsonValue, path: &Vec<String>) -> (r: Option<&'a JsonValue>)
    ensures
        match r {
            Some(v) => get_path(data@, string_views(path@)) == Some(v@),
            None => get_path(data@, string_views(path@)) is None,
        },
{
    let ghost p = string_views(path@);
    let mut cur: &JsonValue = data;
    let mut i: usize = 0;
    assert(p.subrange(0, p.len() as int) =~= p);
    while i < path.len()
        invariant
            i <= path.len(),
            p == string_views(path@),
            p.len() == path@.len(),
            get_path(data@, p) == get_path(cur@, p.subrange(i as int, p.len() as int)),
        decreases path.len() - i,
    {
        let ghost rest = p.subrange(i as int, p.len() as int);
        assert(rest[0] == path@[i as int]@);
        assert(rest.drop_first() =~= p.subrange(i + 1, p.len() as int));
        match cur.get(path[i].as_str()) {
            Some(c) => {
                cur = c;
            },
            None => {
                return None;
            },
        }
        i = i + 1;
    }
    assert(p.subrange(p.len() as int, p.len() as int) =~= Seq::<Seq<char>>::empty());
    Some(cur)
}

/// A field shown with the document's value at its path, if there is one.
pub open spec fn field_seeded_from(f: FieldStateView, data: JsonView) -> FieldStateView {
    match get_path(data, f.schema.path) {
        Some(v) => crate::field::seeded(f, v),
        None => f,
    }
}

/// A section whose fields are seeded from the document.
pub open spec fn section_seeded_from(s: SectionStateView, data: JsonView) -> SectionStateView {
    SectionStateView { fields: s.fields.map_values(|f: FieldStateView| field_seeded_from(f, data)), ..s }
}

/// The form with every field showing the document's value at its path;
/// fields the document has no value for stay as they are.
pub open spec fn form_seeded_from(st: FormStateView, data: JsonView) -> FormStateView {
    FormStateView { sections: st.sections.map_values(|s: SectionStateView| section_seeded_from(s, data)), ..st }
}

fn seed_section(sec: &mut SectionState, data: &JsonValue)
    ensures
        final(sec)@ == section_seeded_from(old(sec)@, data@),
{
    let ghost start = old(sec)@;
    let mut j: usize = 0;
    while j < sec.fields.len()
        invariant
            j <= sec.fields.len(),
            sec.fields@.len() == start.fields.len(),
            sec@.id == start.id,
            sec@.title == start.title,
            sec@.description == start.description,
            sec@.scroll_offset == start.scroll_offset,
            sec@.root == start.root,
            sec@.path == start.path,
            forall|k: int| 0 <= k < j ==> #[trigger] sec@.fields[k] == field_seeded_from(start.fields[k], data@),
            forall|k: int| j <= k < start.fields.len() ==> #[trigger] sec@.fields[k] == start.fields[k],
        decreases sec.fields.len() - j,
    {
        let ghost before = sec.fields@;
        assert(sec@.fields[j as int] == start.fields[j as int]);
        assert(field_views(before)[j as int] == before[j as int]@);
        let mut f = sec.fields.remove(j);
        assert(f == before[j as int]);
        assert(f@ == start.fields[j as int]);
        match value_at(data, &f.schema.path) {
            Some(v) => f.seed_value(v),
            None => {},
        }
        assert(f@ == field_seeded_from(start.fields[j as int], data@));
        sec.fields.insert(j, f);
        assert(sec.fields@ =~= before.update(j as int, f));
        assert(field_views(sec.fields@) =~= field_views(before).update(j as int, f@));
        j = j + 1;
    }
    assert(sec@.fields =~= start.fields.map_values(|f: FieldStateView| field_seeded_from(f, data@)));
}

impl FormState {
    /// Shows a document in the form: each field whose path leads to a
    /// value in `data` is seeded with it (and is then neither edited nor in
    /// error); the others and the focus stay as they are.
    pub fn seed_from(&mut self, data: &JsonValue)
        ensures
            final(self)@ == form_seeded_from(old(self)@, data@),
            final(self).wf() == old(self).wf(),
            final(self).sections@.len() == old(self).sections@.len(),
    {
        let ghost start = old(self)@;
        let mut i: usize = 0;
        while i < self.sections.len()
            invariant
                i <= self.sections.len(),
                self.sections@.len() == start.sections.len(),
                self.section_index == old(self).section_index,
                self.field_index == old(self).field_index,
                forall|k: int| 0 <= k < i ==> #[trigger] self@.sections[k] == section_seeded_from(start.sections[k], data@),
                forall|k: int| i <= k < start.sections.len() ==> #[trigger] self@.sections[k] == start.sections[k],
            decreases self.sections.len() - i,
        {
            let ghost before = self.sections@;
            assert(self@.sections[i as int] == start.sections[i as int]);
            assert(section_views(before)[i as int] == before[i as int]@);
            let mut sec = self.sections.remove(i);
            assert(sec == before[i as int]);
            assert(sec@ == start.sections[i as int]);
            seed_section(&mut sec, data);
            self.sections.insert(i, sec);
            assert(self.sections@ =~= before.update(i as int, sec));
            assert(section_views(self.sections@) =~= section_views(before).update(i as int, sec@));
            i = i + 1;
        }
        assert(self@.sections =~= start.sections.map_values(|s: SectionStateView| section_seeded_from(s, data@)));
    }
}

impl FormState {
    /// Records an error on the first field whose pointer is `pointer`;
    /// `false` when no field has it.
    pub fn set_error(&mut self, pointer: &str, message: String) -> (r: bool)
        ensures
            final(self)@.sections.len() == old(self)@.sections.len(),
            final(self)@.section_index == old(self)@.section_index,
            final(self)@.field_index == old(self)@.field_index,
            match first_match(old(self)@.sections, pointer@) {
                Some((a, b)) => r && final(self)@.sections == old(self)@.sections.update(
                    a,
                    with_error(old(self)@.sections[a], b, message@),
                ),
                None => !r && final(self)@.sections == old(self)@.sections,
            },
    {
        let ghost secs = old(self)@.sections;
        proof {
            lemma_first_match(secs, pointer@);
        }
        let mut i: usize = 0;
        while i < self.sections.len()
            invariant
                i <= self.sections.len(),
                secs == self@.sections,
                secs == old(self)@.sections,
                self.section_index == old(self).section_index,
                self.field_index == old(self).field_index,
                secs.len() == self.sections@.len(),
                forall|a: int| 0 <= a < i ==> first_in_fields(#[trigger] secs[a].fields, pointer@) < 0,
            decreases self.sections.len() - i,
        {
            assert(secs[i as int] == self.sections@[i as int]@);
            match first_field_with_pointer(&self.sections[i].fields, pointer) {
                Some(b) => {
                    proof {
                        lemma_first_in_fields(secs[i as int].fields, pointer@);
                        lemma_first_match(secs, pointer@);
                        match first_match(secs, pointer@) {
                            Some((a0, b0)) => {
                                if a0 < i {
                                    assert(first_in_fields(secs[a0].fields, pointer@) < 0);
                                } else if a0 > i {
                                    assert(first_in_fields(secs[i as int].fields, pointer@) < 0);
                                }
                            },
                            None => {
                                assert(first_in_fields(secs[i as int].fields, pointer@) < 0);
                            },
                        }
                    }
                    let ghost before = self.sections@;
                    let mut sec = self.sections.remove(i);
                    let ghost fbefore = sec.fields@;
                    let mut f = sec.fields.remove(b);
                    f.set_error(message);
                    sec.fields.insert(b, f);
                    proof {
                        assert(sec.fields@ =~= fbefore.update(b as int, f));
                        assert(field_views(sec.fields@) =~= field_views(fbefore).update(b as int, f@));
                    }
                    self.sections.insert(i, sec);
                    proof {
                        assert(self.sections@ =~= before.update(i as int, sec));
                        assert(section_views(self.sections@) =~= secs.update(i as int, sec@));
                        assert(sec@ == with_error(secs[i as int], b as int, message@));
                    }
                    return true;
                },
                None => {},
            }
            i = i + 1;
        }
        proof {
            lemma_first_match(secs, pointer@);
            match first_match(secs, pointer@) {
                Some((a0, b0)) => {
                    assert(first_in_fields(secs[a0].fields, pointer@) < 0);
                },
                None => {},
            }
        }
        false
    }

    /// Clears every field's error.
    pub fn clear_errors(&mut self)
        ensures
            final(self)@.section_index == old(self)@.section_index,
            final(self)@.field_index == old(self)@.field_index,
            final(self)@.sections.len() == old(self)@.sections.len(),
            forall|a: int| 0 <= a < old(self)@.sections.len() ==> #[trigger] final(self)@.sections[a] == (
                SectionStateView { fields: cleared(old(self)@.sections[a].fields), ..old(self)@.sections[a] }),
    {
        let ghost secs = old(self)@.sections;
        let mut i: usize = 0;
        while i < self.sections.len()
            invariant
                i <= self.sections.len(),
                self.section_index == old(self).section_index,
                self.field_index == old(self).field_index,
                secs == old(self)@.sections,
                self@.sections.len() == secs.len(),
                forall|a: int| 0 <= a < i ==> #[trigger] self@.sections[a] == (SectionStateView {
                    fields: cleared(secs[a].fields),
                    ..secs[a]
                }),
                forall|a: int| i <= a < secs.len() ==> #[trigger] self@.sections[a] == secs[a],
            decreases self.sections.len() - i,
        {
            let ghost before = self.sections@;
            assert(self@.sections[i as int] == before[i as int]@);
            let mut sec = self.sections.remove(i);
            assert(sec@ == secs[i as int]);
            clear_field_errors(&mut sec.fields);
            self.sections.insert(i, sec);
            proof {
                assert(self.sections@ =~= before.update(i as int, sec));
                assert(section_views(self.sections@) =~= section_views(before).update(i as int, sec@));
            }
            i = i + 1;
        }
    }

}

fn clear_field_errors(fields: &mut Vec<FieldState>)
    ensures
        field_views(final(fields)@) == cleared(field_views(old(fields)@)),
{
    let ghost fs = field_views(old(fields)@);
    let mut j: usize = 0;
    while j < fields.len()
        invariant
            j <= fields.len(),
            fs == field_views(old(fields)@),
            field_views(fields@).len() == fs.len(),
            forall|q: int| 0 <= q < j ==> #[trigger] field_views(fields@)[q] == (FieldStateView { error: None, ..fs[q] }),
            forall|q: int| j <= q < fs.len() ==> #[trigger] field_views(fields@)[q] == fs[q],
        decreases fields.len() - j,
    {
        let ghost fbefore = fields@;
        assert(field_views(fbefore)[j as int] == fbefore[j as int]@);
        let mut f = fields.remove(j);
        f.clear_error();
        fields.insert(j, f);
        proof {
            assert(fields@ =~= fbefore.update(j as int, f));
            assert(field_views(fields@) =~= field_views(fbefore).update(j as int, f@));
        }
        j = j + 1;
    }
    assert(field_views(fields@) =~= cleared(fs));
}


/// Whether the focus is on an existing field.
pub open spec fn has_focus(f: FormStateView) -> bool {
    0 <= f.section_index < f.sections.len() && 0 <= f.field_index < f.sections[f.section_index].fields.len()
}

/// The form with the focused field replaced.
pub open spec fn with_focused(f: FormStateView, field: FieldStateView) -> FormStateView {
    let s = f.sections[f.section_index];
    FormStateView {
        sections: f.sections.update(f.section_index, SectionStateView { fields: s.fields.update(f.field_index, field), ..s }),
        ..f
    }
}

/// The focused field of a form that has one.
pub open spec fn focused(f: FormStateView) -> FieldStateView {
    f.sections[f.section_index].fields[f.field_index]
}

impl FormState {
    fn take_focused(&mut self) -> (r: (SectionState, FieldState))
        requires
            has_focus(old(self)@),
        ensures
            r.1@ == focused(old(self)@),
            r.0@ == (SectionStateView { fields: r.0@.fields, ..old(self)@.sections[old(self)@.section_index] }),
            ({
                let s = old(self)@.sections[old(self)@.section_index];
                r.0@.fields == s.fields.remove(old(self)@.field_index)
            }),
            final(self)@.sections == old(self)@.sections.remove(old(self)@.section_index),
            final(self)@.section_index == old(self)@.section_index,
            final(self)@.field_index == old(self)@.field_index,
            final(self).sections@.len() + 1 == old(self).sections@.len(),
            r.0.fields@.len() + 1 == old(self)@.sections[old(self)@.section_index].fields.len(),
            final(self).section_index == old(self).section_index,
            final(self).field_index == old(self).field_index,
    {
        let ghost before = self.sections@;
        assert(self@.sections[self.section_index as int] == before[self.section_index as int]@);
        let mut sec = self.sections.remove(self.section_index);
        let ghost fbefore = sec.fields@;
        assert(sec@.fields[self.field_index as int] == fbefore[self.field_index as int]@);
        let f = sec.fields.remove(self.field_index);
        proof {
            assert(field_views(sec.fields@) =~= field_views(fbefore).remove(self.field_index as int));
            assert(section_views(self.sections@) =~= section_views(before).remove(self.section_index as int));
        }
        (sec, f)
    }

    fn put_focused(&mut self, sec: SectionState, f: FieldState)
        requires
            old(self).section_index <= old(self).sections@.len(),
            old(self).field_index <= sec.fields@.len(),
        ensures
            final(self)@.section_index == old(self)@.section_index,
            final(self)@.field_index == old(self)@.field_index,
            final(self)@.sections == old(self)@.sections.insert(
                old(self)@.section_index,
                SectionStateView { fields: sec@.fields.insert(old(self)@.field_index, f@), ..sec@ },
            ),
    {
        let mut sec = sec;
        let ghost fbefore = sec.fields@;
        sec.fields.insert(self.field_index, f);
        proof {
            assert(field_views(sec.fields@) =~= field_views(fbefore).insert(self.field_index as int, f@));
        }
        let ghost before = self.sections@;
        self.sections.insert(self.section_index, sec);
        proof {
            assert(section_views(self.sections@) =~= section_views(before).insert(self.section_index as int, sec@));
        }
    }

    /// Applies a key press to the focused field; `None` without one.
    pub fn handle_key_focused(&mut self, key: &crate::keys::KeyEvent) -> (r: Option<crate::field::KeyHandling>)
        ensures
            final(self).sections@.len() == old(self).sections@.len(),
            final(self).section_index == old(self).section_index,
            final(self).field_index == old(self).field_index,
            !has_focus(old(self)@) ==> r is None && final(self)@ == old(self)@,
            has_focus(old(self)@) ==> ({
                let (f2, h) = crate::field::key_effect(focused(old(self)@), *key);
                r == Some(h) && final(self)@ == with_focused(old(self)@, f2)
            }),
    {
        if !(self.section_index < self.sections.len() && self.field_index < self.sections[self.section_index].fields.len()) {
            proof {
                if has_focus(self@) {
                    assert(self@.sections[self.section_index as int] == self.sections@[self.section_index as int]@);
                }
            }
            return None;
        }
        assert(self@.sections[self.section_index as int] == self.sections@[self.section_index as int]@);
        let ghost old_view = self@;
        let (sec, mut f) = self.take_focused();
        let h = f.handle_key(key);
        self.put_focused(sec, f);
        proof {
            let s = old_view.sections[old_view.section_index];
            assert(s.fields.remove(old_view.field_index).insert(old_view.field_index, f@) =~= s.fields.update(old_view.field_index, f@));
            assert(old_view.sections.remove(old_view.section_index).insert(
                old_view.section_index,
                SectionStateView { fields: s.fields.update(old_view.field_index, f@), ..s },
            ) =~= with_focused(old_view, f@).sections);
        }
        Some(h)
    }

    /// Scrolls the focused section so that its focused field is in a
    /// window of the given height; nothing without a focused section.
    pub fn scroll_to_focus(&mut self, height: u16)
        ensures
            !(old(self)@.section_index < old(self)@.sections.len()) ==> final(self)@ == old(self)@,
            old(self)@.section_index < old(self)@.sections.len() ==> final(self)@ == (FormStateView {
                sections: old(self)@.sections.update(
                    old(self)@.section_index,
                    SectionStateView {
                        scroll_offset: crate::display::scrolled(
                            old(self)@.sections[old(self)@.section_index].scroll_offset,
                            old(self)@.field_index,
                            crate::display::window_rows(height as int),
                        ),
                        ..old(self)@.sections[old(self)@.section_index]
                    },
                ),
                ..old(self)@
            }),
            final(self).sections@.len() == old(self).sections@.len(),
            final(self).section_index == old(self).section_index,
            final(self).field_index == old(self).field_index,
    {
        if self.section_index >= self.sections.len() {
            return;
        }
        let ghost before = self.sections@;
        assert(self@.sections[self.section_index as int] == before[self.section_index as int]@);
        let mut sec = self.sections.remove(self.section_index);
        crate::display::adjust_scroll_offset(&mut sec, self.field_index, height);
        self.sections.insert(self.section_index, sec);
        proof {
            assert(self.sections@ =~= before.update(self.section_index as int, sec));
            assert(section_views(self.sections@) =~= section_views(before).update(self.section_index as int, sec@));
        }
    }

    /// Applies a popup's choice to the focused field; nothing without one.
    pub fn apply_selection_focused(&mut self, selection: usize, multi: Option<Vec<bool>>)
        ensures
            !has_focus(old(self)@) ==> final(self)@ == old(self)@,
            has_focus(old(self)@) ==> final(self)@ == with_focused(
                old(self)@,
                crate::popup::field_after_selection(focused(old(self)@), selection as int, match multi {
                    Some(v) => Some(v@),
                    None => None,
                }),
            ),
            final(self).sections@.len() == old(self).sections@.len(),
            final(self).section_index == old(self).section_index,
            final(self).field_index == old(self).field_index,
    {
        if !(self.section_index < self.sections.len() && self.field_index < self.sections[self.section_index].fields.len()) {
            proof {
                if has_focus(self@) {
                    assert(self@.sections[self.section_index as int] == self.sections@[self.section_index as int]@);
                }
            }
            return;
        }
        assert(self@.sections[self.section_index as int] == self.sections@[self.section_index as int]@);
        let ghost old_view = self@;
        let (sec, mut f) = self.take_focused();
        crate::popup::apply_selection_to_field(&mut f, selection, multi);
        self.put_focused(sec, f);
        proof {
            let s = old_view.sections[old_view.section_index];
            assert(s.fields.remove(old_view.field_index).insert(old_view.field_index, f@) =~= s.fields.update(old_view.field_index, f@));
            assert(old_view.sections.remove(old_view.section_index).insert(
                old_view.section_index,
                SectionStateView { fields: s.fields.update(old_view.field_index, f@), ..s },
            ) =~= with_focused(old_view, f@).sections);
        }
    }

    /// Gives the focused field, an array, the text of its edited entries;
    /// `false` without a focused field.
    pub fn set_focused_array_text(&mut self, text: String) -> (r: bool)
        ensures
            r == has_focus(old(self)@),
            !r ==> final(self)@ == old(self)@,
            r ==> final(self)@ == with_focused(old(self)@, crate::field::edited(focused(old(self)@), crate::field::ValueView::Array(text@))),
            final(self).sections@.len() == old(self).sections@.len(),
            final(self).section_index == old(self).section_index,
            final(self).field_index == old(self).field_index,
    {
        if !(self.section_index < self.sections.len() && self.field_index < self.sections[self.section_index].fields.len()) {
            proof {
                if has_focus(self@) {
                    assert(self@.sections[self.section_index as int] == self.sections@[self.section_index as int]@);
                }
            }
            return false;
        }
        assert(self@.sections[self.section_index as int] == self.sections@[self.section_index as int]@);
        let ghost old_view = self@;
        let (sec, mut f) = self.take_focused();
        f.set_array_text(text);
        self.put_focused(sec, f);
        proof {
            let s = old_view.sections[old_view.section_index];
            assert(s.fields.remove(old_view.field_index).insert(old_view.field_index, f@) =~= s.fields.update(old_view.field_index, f@));
            assert(old_view.sections.remove(old_view.section_index).insert(
                old_view.section_index,
                SectionStateView { fields: s.fields.update(old_view.field_index, f@), ..s },
            ) =~= with_focused(old_view, f@).sections);
        }
        true
    }

    /// Stores a variant's saved document in the focused field; nothing
    /// without a focused field.
    pub fn set_focused_variant_document(&mut self, i: usize, doc: JsonValue)
        ensures
            !has_focus(old(self)@) ==> final(self)@ == old(self)@,
            has_focus(old(self)@) ==> final(self)@ == with_focused(
                old(self)@,
                match focused(old(self)@).value {
                    crate::field::ValueView::Composite(c) => if i < c.documents.len() {
                        crate::field::edited(
                            focused(old(self)@),
                            crate::field::ValueView::Composite(crate::choice::ChoiceView { documents: c.documents.update(i as int, Some(doc@)), ..c }),
                        )
                    } else {
                        focused(old(self)@)
                    },
                    _ => focused(old(self)@),
                },
            ),
            final(self).sections@.len() == old(self).sections@.len(),
            final(self).section_index == old(self).section_index,
            final(self).field_index == old(self).field_index,
    {
        if !(self.section_index < self.sections.len() && self.field_index < self.sections[self.section_index].fields.len()) {
            proof {
                if has_focus(self@) {
                    assert(self@.sections[self.section_index as int] == self.sections@[self.section_index as int]@);
                }
            }
            return;
        }
        assert(self@.sections[self.section_index as int] == self.sections@[self.section_index as int]@);
        let ghost old_view = self@;
        let (sec, mut f) = self.take_focused();
        f.set_variant_document(i, doc);
        self.put_focused(sec, f);
        proof {
            let s = old_view.sections[old_view.section_index];
            assert(s.fields.remove(old_view.field_index).insert(old_view.field_index, f@) =~= s.fields.update(old_view.field_index, f@));
            assert(old_view.sections.remove(old_view.section_index).insert(
                old_view.section_index,
                SectionStateView { fields: s.fields.update(old_view.field_index, f@), ..s },
            ) =~= with_focused(old_view, f@).sections);
        }
    }

    /// Applies a collection command to the focused field; nothing without
    /// a focused field.
    pub fn map_command_focused(&mut self, command: crate::keys::AppCommand)
        ensures
            !has_focus(old(self)@) ==> final(self)@ == old(self)@,
            has_focus(old(self)@) ==> final(self)@ == with_focused(
                old(self)@,
                crate::field::map_command_effect(focused(old(self)@), command),
            ),
            final(self).sections@.len() == old(self).sections@.len(),
            final(self).section_index == old(self).section_index,
            final(self).field_index == old(self).field_index,
    {
        if !(self.section_index < self.sections.len() && self.field_index < self.sections[self.section_index].fields.len()) {
            proof {
                if has_focus(self@) {
                    assert(self@.sections[self.section_index as int] == self.sections@[self.section_index as int]@);
                }
            }
            return;
        }
        assert(self@.sections[self.section_index as int] == self.sections@[self.section_index as int]@);
        let ghost old_view = self@;
        let (sec, mut f) = self.take_focused();
        f.apply_map_command(command);
        self.put_focused(sec, f);
        proof {
            let s = old_view.sections[old_view.section_index];
            assert(s.fields.remove(old_view.field_index).insert(old_view.field_index, f@) =~= s.fields.update(old_view.field_index, f@));
            assert(old_view.sections.remove(old_view.section_index).insert(
                old_view.section_index,
                SectionStateView { fields: s.fields.update(old_view.field_index, f@), ..s },
            ) =~= with_focused(old_view, f@).sections);
        }
    }

    /// Replaces entry `i` of the focused map field; nothing without a
    /// focused field.
    pub fn set_focused_map_entry(&mut self, i: usize, key: String, value: JsonValue)
        ensures
            !has_focus(old(self)@) ==> final(self)@ == old(self)@,
            has_focus(old(self)@) ==> final(self)@ == with_focused(
                old(self)@,
                match focused(old(self)@).value {
                    crate::field::ValueView::KeyValue(m) => if i < m.entries.len() {
                        crate::field::edited(
                            focused(old(self)@),
                            crate::field::ValueView::KeyValue(crate::keyvalue::MapView { entries: m.entries.update(i as int, (key@, value@)), ..m }),
                        )
                    } else {
                        focused(old(self)@)
                    },
                    _ => focused(old(self)@),
                },
            ),
            final(self).sections@.len() == old(self).sections@.len(),
            final(self).section_index == old(self).section_index,
            final(self).field_index == old(self).field_index,
    {
        if !(self.section_index < self.sections.len() && self.field_index < self.sections[self.section_index].fields.len()) {
            proof {
                if has_focus(self@) {
                    assert(self@.sections[self.section_index as int] == self.sections@[self.section_index as int]@);
                }
            }
            return;
        }
        assert(self@.sections[self.section_index as int] == self.sections@[self.section_index as int]@);
        let ghost old_view = self@;
        let (sec, mut f) = self.take_focused();
        f.set_map_entry(i, key, value);
        self.put_focused(sec, f);
        proof {
            let s = old_view.sections[old_view.section_index];
            assert(s.fields.remove(old_view.field_index).insert(old_view.field_index, f@) =~= s.fields.update(old_view.field_index, f@));
            assert(old_view.sections.remove(old_view.section_index).insert(
                old_view.section_index,
                SectionStateView { fields: s.fields.update(old_view.field_index, f@), ..s },
            ) =~= with_focused(old_view, f@).sections);
        }
    }

    /// Gives the focused field the text of a stepped floating-point number;
    /// `false` without a focused field.
    pub fn finish_number_step(&mut self, text: String) -> (r: bool)
        ensures
            r == has_focus(old(self)@),
            !r ==> final(self)@ == old(self)@,
            r ==> final(self)@ == with_focused(old(self)@, crate::field::edited(focused(old(self)@), crate::field::ValueView::Text(text@))),
    {
        if !(self.section_index < self.sections.len() && self.field_index < self.sections[self.section_index].fields.len()) {
            proof {
                if has_focus(self@) {
                    assert(self@.sections[self.section_index as int] == self.sections@[self.section_index as int]@);
                }
            }
            return false;
        }
        assert(self@.sections[self.section_index as int] == self.sections@[self.section_index as int]@);
        let ghost old_view = self@;
        let (sec, mut f) = self.take_focused();
        f.finish_number_step(text);
        self.put_focused(sec, f);
        proof {
            let s = old_view.sections[old_view.section_index];
            assert(s.fields.remove(old_view.field_index).insert(old_view.field_index, f@) =~= s.fields.update(old_view.field_index, f@));
            assert(old_view.sections.remove(old_view.section_index).insert(
                old_view.section_index,
                SectionStateView { fields: s.fields.update(old_view.field_index, f@), ..s },
            ) =~= with_focused(old_view, f@).sections);
        }
        true
    }
}

} // verus!

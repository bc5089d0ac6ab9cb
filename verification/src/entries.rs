//! The entry editor for arrays of scalars: the array's comma-separated text
//! opened as a list of entries that can be added, removed, selected,
//! reordered and typed into, then written back as text.

use vstd::prelude::*;
use crate::coerce::{join_with, push_joined, split_commas, split_commas_exec};
use crate::keys::{KeyCode, KeyEvent};
use crate::label::{is_ws, trim_chars, trim_end_seq, trim_seq, trim_start_seq};
use crate::text::{chars_of, string_from_chars, string_views};

verus! {

/// The trimmed, non-empty pieces among the first `n`.
pub open spec fn kept_pieces(parts: Seq<Seq<char>>, n: nat) -> Seq<Seq<char>>
    decreases n,
{
    if n == 0 {
        Seq::empty()
    } else {
        let rest = kept_pieces(parts, (n - 1) as nat);
        let item = trim_seq(parts[n - 1]);
        if item.len() == 0 {
            rest
        } else {
            rest.push(item)
        }
    }
}

/// The entries an array's text holds: its comma-separated pieces, trimmed,
/// without the empty ones.
pub open spec fn entries_of(text: Seq<char>) -> Seq<Seq<char>> {
    kept_pieces(split_commas(text), split_commas(text).len())
}

/// The entry editor as plain values.
pub struct EntryEditorView {
    pub entries: Seq<Seq<char>>,
    pub selected: int,
}

/// An open entry editor.
#[derive(Debug)]
pub struct EntryEditor {
    entries: Vec<String>,
    selected: usize,
}

impl View for EntryEditor {
    type V = EntryEditorView;

    closed spec fn view(&self) -> EntryEditorView {
        EntryEditorView { entries: string_views(self.entries@), selected: self.selected as int }
    }
}

/// The selection lies on an entry whenever there is one, and is zero
/// otherwise.
pub open spec fn selection_valid(e: EntryEditorView) -> bool {
    if e.entries.len() == 0 {
        e.selected == 0
    } else {
        0 <= e.selected < e.entries.len()
    }
}

/// The editor after Ctrl+N: an empty entry added at the end and selected.
pub open spec fn entry_added(e: EntryEditorView) -> EntryEditorView {
    EntryEditorView { entries: e.entries.push(Seq::empty()), selected: e.entries.len() as int }
}

/// The editor after Ctrl+D: the selected entry removed, the selection kept
/// on the entry that took its place or else on the new last one; nothing
/// happens without entries.
pub open spec fn entry_removed(e: EntryEditorView) -> EntryEditorView {
    if e.entries.len() == 0 {
        e
    } else {
        let rest = e.entries.remove(e.selected);
        EntryEditorView {
            entries: rest,
            selected: if e.selected < rest.len() {
                e.selected
            } else if rest.len() > 0 {
                rest.len() - 1
            } else {
                0
            },
        }
    }
}

/// The editor after Ctrl+Left or Ctrl+Right: the selection one entry back
/// or forward, staying within the entries.
pub open spec fn entry_selected(e: EntryEditorView, delta: int) -> EntryEditorView {
    if delta < 0 && e.selected > 0 {
        EntryEditorView { selected: e.selected - 1, ..e }
    } else if delta > 0 && e.selected + 1 < e.entries.len() {
        EntryEditorView { selected: e.selected + 1, ..e }
    } else {
        e
    }
}

/// The editor after Ctrl+Up or Ctrl+Down: the selected entry swapped with
/// the one before or after it, the selection following it; nothing happens
/// at either end.
pub open spec fn entry_moved(e: EntryEditorView, delta: int) -> EntryEditorView {
    let target = if delta < 0 { e.selected - 1 } else { e.selected + 1 };
    if delta != 0 && 0 <= target < e.entries.len() && 0 <= e.selected < e.entries.len() {
        EntryEditorView {
            entries: e.entries.update(e.selected, e.entries[target]).update(target, e.entries[e.selected]),
            selected: target,
        }
    } else {
        e
    }
}

/// The editor after a key typed into the selected entry: a character other
/// than a comma is appended, Backspace removes the last character; other
/// keys, and any key without entries, change nothing.
pub open spec fn entry_typed(e: EntryEditorView, key: KeyEvent) -> EntryEditorView {
    if e.entries.len() == 0 || !(0 <= e.selected < e.entries.len()) {
        e
    } else {
        let cur = e.entries[e.selected];
        match key.code {
            KeyCode::Char(c) => if c != ',' && !key.modifiers.control {
                EntryEditorView { entries: e.entries.update(e.selected, cur.push(c)), ..e }
            } else {
                e
            },
            KeyCode::Backspace => if cur.len() > 0 {
                EntryEditorView { entries: e.entries.update(e.selected, cur.drop_last()), ..e }
            } else {
                e
            },
            _ => e,
        }
    }
}

/// The array text the entries are written back as.
pub open spec fn entries_text(e: EntryEditorView) -> Seq<char> {
    join_with(e.entries, ", "@)
}

/// Adding an entry and removing it again leaves the entries as they were.
pub proof fn lemma_add_then_remove(e: EntryEditorView)
    requires
        selection_valid(e),
    ensures
        entry_removed(entry_added(e)).entries == e.entries,
{
    assert(e.entries.push(Seq::empty()).remove(e.entries.len() as int) =~= e.entries);
}

/// Moving the selected entry down and then up again restores the editor.
pub proof fn lemma_move_down_then_up(e: EntryEditorView)
    requires
        0 <= e.selected,
        e.selected + 1 < e.entries.len(),
    ensures
        entry_moved(entry_moved(e, 1), -1) == e,
{
    let m = entry_moved(e, 1);
    let s = e.selected;
    assert(m.entries[s + 1] == e.entries[s]);
    assert(m.entries[s] == e.entries[s + 1]);
    let back = entry_moved(m, -1);
    assert(back.entries =~= e.entries);
}

/// An entry that reads back as itself: not empty, no comma, and no white
/// space at either end.
pub open spec fn clean_entry(e: Seq<char>) -> bool {
    &&& e.len() > 0
    &&& !is_ws(e[0])
    &&& !is_ws(e.last())
    &&& forall|j: int| 0 <= j < e.len() ==> e[j] != ','
}

proof fn lemma_split_len(s: Seq<char>)
    ensures
        split_commas(s).len() >= 1,
    decreases s.len(),
{
    if s.len() > 0 {
        lemma_split_len(s.drop_last());
    }
}

/// Text without commas only extends the last piece.
proof fn lemma_split_append(x: Seq<char>, y: Seq<char>)
    requires
        forall|j: int| 0 <= j < y.len() ==> y[j] != ',',
    ensures
        split_commas(x + y) == split_commas(x).update(
            split_commas(x).len() - 1,
            split_commas(x).last() + y,
        ),
    decreases y.len(),
{
    lemma_split_len(x);
    let p = split_commas(x);
    if y.len() == 0 {
        assert(x + y =~= x);
        assert(p.last() + y =~= p.last());
        assert(p.update(p.len() - 1, p.last()) =~= p);
    } else {
        let y2 = y.drop_last();
        lemma_split_append(x, y2);
        assert((x + y).drop_last() =~= x + y2);
        assert((x + y).last() == y.last());
        let q = split_commas(x + y2);
        assert(q == p.update(p.len() - 1, p.last() + y2));
        assert((p.last() + y2).push(y.last()) =~= p.last() + y);
        assert(q.update(q.len() - 1, q.last().push(y.last())) =~= p.update(p.len() - 1, p.last() + y));
    }
}

/// A clean entry is its own trimmed form, also after one leading space.
pub(crate) proof fn lemma_trim_clean(e: Seq<char>)
    requires
        clean_entry(e),
    ensures
        trim_seq(e) == e,
        trim_seq(seq![' '] + e) == e,
{
    assert(trim_start_seq(e) == e);
    assert(trim_end_seq(e) == e);
    let spaced = seq![' '] + e;
    assert(spaced.drop_first() =~= e);
    assert(trim_start_seq(spaced) == trim_start_seq(e));
}

/// How the text of clean entries splits: the first entry, then each
/// following one after a space.
pub(crate) proof fn lemma_split_joined(es: Seq<Seq<char>>)
    requires
        es.len() > 0,
        forall|i: int| 0 <= i < es.len() ==> clean_entry(#[trigger] es[i]),
    ensures
        split_commas(join_with(es, ", "@)).len() == es.len(),
        split_commas(join_with(es, ", "@))[0] == es[0],
        forall|i: int| 1 <= i < es.len() ==> split_commas(join_with(es, ", "@))[i] == seq![' '] + #[trigger] es[i],
    decreases es.len(),
{
    if es.len() == 1 {
        assert(Seq::<char>::empty() + es[0] =~= es[0]);
        lemma_split_append(Seq::empty(), es[0]);
        assert(split_commas(Seq::<char>::empty()) == seq![Seq::<char>::empty()]);
        assert(join_with(es, ", "@) == es[0]);
    } else {
        let front = es.drop_last();
        assert forall|i: int| 0 <= i < front.len() implies clean_entry(#[trigger] front[i]) by {
            assert(front[i] == es[i]);
        }
        lemma_split_joined(front);
        let j = join_with(front, ", "@);
        let l = es.last();
        assert(clean_entry(es[es.len() - 1]));
        let tail = seq![' '] + l;
        assert forall|k: int| 0 <= k < tail.len() implies tail[k] != ',' by {
            if k > 0 {
                assert(tail[k] == l[k - 1]);
            }
        }
        reveal_strlit(", ");
        assert(", "@ =~= seq![',', ' ']);
        assert(join_with(es, ", "@) =~= j.push(',') + tail);
        lemma_split_append(j.push(','), tail);
        assert(j.push(',').drop_last() =~= j);
        lemma_split_len(j);
        let pj = split_commas(j);
        assert(split_commas(j.push(',')) == pj.push(Seq::empty()));
        assert(Seq::<char>::empty() + tail =~= tail);
        let r = split_commas(join_with(es, ", "@));
        assert(r =~= pj.push(tail));
        assert forall|i: int| 1 <= i < es.len() implies r[i] == seq![' '] + #[trigger] es[i] by {
            if i < es.len() - 1 {
                assert(es[i] == front[i]);
            }
        }
    }
}

/// Kept pieces of a split whose pieces trim to clean entries are those
/// entries.
proof fn lemma_kept_clean(parts: Seq<Seq<char>>, es: Seq<Seq<char>>, n: nat)
    requires
        n <= parts.len(),
        parts.len() == es.len(),
        forall|i: int| 0 <= i < es.len() ==> clean_entry(#[trigger] es[i]),
        forall|i: int| 0 <= i < parts.len() ==> trim_seq(#[trigger] parts[i]) == es[i],
    ensures
        kept_pieces(parts, n) == es.subrange(0, n as int),
    decreases n,
{
    if n == 0 {
        assert(es.subrange(0, 0) =~= Seq::<Seq<char>>::empty());
    } else {
        lemma_kept_clean(parts, es, (n - 1) as nat);
        assert(trim_seq(parts[n - 1]) == es[n - 1]);
        assert(clean_entry(es[n - 1]));
        assert(es.subrange(0, n as int) =~= es.subrange(0, n - 1).push(es[n - 1]));
    }
}

/// Writing clean entries back as text and opening that text again gives
/// the same entries.
pub proof fn lemma_entries_round_trip(e: EntryEditorView)
    requires
        forall|i: int| 0 <= i < e.entries.len() ==> clean_entry(#[trigger] e.entries[i]),
    ensures
        entries_of(entries_text(e)) == e.entries,
{
    let es = e.entries;
    if es.len() == 0 {
        assert(entries_text(e) == Seq::<char>::empty());
        assert(split_commas(Seq::<char>::empty()) == seq![Seq::<char>::empty()]);
        let parts = split_commas(entries_text(e));
        assert(trim_start_seq(Seq::<char>::empty()) == Seq::<char>::empty());
        assert(trim_end_seq(Seq::<char>::empty()) == Seq::<char>::empty());
        assert(trim_seq(parts[0]).len() == 0);
        assert(kept_pieces(parts, 0) == Seq::<Seq<char>>::empty());
        assert(kept_pieces(parts, 1) == Seq::<Seq<char>>::empty());
        assert(entries_of(entries_text(e)) =~= es);
    } else {
        lemma_split_joined(es);
        let parts = split_commas(entries_text(e));
        assert forall|i: int| 0 <= i < parts.len() implies trim_seq(#[trigger] parts[i]) == es[i] by {
            lemma_trim_clean(es[i]);
        }
        lemma_kept_clean(parts, es, parts.len());
        assert(es.subrange(0, es.len() as int) =~= es);
    }
}

/// Whether two lists of strings are equal.
pub fn same_strings(a: &[String], b: &[String]) -> (r: bool)
    ensures
        r == (string_views(a@) == string_views(b@)),
{
    if a.len() != b.len() {
        assert(string_views(a@).len() != string_views(b@).len());
        return false;
    }
    let mut i: usize = 0;
    while i < a.len()
        invariant
            i <= a.len(),
            a@.len() == b@.len(),
            forall|j: int| 0 <= j < i ==> a@[j]@ == b@[j]@,
        decreases a.len() - i,
    {
        if !crate::text::str_equal(a[i].as_str(), b[i].as_str()) {
            assert(string_views(a@)[i as int] != string_views(b@)[i as int]);
            return false;
        }
        i = i + 1;
    }
    assert(string_views(a@) =~= string_views(b@));
    true
}

impl EntryEditor {
    pub closed spec fn wf(&self) -> bool {
        selection_valid(self@)
    }

    /// Opens an array's text, with the first entry selected.
    pub fn open(text: &str) -> (r: Self)
        ensures
            r.wf(),
            r@.entries == entries_of(text@),
            r@.selected == 0,
    {
        let chars = chars_of(text);
        let parts = split_commas_exec(&chars);
        let ghost pv = parts@.map_values(|p: Vec<char>| p@);
        let mut entries: Vec<String> = Vec::new();
        let mut i: usize = 0;
        assert(string_views(entries@) =~= kept_pieces(pv, 0));
        while i < parts.len()
            invariant
                i <= parts.len(),
                pv == parts@.map_values(|p: Vec<char>| p@),
                pv == split_commas(text@),
                string_views(entries@) == kept_pieces(pv, i as nat),
            decreases parts.len() - i,
        {
            assert(pv[i as int] == parts@[i as int]@);
            let item = trim_chars(&parts[i]);
            if item.len() > 0 {
                let ghost before = entries@;
                entries.push(string_from_chars(&item));
                assert(string_views(entries@) =~= string_views(before).push(item@));
            }
            i = i + 1;
        }
        EntryEditor { entries, selected: 0 }
    }

    /// The entries, in order.
    pub fn entries(&self) -> (r: &[String])
        ensures
            string_views(r@) == self@.entries,
    {
        self.entries.as_slice()
    }

    /// The selected entry's index.
    pub fn selected(&self) -> (r: usize)
        ensures
            r == self@.selected,
    {
        self.selected
    }

    /// Ctrl+N: adds an empty entry at the end and selects it.
    pub fn add_entry(&mut self)
        requires
            old(self).wf(),
        ensures
            final(self).wf(),
            final(self)@ == entry_added(old(self)@),
    {
        let ghost before = self.entries@;
        self.entries.push(String::new());
        assert(string_views(self.entries@) =~= string_views(before).push(Seq::empty()));
        self.selected = self.entries.len() - 1;
    }

    /// Ctrl+D: removes the selected entry.
    pub fn remove_entry(&mut self)
        requires
            old(self).wf(),
        ensures
            final(self).wf(),
            final(self)@ == entry_removed(old(self)@),
    {
        if self.entries.len() == 0 {
            return;
        }
        let ghost before = self.entries@;
        self.entries.remove(self.selected);
        assert(string_views(self.entries@) =~= string_views(before).remove(self.selected as int));
        if self.selected >= self.entries.len() {
            self.selected = if self.entries.len() > 0 { self.entries.len() - 1 } else { 0 };
        }
    }

    /// Ctrl+Left / Ctrl+Right: moves the selection.
    pub fn select_entry(&mut self, delta: i32)
        requires
            old(self).wf(),
        ensures
            final(self).wf(),
            final(self)@ == entry_selected(old(self)@, delta as int),
    {
        if delta < 0 && self.selected > 0 {
            self.selected = self.selected - 1;
        } else if delta > 0 && self.selected < self.entries.len() && self.selected + 1 < self.entries.len() {
            self.selected = self.selected + 1;
        }
    }

    /// Ctrl+Up / Ctrl+Down: moves the selected entry.
    pub fn move_entry(&mut self, delta: i32)
        requires
            old(self).wf(),
        ensures
            final(self).wf(),
            final(self)@ == entry_moved(old(self)@, delta as int),
    {
        if delta == 0 || self.selected >= self.entries.len() {
            return;
        }
        let target: usize = if delta < 0 {
            if self.selected == 0 {
                return;
            }
            self.selected - 1
        } else {
            if self.selected + 1 >= self.entries.len() {
                return;
            }
            self.selected + 1
        };
        let ghost before = self.entries@;
        let a = self.entries[self.selected].clone();
        let b = self.entries[target].clone();
        self.entries.set(self.selected, b);
        self.entries.set(target, a);
        assert(string_views(self.entries@) =~= string_views(before).update(self.selected as int, before[target as int]@).update(
            target as int,
            before[self.selected as int]@,
        ));
        self.selected = target;
    }

    /// A key typed into the selected entry.
    pub fn type_key(&mut self, key: &KeyEvent)
        requires
            old(self).wf(),
        ensures
            final(self).wf(),
            final(self)@ == entry_typed(old(self)@, *key),
    {
        if self.selected >= self.entries.len() {
            return;
        }
        let ghost before = self.entries@;
        let mut cur = chars_of(self.entries[self.selected].as_str());
        let changed = match key.code {
            KeyCode::Char(c) => {
                if c != ',' && !key.modifiers.control {
                    cur.push(c);
                    true
                } else {
                    false
                }
            },
            KeyCode::Backspace => {
                if cur.len() > 0 {
                    cur.pop();
                    true
                } else {
                    false
                }
            },
            _ => false,
        };
        if changed {
            self.entries.set(self.selected, string_from_chars(&cur));
            assert(string_views(self.entries@) =~= string_views(before).update(self.selected as int, cur@));
        }
    }

    /// The entries written back as an array's text.
    pub fn to_text(&self) -> (r: String)
        ensures
            r@ == entries_text(self@),
    {
        let mut out: Vec<char> = Vec::new();
        push_joined(&mut out, &self.entries, ", ");
        assert(out@ =~= entries_text(self@));
        string_from_chars(&out)
    }
}

} // verus!

//! The value of a map field (`additionalProperties`): its entries, one of
//! them selected, edited with the collection shortcuts and, one entry at a
//! time, in a form of its own.

use vstd::prelude::*;
use crate::json::{copy_value, entries_view, lemma_entries_view, JsonValue, JsonView};
use crate::text::{chars_of, decimal, push_decimal, push_str, string_from_chars};

verus! {

/// A map field's entries and selection.
#[derive(Debug)]
pub struct MapState {
    pub entries: Vec<(String, JsonValue)>,
    pub selected: usize,
}

/// The view of a map field's state.
pub struct MapView {
    pub entries: Seq<(Seq<char>, JsonView)>,
    pub selected: int,
}

impl View for MapState {
    type V = MapView;

    open spec fn view(&self) -> MapView {
        MapView { entries: entries_view(self.entries@), selected: self.selected as int }
    }
}

/// How a map starts: with the members of an object default, the first
/// selected; empty otherwise.
pub open spec fn initial_map(default: Option<JsonView>) -> MapView {
    match default {
        Some(JsonView::Object(es)) => MapView { entries: es, selected: 0 },
        _ => MapView { entries: Seq::empty(), selected: 0 },
    }
}

/// What a map field shows: that it is empty, or its size and the selected
/// key, with the shortcuts that act on it.
pub open spec fn map_display(m: MapView) -> Seq<char> {
    if m.entries.len() == 0 {
        "Map: empty (Ctrl+N add)"@
    } else {
        "Map["@ + decimal(m.entries.len()) + "] • "@ + (if 0 <= m.selected < m.entries.len() {
            m.entries[m.selected].0
        } else {
            "<no selection>"@
        }) + " (Ctrl+Left/Right select, Ctrl+E edit)"@
    }
}

/// The value a map field contributes: its entries as an object; an empty
/// optional map contributes nothing.
pub open spec fn map_value(m: MapView, required: bool) -> Option<JsonView> {
    if m.entries.len() == 0 && !required {
        None
    } else {
        Some(JsonView::Object(m.entries))
    }
}

/// The map after it is seeded with a document value: an object's members
/// become the entries; anything else changes nothing.
pub open spec fn seeded_map(m: MapView, j: JsonView) -> MapView {
    match j {
        JsonView::Object(es) => MapView { entries: es, selected: 0 },
        _ => m,
    }
}

/// Ctrl+N: a new entry with an empty key and a `null` value, selected.
pub open spec fn map_added(m: MapView) -> MapView {
    MapView { entries: m.entries.push((Seq::empty(), JsonView::Null)), selected: m.entries.len() as int }
}

/// Ctrl+D: the selected entry removed, the selection kept in range.
pub open spec fn map_removed(m: MapView) -> MapView {
    if !(0 <= m.selected < m.entries.len()) {
        m
    } else {
        let rest = m.entries.remove(m.selected);
        MapView {
            entries: rest,
            selected: if m.selected < rest.len() {
                m.selected
            } else if rest.len() > 0 {
                rest.len() - 1
            } else {
                0
            },
        }
    }
}

/// Ctrl+Left / Ctrl+Right: the selection one entry back or forward.
pub open spec fn map_selected(m: MapView, delta: int) -> MapView {
    if delta < 0 && m.selected > 0 && m.selected <= m.entries.len() {
        MapView { selected: m.selected - 1, ..m }
    } else if delta > 0 && m.selected + 1 < m.entries.len() {
        MapView { selected: m.selected + 1, ..m }
    } else {
        m
    }
}

/// Ctrl+Up / Ctrl+Down: the selected entry swapped with its neighbour, the
/// selection following it.
pub open spec fn map_moved(m: MapView, delta: int) -> MapView {
    let target = if delta < 0 { m.selected - 1 } else { m.selected + 1 };
    if delta != 0 && 0 <= target < m.entries.len() && 0 <= m.selected < m.entries.len() {
        MapView {
            entries: m.entries.update(m.selected, m.entries[target]).update(target, m.entries[m.selected]),
            selected: target,
        }
    } else {
        m
    }
}

/// Adding an entry and removing it again leaves the entries as they were.
pub proof fn lemma_map_add_then_remove(m: MapView)
    ensures
        map_removed(map_added(m)).entries == m.entries,
{
    assert(m.entries.push((Seq::empty(), JsonView::Null)).remove(m.entries.len() as int) =~= m.entries);
}

/// Seeding a map with an object and reading it back gives the object.
pub proof fn lemma_map_seed_then_read(m: MapView, es: Seq<(Seq<char>, JsonView)>, required: bool)
    requires
        es.len() > 0 || required,
    ensures
        map_value(seeded_map(m, JsonView::Object(es)), required) == Some(JsonView::Object(es)),
{
}

fn empty_map() -> (r: MapState)
    ensures
        r@ == (MapView { entries: Seq::empty(), selected: 0 }),
{
    let r = MapState { entries: Vec::new(), selected: 0 };
    proof {
        lemma_entries_view(r.entries@);
        assert(entries_view(r.entries@) =~= Seq::<(Seq<char>, JsonView)>::empty());
    }
    r
}

impl MapState {
    /// The state a map field starts with.
    pub fn initial(default: &Option<JsonValue>) -> (r: Self)
        ensures
            r@ == initial_map(match default {
                Some(d) => Some(d@),
                None => None,
            }),
    {
        match default {
            Some(d) => match copy_value(d) {
                JsonValue::Object(entries) => MapState { entries, selected: 0 },
                _ => empty_map(),
            },
            None => empty_map(),
        }
    }

    /// What the field shows.
    pub fn display_value(&self) -> (r: String)
        ensures
            r@ == map_display(self@),
    {
        proof {
            lemma_entries_view(self.entries@);
        }
        let n = self.entries.len();
        if n == 0 {
            return "Map: empty (Ctrl+N add)".to_string();
        }
        let mut out = chars_of("Map[");
        push_decimal(&mut out, n as u64);
        push_str(&mut out, "] • ");
        if self.selected < n {
            push_str(&mut out, self.entries[self.selected].0.as_str());
        } else {
            push_str(&mut out, "<no selection>");
        }
        push_str(&mut out, " (Ctrl+Left/Right select, Ctrl+E edit)");
        string_from_chars(&out)
    }

    /// The value the field contributes.
    pub fn value(&self, required: bool) -> (r: Option<JsonValue>)
        ensures
            match (r, map_value(self@, required)) {
                (Some(v), Some(w)) => v@ == w,
                (None, None) => true,
                _ => false,
            },
    {
        proof {
            lemma_entries_view(self.entries@);
        }
        if self.entries.len() == 0 && !required {
            return None;
        }
        let mut out: Vec<(String, JsonValue)> = Vec::new();
        let mut i: usize = 0;
        proof {
            lemma_entries_view(out@);
        }
        while i < self.entries.len()
            invariant
                i <= self.entries.len(),
                entries_view(self.entries@).len() == self.entries@.len(),
                entries_view(out@) == entries_view(self.entries@).subrange(0, i as int),
            decreases self.entries.len() - i,
        {
            let k = self.entries[i].0.clone();
            let v = copy_value(&self.entries[i].1);
            let ghost before = out@;
            out.push((k, v));
            proof {
                lemma_entries_view(out@);
                lemma_entries_view(before);
                lemma_entries_view(self.entries@);
                assert(entries_view(out@) =~= entries_view(self.entries@).subrange(0, i + 1));
            }
            i = i + 1;
        }
        assert(entries_view(self.entries@).subrange(0, self.entries.len() as int) =~= entries_view(self.entries@));
        Some(JsonValue::Object(out))
    }

    /// Seeds the map with a document value.
    pub fn seed(&mut self, value: &JsonValue)
        ensures
            final(self)@ == seeded_map(old(self)@, value@),
    {
        match copy_value(value) {
            JsonValue::Object(entries) => {
                self.entries = entries;
                self.selected = 0;
            },
            _ => {},
        }
    }

    /// Ctrl+N.
    pub fn add_entry(&mut self)
        ensures
            final(self)@ == map_added(old(self)@),
    {
        let ghost before = self.entries@;
        proof {
            lemma_entries_view(before);
        }
        self.entries.push((String::new(), JsonValue::Null));
        proof {
            lemma_entries_view(self.entries@);
            assert(entries_view(self.entries@) =~= entries_view(before).push((Seq::empty(), JsonView::Null)));
        }
        self.selected = self.entries.len() - 1;
    }

    /// Ctrl+D.
    pub fn remove_entry(&mut self)
        ensures
            final(self)@ == map_removed(old(self)@),
    {
        proof {
            lemma_entries_view(self.entries@);
        }
        if self.selected >= self.entries.len() {
            return;
        }
        let ghost before = self.entries@;
        self.entries.remove(self.selected);
        proof {
            lemma_entries_view(self.entries@);
            lemma_entries_view(before);
            assert(entries_view(self.entries@) =~= entries_view(before).remove(self.selected as int));
        }
        if self.selected >= self.entries.len() {
            self.selected = if self.entries.len() > 0 { self.entries.len() - 1 } else { 0 };
        }
    }

    /// Ctrl+Left / Ctrl+Right.
    pub fn select_entry(&mut self, delta: i32)
        ensures
            final(self)@ == map_selected(old(self)@, delta as int),
    {
        proof {
            lemma_entries_view(self.entries@);
        }
        if delta < 0 && self.selected > 0 && self.selected <= self.entries.len() {
            self.selected = self.selected - 1;
        } else if delta > 0 && self.selected < self.entries.len() && self.selected + 1 < self.entries.len() {
            self.selected = self.selected + 1;
        }
    }

    /// Ctrl+Up / Ctrl+Down.
    pub fn move_entry(&mut self, delta: i32)
        ensures
            final(self)@ == map_moved(old(self)@, delta as int),
    {
        proof {
            lemma_entries_view(self.entries@);
        }
        if delta == 0 || self.selected >= self.entries.len() {
            return;
        }
        let target: usize = if delta < 0 {
            if self.selected == 0 {
                return;
            }
            self.selected - 1
        } else {
            if self.selected + 1 >= self.entries.len() {
                return;
            }
            self.selected + 1
        };
        let ghost before = self.entries@;
        let a = (self.entries[self.selected].0.clone(), copy_value(&self.entries[self.selected].1));
        let b = (self.entries[target].0.clone(), copy_value(&self.entries[target].1));
        self.entries.set(self.selected, b);
        self.entries.set(target, a);
        proof {
            lemma_entries_view(self.entries@);
            lemma_entries_view(before);
            assert(entries_view(self.entries@) =~= entries_view(before).update(
                self.selected as int,
                entries_view(before)[target as int],
            ).update(target as int, entries_view(before)[self.selected as int]));
        }
        self.selected = target;
    }

    /// Replaces entry `i`; nothing happens without one.
    pub fn set_entry(&mut self, i: usize, key: String, value: JsonValue)
        ensures
            i < old(self)@.entries.len() ==> final(self)@ == (MapView {
                entries: old(self)@.entries.update(i as int, (key@, value@)),
                ..old(self)@
            }),
            i >= old(self)@.entries.len() ==> final(self)@ == old(self)@,
    {
        proof {
            lemma_entries_view(self.entries@);
        }
        if i < self.entries.len() {
            let ghost before = self.entries@;
            let ghost kv = (key@, value@);
            self.entries.set(i, (key, value));
            proof {
                lemma_entries_view(self.entries@);
                lemma_entries_view(before);
                assert(entries_view(self.entries@) =~= entries_view(before).update(i as int, kv));
            }
        }
    }
}

} // verus!

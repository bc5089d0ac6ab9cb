//! Resolving `$ref` references before a schema is laid out: each object
//! with a `$ref` is replaced by the schema the reference points at, in the
//! same document, so that the layout sees inline schemas only.

use vstd::prelude::*;
use crate::form::{get_path, value_at};
use crate::json::{
    copy_value, entries_view, get_spec, items_view, json_view, lemma_entries_view, lemma_items_view, JsonValue,
    JsonView,
};
use crate::pointer::unescape_token;
use crate::text::{chars_of, has_prefix, opt_view, push_str, starts_with, str_equal, string_from_chars, string_views};

verus! {

/// How many references may be followed one after another before the
/// schema is taken to refer to itself without end.
pub const MAX_REF_DEPTH: u32 = 32;

/// The text `percent_encoding` decodes a reference fragment to, or `None`
/// when the decoded bytes are not UTF-8.
pub uninterp spec fn percent_decoded(text: Seq<char>) -> Option<Seq<char>>;

/// Calls `percent_encoding::percent_decode_str` and `decode_utf8`. The
/// contract only names the result: the same fragment decodes the same way.
#[verifier::external_body]
fn percent_decode(text: &str) -> (r: Option<String>)
    ensures
        opt_view(r) == percent_decoded(text@),
{
    percent_encoding::percent_decode_str(text).decode_utf8().ok().map(|s| s.into_owned())
}

/// The pieces of `s` between occurrences of `sep`, empty ones included.
pub open spec fn split_on(s: Seq<char>, sep: char) -> Seq<Seq<char>>
    decreases s.len(),
{
    if s.len() == 0 {
        seq![Seq::<char>::empty()]
    } else {
        let parts = split_on(s.drop_last(), sep);
        if s.last() == sep {
            parts.push(Seq::empty())
        } else {
            parts.update(parts.len() - 1, parts.last().push(s.last()))
        }
    }
}

proof fn lemma_split_on_len(s: Seq<char>, sep: char)
    ensures
        split_on(s, sep).len() >= 1,
    decreases s.len(),
{
    if s.len() > 0 {
        lemma_split_on_len(s.drop_last(), sep);
    }
}

/// The member names a JSON pointer (`/a/b~1c`) walks through.
pub open spec fn pointer_tokens(p: Seq<char>) -> Seq<Seq<char>> {
    split_on(p.drop_first(), '/').map_values(|t: Seq<char>| unescape_token(t))
}

/// What a JSON pointer names in `root`: `root` itself for the empty
/// pointer, otherwise the value reached through the object members the
/// pointer's tokens name.
pub open spec fn pointer_target(root: JsonView, p: Seq<char>) -> Option<JsonView> {
    if p.len() == 0 {
        Some(root)
    } else {
        get_path(root, pointer_tokens(p))
    }
}

/// The reference text of a schema object, if it has one.
pub open spec fn ref_of(v: JsonView) -> Option<Seq<char>> {
    match get_spec(v, "$ref"@) {
        Some(JsonView::Str(r)) => Some(r),
        _ => None,
    }
}

/// The pointer a reference fragment stands for: empty stays empty, and a
/// leading `/` is added when missing.
pub open spec fn fragment_pointer(d: Seq<char>) -> Seq<char> {
    if d.len() == 0 || d[0] == '/' {
        d
    } else {
        seq!['/'] + d
    }
}

/// The schema a reference points at in `root`: `#/definitions/NAME` names
/// a definition; any other `#...` is a percent-encoded JSON pointer into
/// the document; anything else is not supported.
pub open spec fn ref_target(root: JsonView, r: Seq<char>) -> Result<JsonView, Seq<char>> {
    if starts_with(r, "#/definitions/"@) {
        let key = r.subrange(14, r.len() as int);
        match get_spec(root, "definitions"@) {
            Some(defs) => match get_spec(defs, key) {
                Some(t) => Ok(t),
                None => Err("definition '"@ + key + "' not found"@),
            },
            None => Err("definition '"@ + key + "' not found"@),
        }
    } else if r.len() > 0 && r[0] == '#' {
        match percent_decoded(r.drop_first()) {
            None => Err("invalid percent-encoding in $ref"@),
            Some(d) => match pointer_target(root, fragment_pointer(d)) {
                Some(t) => Ok(t),
                None => Err("reference '"@ + r + "' not found"@),
            },
        }
    } else {
        Err("unsupported reference "@ + r)
    }
}

/// Whether members of this name hold definitions, which are resolved only
/// where they are used.
pub open spec fn is_definitions_key(k: Seq<char>) -> bool {
    k == "definitions"@ || k == "$defs"@
}

/// Whether a member is kept as it is while resolving: definitions, and a
/// `$ref` member that is not itself a reference text.
pub open spec fn kept_as_is(k: Seq<char>) -> bool {
    is_definitions_key(k) || k == "$ref"@
}

/// `v` with every reference replaced by what it points at in `root`,
/// following at most `fuel` references in a row; the first reference that
/// cannot be followed fails the whole.
pub open spec fn resolved(root: JsonView, v: JsonView, fuel: nat) -> Result<JsonView, Seq<char>>
    decreases fuel, v, 0int,
{
    match ref_of(v) {
        Some(r) => if fuel == 0 {
            Err("reference '"@ + r + "' nests too deeply"@)
        } else {
            match ref_target(root, r) {
                Err(e) => Err(e),
                Ok(t) => resolved(root, t, (fuel - 1) as nat),
            }
        },
        None => match v {
            JsonView::Object(entries) => match resolved_entries(root, entries, entries.len(), fuel) {
                Ok(es) => Ok(JsonView::Object(es)),
                Err(e) => Err(e),
            },
            JsonView::Array(items) => match resolved_items(root, items, items.len(), fuel) {
                Ok(xs) => Ok(JsonView::Array(xs)),
                Err(e) => Err(e),
            },
            _ => Ok(v),
        },
    }
}

/// The first `n` members, resolved; definitions and `$ref` members are
/// kept as they are.
pub open spec fn resolved_entries(
    root: JsonView,
    entries: Seq<(Seq<char>, JsonView)>,
    n: nat,
    fuel: nat,
) -> Result<Seq<(Seq<char>, JsonView)>, Seq<char>>
    decreases fuel, entries, n,
{
    if n == 0 || n > entries.len() {
        Ok(Seq::empty())
    } else {
        match resolved_entries(root, entries, (n - 1) as nat, fuel) {
            Err(e) => Err(e),
            Ok(es) => {
                let (k, x) = entries[n - 1];
                if kept_as_is(k) {
                    Ok(es.push((k, x)))
                } else {
                    proof {
                        vstd::seq::axiom_seq_index_decreases(entries, n - 1);
                    }
                    match resolved(root, x, fuel) {
                        Err(e) => Err(e),
                        Ok(y) => Ok(es.push((k, y))),
                    }
                }
            },
        }
    }
}

/// The first `n` items, resolved.
pub open spec fn resolved_items(root: JsonView, items: Seq<JsonView>, n: nat, fuel: nat) -> Result<Seq<JsonView>, Seq<char>>
    decreases fuel, items, n,
{
    if n == 0 || n > items.len() {
        Ok(Seq::empty())
    } else {
        match resolved_items(root, items, (n - 1) as nat, fuel) {
            Err(e) => Err(e),
            Ok(xs) => {
                proof {
                    vstd::seq::axiom_seq_index_decreases(items, n - 1);
                }
                match resolved(root, items[n - 1], fuel) {
                    Err(e) => Err(e),
                    Ok(y) => Ok(xs.push(y)),
                }
            },
        }
    }
}

/// Whether no object in `v`, at any depth, holds a reference text that
/// resolution would follow; members kept as they are (definitions and
/// non-text `$ref` members) are not looked into.
pub open spec fn ref_free(v: JsonView) -> bool
    decreases v, 1int,
{
    match v {
        JsonView::Object(entries) => ref_of(v) is None && entries_ref_free(entries, entries.len()),
        JsonView::Array(items) => items_ref_free(items, items.len()),
        _ => true,
    }
}

pub open spec fn entries_ref_free(entries: Seq<(Seq<char>, JsonView)>, n: nat) -> bool
    decreases entries, n,
{
    if n == 0 || n > entries.len() {
        true
    } else {
        proof {
            vstd::seq::axiom_seq_index_decreases(entries, n - 1);
        }
        entries_ref_free(entries, (n - 1) as nat) && (kept_as_is(entries[n - 1].0) || ref_free(entries[n - 1].1))
    }
}

pub open spec fn items_ref_free(items: Seq<JsonView>, n: nat) -> bool
    decreases items, n,
{
    if n == 0 || n > items.len() {
        true
    } else {
        proof {
            vstd::seq::axiom_seq_index_decreases(items, n - 1);
        }
        items_ref_free(items, (n - 1) as nat) && ref_free(items[n - 1])
    }
}

/// The first member of a name is found at the same place in two member
/// lists with the same names.
proof fn lemma_find_key_same_names(a: Seq<(Seq<char>, JsonView)>, b: Seq<(Seq<char>, JsonView)>, key: Seq<char>)
    requires
        a.len() == b.len(),
        forall|i: int| 0 <= i < a.len() ==> #[trigger] a[i].0 == b[i].0,
    ensures
        crate::json::find_key(a, key) == crate::json::find_key(b, key),
    decreases a.len(),
{
    if a.len() > 0 {
        assert(a[0].0 == b[0].0);
        assert forall|i: int| 0 <= i < a.drop_first().len() implies #[trigger] a.drop_first()[i].0 == b.drop_first()[i].0 by {
            assert(a.drop_first()[i] == a[i + 1]);
            assert(b.drop_first()[i] == b[i + 1]);
        }
        lemma_find_key_same_names(a.drop_first(), b.drop_first(), key);
    }
}

/// What resolving the first `n` members gives: the same names, members
/// kept as they are unchanged, and every other member resolved.
proof fn lemma_entries_shape(root: JsonView, entries: Seq<(Seq<char>, JsonView)>, n: nat, fuel: nat)
    requires
        n <= entries.len(),
        resolved_entries(root, entries, n, fuel) is Ok,
    ensures
        ({
            let es = resolved_entries(root, entries, n, fuel)->Ok_0;
            &&& es.len() == n
            &&& forall|i: int| 0 <= i < n ==> #[trigger] es[i].0 == entries[i].0
            &&& forall|i: int| 0 <= i < n && kept_as_is(entries[i].0) ==> #[trigger] es[i].1 == entries[i].1
            &&& forall|i: int| 0 <= i < n && !kept_as_is(entries[i].0) ==> resolved(root, entries[i].1, fuel) == Ok::<JsonView, Seq<char>>(#[trigger] es[i].1)
        }),
    decreases n,
{
    if n > 0 {
        lemma_entries_shape(root, entries, (n - 1) as nat, fuel);
    }
}

proof fn lemma_items_shape(root: JsonView, items: Seq<JsonView>, n: nat, fuel: nat)
    requires
        n <= items.len(),
        resolved_items(root, items, n, fuel) is Ok,
    ensures
        ({
            let xs = resolved_items(root, items, n, fuel)->Ok_0;
            &&& xs.len() == n
            &&& forall|i: int| 0 <= i < n ==> resolved(root, items[i], fuel) == Ok::<JsonView, Seq<char>>(#[trigger] xs[i])
        }),
    decreases n,
{
    if n > 0 {
        lemma_items_shape(root, items, (n - 1) as nat, fuel);
    }
}

proof fn lemma_entries_ref_free_from(es: Seq<(Seq<char>, JsonView)>, n: nat)
    requires
        n <= es.len(),
        forall|i: int| 0 <= i < n ==> kept_as_is(es[i].0) || ref_free(#[trigger] es[i].1),
    ensures
        entries_ref_free(es, n),
    decreases n,
{
    if n > 0 {
        lemma_entries_ref_free_from(es, (n - 1) as nat);
    }
}

proof fn lemma_items_ref_free_from(xs: Seq<JsonView>, n: nat)
    requires
        n <= xs.len(),
        forall|i: int| 0 <= i < n ==> ref_free(#[trigger] xs[i]),
    ensures
        items_ref_free(xs, n),
    decreases n,
{
    if n > 0 {
        lemma_items_ref_free_from(xs, (n - 1) as nat);
    }
}

/// Resolution leaves no reference behind: whatever it gives holds no
/// object with a reference text, at any depth, outside definitions.
pub proof fn lemma_resolved_ref_free(root: JsonView, v: JsonView, fuel: nat)
    ensures
        resolved(root, v, fuel) matches Ok(w) ==> ref_free(w),
    decreases fuel, v,
{
    match ref_of(v) {
        Some(r) => {
            if fuel > 0 {
                match ref_target(root, r) {
                    Ok(t) => lemma_resolved_ref_free(root, t, (fuel - 1) as nat),
                    Err(_) => {},
                }
            }
        },
        None => match v {
            JsonView::Object(entries) => {
                if resolved_entries(root, entries, entries.len(), fuel) is Ok {
                    lemma_entries_shape(root, entries, entries.len(), fuel);
                    let es = resolved_entries(root, entries, entries.len(), fuel)->Ok_0;
                    assert forall|i: int| 0 <= i < es.len() implies kept_as_is(es[i].0) || ref_free(#[trigger] es[i].1) by {
                        if !kept_as_is(entries[i].0) {
                            vstd::seq::axiom_seq_index_decreases(entries, i);
                            assert(decreases_to!(v => entries));
                            assert(decreases_to!(entries[i] => entries[i].1));
                            lemma_resolved_ref_free(root, entries[i].1, fuel);
                        }
                    }
                    lemma_entries_ref_free_from(es, es.len());
                    lemma_find_key_same_names(es, entries, "$ref"@);
                    let k = crate::json::find_key(entries, "$ref"@);
                    if k >= 0 {
                        crate::json::lemma_find_key(entries, "$ref"@);
                        assert(entries[k].0 == "$ref"@);
                        assert(kept_as_is(entries[k].0));
                        assert(es[k].1 == entries[k].1);
                    }
                    assert(ref_of(JsonView::Object(es)) is None);
                }
            },
            JsonView::Array(items) => {
                if resolved_items(root, items, items.len(), fuel) is Ok {
                    lemma_items_shape(root, items, items.len(), fuel);
                    let xs = resolved_items(root, items, items.len(), fuel)->Ok_0;
                    assert forall|i: int| 0 <= i < xs.len() implies ref_free(#[trigger] xs[i]) by {
                        vstd::seq::axiom_seq_index_decreases(items, i);
                        assert(decreases_to!(v => items));
                        lemma_resolved_ref_free(root, items[i], fuel);
                    }
                    lemma_items_ref_free_from(xs, xs.len());
                }
            },
            _ => {},
        },
    }
}

proof fn lemma_entries_ref_free_each(entries: Seq<(Seq<char>, JsonView)>, n: nat)
    requires
        n <= entries.len(),
        entries_ref_free(entries, n),
    ensures
        forall|i: int| 0 <= i < n ==> kept_as_is(#[trigger] entries[i].0) || ref_free(entries[i].1),
    decreases n,
{
    if n > 0 {
        lemma_entries_ref_free_each(entries, (n - 1) as nat);
    }
}

proof fn lemma_items_ref_free_each(items: Seq<JsonView>, n: nat)
    requires
        n <= items.len(),
        items_ref_free(items, n),
    ensures
        forall|i: int| 0 <= i < n ==> ref_free(#[trigger] items[i]),
    decreases n,
{
    if n > 0 {
        lemma_items_ref_free_each(items, (n - 1) as nat);
    }
}

proof fn lemma_entries_fixed(root: JsonView, entries: Seq<(Seq<char>, JsonView)>, n: nat, fuel: nat)
    requires
        n <= entries.len(),
        forall|i: int| 0 <= i < n ==> kept_as_is(#[trigger] entries[i].0) || resolved(root, entries[i].1, fuel) == Ok::<JsonView, Seq<char>>(entries[i].1),
    ensures
        resolved_entries(root, entries, n, fuel) == Ok::<Seq<(Seq<char>, JsonView)>, Seq<char>>(entries.subrange(0, n as int)),
    decreases n,
{
    if n == 0 {
        assert(entries.subrange(0, 0) =~= Seq::<(Seq<char>, JsonView)>::empty());
    } else {
        lemma_entries_fixed(root, entries, (n - 1) as nat, fuel);
        assert(kept_as_is(entries[n - 1].0) || resolved(root, entries[n - 1].1, fuel) == Ok::<JsonView, Seq<char>>(entries[n - 1].1));
        assert(entries.subrange(0, n as int) =~= entries.subrange(0, n - 1).push(entries[n - 1]));
    }
}

proof fn lemma_items_fixed(root: JsonView, items: Seq<JsonView>, n: nat, fuel: nat)
    requires
        n <= items.len(),
        forall|i: int| 0 <= i < n ==> resolved(root, #[trigger] items[i], fuel) == Ok::<JsonView, Seq<char>>(items[i]),
    ensures
        resolved_items(root, items, n, fuel) == Ok::<Seq<JsonView>, Seq<char>>(items.subrange(0, n as int)),
    decreases n,
{
    if n == 0 {
        assert(items.subrange(0, 0) =~= Seq::<JsonView>::empty());
    } else {
        lemma_items_fixed(root, items, (n - 1) as nat, fuel);
        assert(resolved(root, items[n - 1], fuel) == Ok::<JsonView, Seq<char>>(items[n - 1]));
        assert(items.subrange(0, n as int) =~= items.subrange(0, n - 1).push(items[n - 1]));
    }
}

/// Resolution changes nothing in a document without references: each
/// member and item stays as it is, in place.
pub proof fn lemma_ref_free_unchanged(root: JsonView, w: JsonView, fuel: nat)
    requires
        ref_free(w),
    ensures
        resolved(root, w, fuel) == Ok::<JsonView, Seq<char>>(w),
    decreases w,
{
    match w {
        JsonView::Object(entries) => {
            lemma_entries_ref_free_each(entries, entries.len());
            assert forall|i: int| 0 <= i < entries.len() implies kept_as_is(#[trigger] entries[i].0) || resolved(root, entries[i].1, fuel) == Ok::<JsonView, Seq<char>>(entries[i].1) by {
                if !kept_as_is(entries[i].0) {
                    vstd::seq::axiom_seq_index_decreases(entries, i);
                    assert(decreases_to!(w => entries));
                    assert(decreases_to!(entries[i] => entries[i].1));
                    lemma_ref_free_unchanged(root, entries[i].1, fuel);
                }
            }
            lemma_entries_fixed(root, entries, entries.len(), fuel);
            assert(entries.subrange(0, entries.len() as int) =~= entries);
        },
        JsonView::Array(items) => {
            lemma_items_ref_free_each(items, items.len());
            assert forall|i: int| 0 <= i < items.len() implies resolved(root, #[trigger] items[i], fuel) == Ok::<JsonView, Seq<char>>(items[i]) by {
                vstd::seq::axiom_seq_index_decreases(items, i);
                assert(decreases_to!(w => items));
                lemma_ref_free_unchanged(root, items[i], fuel);
            }
            lemma_items_fixed(root, items, items.len(), fuel);
            assert(items.subrange(0, items.len() as int) =~= items);
        },
        _ => {},
    }
}

/// A reference to a definition is replaced by that definition.
pub proof fn lemma_definition_reference(root: JsonView, name: Seq<char>, d: JsonView, fuel: nat)
    requires
        fuel > 0,
        get_spec(root, "definitions"@) matches Some(defs) && get_spec(defs, name) == Some(d),
        ref_free(d),
    ensures
        resolved(root, JsonView::Object(seq![("$ref"@, JsonView::Str("#/definitions/"@ + name))]), fuel)
            == Ok::<JsonView, Seq<char>>(d),
{
    let r = "#/definitions/"@ + name;
    let v = JsonView::Object(seq![("$ref"@, JsonView::Str(r))]);
    reveal_strlit("#/definitions/");
    assert(crate::json::find_key(seq![("$ref"@, JsonView::Str(r))], "$ref"@) == 0);
    assert(ref_of(v) == Some(r));
    assert(r.subrange(0, 14) =~= "#/definitions/"@);
    assert(starts_with(r, "#/definitions/"@));
    assert(r.subrange(14, r.len() as int) =~= name);
    assert(ref_target(root, r) == Ok::<JsonView, Seq<char>>(d));
    lemma_ref_free_unchanged(root, d, (fuel - 1) as nat);
}

/// Resolving twice is resolving once.
pub proof fn lemma_resolve_idempotent(root: JsonView, v: JsonView, fuel: nat)
    ensures
        resolved(root, v, fuel) matches Ok(w) ==> resolved(root, w, fuel) == Ok::<JsonView, Seq<char>>(w),
{
    lemma_resolved_ref_free(root, v, fuel);
    if resolved(root, v, fuel) is Ok {
        lemma_ref_free_unchanged(root, resolved(root, v, fuel)->Ok_0, fuel);
    }
}

proof fn lemma_entries_err(root: JsonView, entries: Seq<(Seq<char>, JsonView)>, n: nat, m: nat, fuel: nat)
    requires
        n <= m <= entries.len(),
        resolved_entries(root, entries, n, fuel) is Err,
    ensures
        resolved_entries(root, entries, m, fuel) == resolved_entries(root, entries, n, fuel),
    decreases m - n,
{
    if n < m {
        lemma_entries_err(root, entries, n, (m - 1) as nat, fuel);
    }
}

proof fn lemma_items_err(root: JsonView, items: Seq<JsonView>, n: nat, m: nat, fuel: nat)
    requires
        n <= m <= items.len(),
        resolved_items(root, items, n, fuel) is Err,
    ensures
        resolved_items(root, items, m, fuel) == resolved_items(root, items, n, fuel),
    decreases m - n,
{
    if n < m {
        lemma_items_err(root, items, n, (m - 1) as nat, fuel);
    }
}

fn split_on_exec(s: &Vec<char>, sep: char) -> (r: Vec<Vec<char>>)
    ensures
        r@.map_values(|p: Vec<char>| p@) == split_on(s@, sep),
{
    let mut parts: Vec<Vec<char>> = Vec::new();
    let mut cur: Vec<char> = Vec::new();
    let mut i: usize = 0;
    assert(s@.subrange(0, 0) =~= Seq::<char>::empty());
    assert(parts@.map_values(|p: Vec<char>| p@).push(cur@) =~= split_on(s@.subrange(0, 0), sep));
    while i < s.len()
        invariant
            i <= s.len(),
            parts@.map_values(|p: Vec<char>| p@).push(cur@) == split_on(s@.subrange(0, i as int), sep),
        decreases s.len() - i,
    {
        let ghost pre = s@.subrange(0, i as int);
        let ghost post = s@.subrange(0, i + 1);
        assert(post.drop_last() =~= pre);
        assert(post.last() == s@[i as int]);
        proof {
            lemma_split_on_len(pre, sep);
        }
        if s[i] == sep {
            let done = cur;
            parts.push(done);
            cur = Vec::new();
            assert(parts@.map_values(|p: Vec<char>| p@).push(cur@) =~= split_on(post, sep));
        } else {
            cur.push(s[i]);
            assert(parts@.map_values(|p: Vec<char>| p@).push(cur@) =~= split_on(post, sep));
        }
        i = i + 1;
    }
    parts.push(cur);
    assert(s@.subrange(0, s.len() as int) =~= s@);
    parts
}

fn unescape_exec(s: &Vec<char>) -> (r: Vec<char>)
    ensures
        r@ == unescape_token(s@),
{
    let n = s.len();
    let mut out: Vec<char> = Vec::new();
    let mut i: usize = 0;
    assert(s@.subrange(0, n as int) =~= s@);
    while i < n
        invariant
            i <= n,
            n == s@.len(),
            out@ + unescape_token(s@.subrange(i as int, n as int)) == unescape_token(s@),
        decreases n - i,
    {
        let ghost rest = s@.subrange(i as int, n as int);
        if i + 1 < n && s[i] == '~' && (s[i + 1] == '0' || s[i + 1] == '1') {
            let c = if s[i + 1] == '0' { '~' } else { '/' };
            assert(rest.subrange(2, rest.len() as int) =~= s@.subrange(i + 2, n as int));
            assert(unescape_token(rest) == seq![c] + unescape_token(s@.subrange(i + 2, n as int)));
            out.push(c);
            assert(out@ + unescape_token(s@.subrange(i + 2, n as int)) =~= out@.drop_last() + unescape_token(rest));
            i = i + 2;
        } else {
            assert(rest.drop_first() =~= s@.subrange(i + 1, n as int));
            assert(unescape_token(rest) == seq![s@[i as int]] + unescape_token(s@.subrange(i + 1, n as int)));
            out.push(s[i]);
            assert(out@ + unescape_token(s@.subrange(i + 1, n as int)) =~= out@.drop_last() + unescape_token(rest));
            i = i + 1;
        }
    }
    assert(s@.subrange(n as int, n as int) =~= Seq::<char>::empty());
    assert(out@ + Seq::<char>::empty() =~= out@);
    out
}

/// The member names a JSON pointer walks through.
fn pointer_token_list(p: &Vec<char>) -> (r: Vec<String>)
    requires
        p@.len() > 0,
    ensures
        string_views(r@) == pointer_tokens(p@),
{
    let mut rest: Vec<char> = Vec::new();
    let mut i: usize = 1;
    while i < p.len()
        invariant
            1 <= i <= p.len(),
            rest@ == p@.subrange(1, i as int),
        decreases p.len() - i,
    {
        rest.push(p[i]);
        i = i + 1;
    }
    assert(rest@ =~= p@.drop_first());
    let parts = split_on_exec(&rest, '/');
    let ghost pv = parts@.map_values(|q: Vec<char>| q@);
    let mut out: Vec<String> = Vec::new();
    let mut k: usize = 0;
    while k < parts.len()
        invariant
            k <= parts.len(),
            pv == parts@.map_values(|q: Vec<char>| q@),
            string_views(out@) == pv.subrange(0, k as int).map_values(|t: Seq<char>| unescape_token(t)),
        decreases parts.len() - k,
    {
        assert(pv[k as int] == parts@[k as int]@);
        let u = unescape_exec(&parts[k]);
        let ghost before = out@;
        let t = string_from_chars(&u);
        out.push(t);
        assert(string_views(out@) =~= string_views(before).push(t@));
        assert(pv.subrange(0, k + 1) =~= pv.subrange(0, k as int).push(pv[k as int]));
        assert(string_views(out@) =~= pv.subrange(0, k + 1).map_values(|t: Seq<char>| unescape_token(t)));
        k = k + 1;
    }
    assert(pv.subrange(0, parts.len() as int) =~= pv);
    out
}

/// The reference text of a schema object, if it has one.
fn ref_text(v: &JsonValue) -> (r: Option<&str>)
    ensures
        match r {
            Some(t) => ref_of(v@) == Some(t@),
            None => ref_of(v@) is None,
        },
{
    match v.get("$ref") {
        Some(JsonValue::Str(t)) => Some(t.as_str()),
        _ => None,
    }
}

/// The schema a reference points at.
fn follow(root: &JsonValue, r: &str) -> (out: Result<JsonValue, String>)
    ensures
        match (out, ref_target(root@, r@)) {
            (Ok(v), Ok(w)) => v@ == w,
            (Err(e), Err(w)) => e@ == w,
            _ => false,
        },
{
    let chars = chars_of(r);
    if has_prefix(r, "#/definitions/") {
        proof {
            reveal_strlit("#/definitions/");
        }
        let mut key_chars: Vec<char> = Vec::new();
        let mut i: usize = 14;
        while i < chars.len()
            invariant
                14 <= i <= chars.len(),
                chars@ == r@,
                key_chars@ == r@.subrange(14, i as int),
            decreases chars.len() - i,
        {
            key_chars.push(chars[i]);
            i = i + 1;
        }
        let key = string_from_chars(&key_chars);
        let found = match root.get("definitions") {
            Some(defs) => defs.get(key.as_str()),
            None => None,
        };
        return match found {
            Some(t) => Ok(copy_value(t)),
            None => {
                let mut m = chars_of("definition '");
                push_str(&mut m, key.as_str());
                push_str(&mut m, "' not found");
                Err(string_from_chars(&m))
            },
        };
    }
    if chars.len() > 0 && chars[0] == '#' {
        let mut frag: Vec<char> = Vec::new();
        let mut i: usize = 1;
        while i < chars.len()
            invariant
                1 <= i <= chars.len(),
                chars@ == r@,
                frag@ == r@.subrange(1, i as int),
            decreases chars.len() - i,
        {
            frag.push(chars[i]);
            i = i + 1;
        }
        assert(frag@ =~= r@.drop_first());
        let decoded = match percent_decode(string_from_chars(&frag).as_str()) {
            Some(d) => d,
            None => {
                return Err("invalid percent-encoding in $ref".to_string());
            },
        };
        let d = chars_of(decoded.as_str());
        let pointer: Vec<char> = if d.len() == 0 || d[0] == '/' {
            d
        } else {
            let mut q: Vec<char> = Vec::new();
            q.push('/');
            let mut j: usize = 0;
            while j < d.len()
                invariant
                    j <= d.len(),
                    q@ == seq!['/'] + d@.subrange(0, j as int),
                decreases d.len() - j,
            {
                q.push(d[j]);
                assert(q@ =~= seq!['/'] + d@.subrange(0, j + 1));
                j = j + 1;
            }
            assert(d@.subrange(0, d.len() as int) =~= d@);
            q
        };
        assert(pointer@ == fragment_pointer(decoded@));
        let target = if pointer.len() == 0 {
            Some(root)
        } else {
            let tokens = pointer_token_list(&pointer);
            value_at(root, &tokens)
        };
        return match target {
            Some(t) => Ok(copy_value(t)),
            None => {
                let mut m = chars_of("reference '");
                push_str(&mut m, r);
                push_str(&mut m, "' not found");
                Err(string_from_chars(&m))
            },
        };
    }
    let mut m = chars_of("unsupported reference ");
    push_str(&mut m, r);
    Err(string_from_chars(&m))
}

/// `v` with every reference replaced by what it points at in `root`.
pub fn resolve(root: &JsonValue, v: &JsonValue, fuel: u32) -> (out: Result<JsonValue, String>)
    ensures
        match (out, resolved(root@, v@, fuel as nat)) {
            (Ok(x), Ok(w)) => x@ == w,
            (Err(e), Err(w)) => e@ == w,
            _ => false,
        },
    decreases fuel, v@,
{
    match ref_text(v) {
        Some(r) => {
            if fuel == 0 {
                let mut m = chars_of("reference '");
                push_str(&mut m, r);
                push_str(&mut m, "' nests too deeply");
                return Err(string_from_chars(&m));
            }
            return match follow(root, r) {
                Err(e) => Err(e),
                Ok(t) => resolve(root, &t, fuel - 1),
            };
        },
        None => {},
    }
    match v {
        JsonValue::Object(entries) => {
            proof {
                lemma_entries_view(entries@);
            }
            let ghost ev = entries_view(entries@);
            let mut out: Vec<(String, JsonValue)> = Vec::new();
            let mut i: usize = 0;
            while i < entries.len()
                invariant
                    i <= entries.len(),
                    ev == entries_view(entries@),
                    ev.len() == entries@.len(),
                    forall|j: int| 0 <= j < entries@.len() ==> #[trigger] ev[j] == (entries@[j].0@, json_view(entries@[j].1)),
                    v@ == JsonView::Object(ev),
                    ref_of(v@) is None,
                    resolved_entries(root@, ev, i as nat, fuel as nat) == Ok::<Seq<(Seq<char>, JsonView)>, Seq<char>>(entries_view(out@)),
                decreases entries.len() - i,
            {
                let k = &entries[i].0;
                let x = &entries[i].1;
                assert(ev[i as int] == (k@, x@));
                let defs = str_equal(k.as_str(), "definitions") || str_equal(k.as_str(), "$defs") || str_equal(k.as_str(), "$ref");
                let y = if defs {
                    copy_value(x)
                } else {
                    proof {
                        vstd::seq::axiom_seq_index_decreases(ev, i as int);
                        assert(decreases_to!(v@ => ev));
                        assert(decreases_to!(ev[i as int] => ev[i as int].1));
                    }
                    match resolve(root, x, fuel) {
                        Ok(y) => y,
                        Err(e) => {
                            proof {
                                assert(!kept_as_is(k@));
                                assert(resolved_entries(root@, ev, (i + 1) as nat, fuel as nat) == Err::<Seq<(Seq<char>, JsonView)>, Seq<char>>(e@));
                                lemma_entries_err(root@, ev, (i + 1) as nat, ev.len(), fuel as nat);
                                assert(ref_of(v@) is None);
                                assert(resolved(root@, v@, fuel as nat) == Err::<JsonView, Seq<char>>(e@));
                            }
                            return Err(e);
                        },
                    }
                };
                let ghost before = out@;
                out.push((k.clone(), y));
                proof {
                    lemma_entries_view(out@);
                    lemma_entries_view(before);
                    assert(entries_view(out@) =~= entries_view(before).push((k@, y@)));
                }
                i = i + 1;
            }
            proof {
                lemma_entries_view(out@);
            }
            Ok(JsonValue::Object(out))
        },
        JsonValue::Array(items) => {
            proof {
                lemma_items_view(items@);
            }
            let ghost iv = items_view(items@);
            let mut out: Vec<JsonValue> = Vec::new();
            let mut i: usize = 0;
            while i < items.len()
                invariant
                    i <= items.len(),
                    iv == items_view(items@),
                    iv.len() == items@.len(),
                    forall|j: int| 0 <= j < items@.len() ==> #[trigger] iv[j] == json_view(items@[j]),
                    v@ == JsonView::Array(iv),
                    ref_of(v@) is None,
                    resolved_items(root@, iv, i as nat, fuel as nat) == Ok::<Seq<JsonView>, Seq<char>>(items_view(out@)),
                decreases items.len() - i,
            {
                proof {
                    vstd::seq::axiom_seq_index_decreases(iv, i as int);
                    assert(decreases_to!(v@ => iv));
                }
                let y = match resolve(root, &items[i], fuel) {
                    Ok(y) => y,
                    Err(e) => {
                        proof {
                            lemma_items_err(root@, iv, (i + 1) as nat, iv.len(), fuel as nat);
                        }
                        return Err(e);
                    },
                };
                let ghost before = out@;
                out.push(y);
                proof {
                    assert(out@.drop_last() =~= before);
                    assert(items_view(out@) == items_view(before).push(json_view(y)));
                }
                i = i + 1;
            }
            Ok(JsonValue::Array(out))
        },
        _ => Ok(copy_value(v)),
    }
}

} // verus!

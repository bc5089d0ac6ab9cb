//! JSON pointers (RFC 6901) for field paths.
//!
//! Every field records the pointer of its path so that validation errors,
//! which arrive keyed by instance pointer, can be routed back to the field
//! they concern.

use vstd::prelude::*;
use crate::text::{chars_of, push_all, string_from_chars, string_views};

verus! {

/// The escaped form of one character inside a pointer token.
pub open spec fn escape_char(c: char) -> Seq<char> {
    if c == '~' {
        seq!['~', '0']
    } else if c == '/' {
        seq!['~', '1']
    } else {
        seq![c]
    }
}

/// A pointer token: `~` becomes `~0` and `/` becomes `~1`.
pub open spec fn escape_token(s: Seq<char>) -> Seq<char>
    decreases s.len(),
{
    if s.len() == 0 {
        Seq::empty()
    } else {
        escape_char(s[0]) + escape_token(s.drop_first())
    }
}

/// Reverses [`escape_token`]: `~0` reads as `~` and `~1` as `/`.
pub open spec fn unescape_token(s: Seq<char>) -> Seq<char>
    decreases s.len(),
{
    if s.len() == 0 {
        Seq::empty()
    } else if s.len() >= 2 && s[0] == '~' && s[1] == '0' {
        seq!['~'] + unescape_token(s.subrange(2, s.len() as int))
    } else if s.len() >= 2 && s[0] == '~' && s[1] == '1' {
        seq!['/'] + unescape_token(s.subrange(2, s.len() as int))
    } else {
        seq![s[0]] + unescape_token(s.drop_first())
    }
}

/// The pointer of a path: each segment escaped and preceded by `/`; the
/// empty path has the empty pointer.
pub open spec fn pointer_of(path: Seq<Seq<char>>) -> Seq<char>
    decreases path.len(),
{
    if path.len() == 0 {
        Seq::empty()
    } else {
        seq!['/'] + escape_token(path[0]) + pointer_of(path.drop_first())
    }
}

/// Whether the sequence holds no `/`.
pub open spec fn slash_free(s: Seq<char>) -> bool {
    forall|i: int| 0 <= i < s.len() ==> s[i] != '/'
}

/// Escaping distributes over concatenation.
pub proof fn lemma_escape_append(a: Seq<char>, b: Seq<char>)
    ensures
        escape_token(a + b) == escape_token(a) + escape_token(b),
    decreases a.len(),
{
    if a.len() == 0 {
        assert(a + b =~= b);
    } else {
        lemma_escape_append(a.drop_first(), b);
        assert((a + b).drop_first() =~= a.drop_first() + b);
        assert((a + b)[0] == a[0]);
        assert(escape_char(a[0]) + (escape_token(a.drop_first()) + escape_token(b))
            =~= (escape_char(a[0]) + escape_token(a.drop_first())) + escape_token(b));
    }
}

/// Escaping a text with one more character appends that character's escape.
pub proof fn lemma_escape_push(a: Seq<char>, c: char)
    ensures
        escape_token(a.push(c)) == escape_token(a) + escape_char(c),
{
    lemma_escape_append(a, seq![c]);
    assert(a + seq![c] =~= a.push(c));
    assert(seq![c].drop_first() =~= Seq::<char>::empty());
    assert(escape_token(seq![c]) =~= escape_char(c) + escape_token(Seq::<char>::empty()));
    assert(escape_char(c) + Seq::<char>::empty() =~= escape_char(c));
}

/// A path one segment longer has the pointer extended by `/` and the
/// segment's escape.
pub proof fn lemma_pointer_push(path: Seq<Seq<char>>, seg: Seq<char>)
    ensures
        pointer_of(path.push(seg)) == pointer_of(path) + seq!['/'] + escape_token(seg),
    decreases path.len(),
{
    if path.len() == 0 {
        assert(path.push(seg).drop_first() =~= Seq::<Seq<char>>::empty());
        assert(pointer_of(path.push(seg).drop_first()) =~= Seq::<char>::empty());
        assert(path.push(seg)[0] == seg);
        assert(pointer_of(path.push(seg)) =~= seq!['/'] + escape_token(seg) + Seq::<char>::empty());
        assert(pointer_of(path) =~= Seq::<char>::empty());
        assert(seq!['/'] + escape_token(seg) + Seq::<char>::empty()
            =~= Seq::<char>::empty() + seq!['/'] + escape_token(seg));
    } else {
        lemma_pointer_push(path.drop_first(), seg);
        assert(path.push(seg).drop_first() =~= path.drop_first().push(seg));
        assert(path.push(seg)[0] == path[0]);
        let h = seq!['/'] + escape_token(path[0]);
        assert(h + (pointer_of(path.drop_first()) + seq!['/'] + escape_token(seg))
            =~= (h + pointer_of(path.drop_first())) + seq!['/'] + escape_token(seg));
    }
}

/// An escaped token holds no `/`, so it cannot be mistaken for two.
pub proof fn lemma_escape_slash_free(s: Seq<char>)
    ensures
        slash_free(escape_token(s)),
    decreases s.len(),
{
    if s.len() > 0 {
        lemma_escape_slash_free(s.drop_first());
        let a = escape_char(s[0]);
        let b = escape_token(s.drop_first());
        assert forall|i: int| 0 <= i < (a + b).len() implies (a + b)[i] != '/' by {
            if i < a.len() {
            } else {
                assert((a + b)[i] == b[i - a.len()]);
            }
        }
    }
}

/// Unescaping an escaped token gives the token back.
pub proof fn lemma_unescape_escape(s: Seq<char>)
    ensures
        unescape_token(escape_token(s)) == s,
    decreases s.len(),
{
    if s.len() > 0 {
        lemma_unescape_escape(s.drop_first());
        let e = escape_token(s);
        let rest = escape_token(s.drop_first());
        let c = s[0];
        if c == '~' {
            assert(e.subrange(2, e.len() as int) =~= rest);
        } else if c == '/' {
            assert(e.subrange(2, e.len() as int) =~= rest);
        } else {
            assert(e.drop_first() =~= rest);
            assert(e[0] == c);
        }
        assert(s =~= seq![c] + s.drop_first());
    }
}

/// Distinct tokens have distinct escapes.
pub proof fn lemma_escape_injective(a: Seq<char>, b: Seq<char>)
    requires
        escape_token(a) == escape_token(b),
    ensures
        a == b,
{
    lemma_unescape_escape(a);
    lemma_unescape_escape(b);
}

/// A pointer is empty or starts with `/`.
pub proof fn lemma_pointer_shape(path: Seq<Seq<char>>)
    ensures
        pointer_of(path).len() == 0 <==> path.len() == 0,
        path.len() > 0 ==> pointer_of(path)[0] == '/',
{
    if path.len() > 0 {
        let h = seq!['/'] + escape_token(path[0]);
        assert((h + pointer_of(path.drop_first()))[0] == '/');
    }
}

proof fn lemma_split_at_slash(a: Seq<char>, b: Seq<char>, c: Seq<char>, d: Seq<char>)
    requires
        a + b == c + d,
        slash_free(a),
        slash_free(c),
        b.len() == 0 || b[0] == '/',
        d.len() == 0 || d[0] == '/',
    ensures
        a == c,
        b == d,
{
    assert((a + b).len() == (c + d).len());
    if a.len() < c.len() {
        assert(b.len() > 0);
        assert((a + b)[a.len() as int] == b[0]);
        assert((c + d)[a.len() as int] == c[a.len() as int]);
        assert(false);
    } else if c.len() < a.len() {
        assert(d.len() > 0);
        assert((c + d)[c.len() as int] == d[0]);
        assert((a + b)[c.len() as int] == a[c.len() as int]);
        assert(false);
    } else {
        assert((a + b).len() == a.len() + b.len());
        assert((c + d).len() == c.len() + d.len());
        assert(b.len() == d.len());
        assert forall|i: int| 0 <= i < a.len() implies a[i] == c[i] by {
            assert((a + b)[i] == a[i]);
            assert((c + d)[i] == c[i]);
        }
        assert(a =~= c);
        assert forall|i: int| 0 <= i < b.len() implies b[i] == d[i] by {
            assert((a + b)[i + a.len()] == b[i]);
            assert((c + d)[i + c.len()] == d[i]);
        }
        assert(b =~= d);
    }
}

/// Distinct paths have distinct pointers, so a pointer names exactly one
/// field path.
pub proof fn lemma_pointer_injective(p1: Seq<Seq<char>>, p2: Seq<Seq<char>>)
    requires
        pointer_of(p1) == pointer_of(p2),
    ensures
        p1 == p2,
    decreases p1.len(),
{
    lemma_pointer_shape(p1);
    lemma_pointer_shape(p2);
    if p1.len() > 0 {
        let t1 = pointer_of(p1.drop_first());
        let t2 = pointer_of(p2.drop_first());
        let e1 = escape_token(p1[0]);
        let e2 = escape_token(p2[0]);
        assert(pointer_of(p1) == seq!['/'] + e1 + t1);
        assert(pointer_of(p2) == seq!['/'] + e2 + t2);
        assert((seq!['/'] + e1 + t1).drop_first() =~= e1 + t1);
        assert((seq!['/'] + e2 + t2).drop_first() =~= e2 + t2);
        lemma_escape_slash_free(p1[0]);
        lemma_escape_slash_free(p2[0]);
        lemma_pointer_shape(p1.drop_first());
        lemma_pointer_shape(p2.drop_first());
        lemma_split_at_slash(e1, t1, e2, t2);
        lemma_escape_injective(p1[0], p2[0]);
        lemma_pointer_injective(p1.drop_first(), p2.drop_first());
        assert(p1 =~= seq![p1[0]] + p1.drop_first());
        assert(p2 =~= seq![p2[0]] + p2.drop_first());
    }
}

/// Escapes one pointer token: `~` becomes `~0` and `/` becomes `~1`.
pub fn escape_pointer_token(token: &str) -> (r: String)
    ensures
        r@ == escape_token(token@),
{
    let chars = chars_of(token);
    let mut out: Vec<char> = Vec::new();
    push_escaped(&mut out, &chars);
    string_from_chars(&out)
}

fn push_escaped(out: &mut Vec<char>, chars: &Vec<char>)
    ensures
        final(out)@ == old(out)@ + escape_token(chars@),
{
    let mut i: usize = 0;
    while i < chars.len()
        invariant
            i <= chars.len(),
            out@ == old(out)@ + escape_token(chars@.subrange(0, i as int)),
        decreases chars.len() - i,
    {
        let c = chars[i];
        let ghost before = out@;
        if c == '~' {
            out.push('~');
            out.push('0');
        } else if c == '/' {
            out.push('~');
            out.push('1');
        } else {
            out.push(c);
        }
        proof {
            assert(chars@.subrange(0, i + 1) =~= chars@.subrange(0, i as int).push(c));
            lemma_escape_push(chars@.subrange(0, i as int), c);
            assert(out@ =~= before + escape_char(c));
        }
        i = i + 1;
    }
    proof {
        assert(chars@.subrange(0, chars.len() as int) =~= chars@);
    }
}

/// The JSON pointer of a field path.
pub fn to_pointer(path: &Vec<String>) -> (r: String)
    ensures
        r@ == pointer_of(string_views(path@)),
{
    let mut out: Vec<char> = Vec::new();
    let mut i: usize = 0;
    while i < path.len()
        invariant
            i <= path.len(),
            out@ == pointer_of(string_views(path@.subrange(0, i as int))),
        decreases path.len() - i,
    {
        let seg = chars_of(path[i].as_str());
        let ghost before = out@;
        out.push('/');
        push_escaped(&mut out, &seg);
        proof {
            assert(string_views(path@.subrange(0, i + 1))
                =~= string_views(path@.subrange(0, i as int)).push(path@[i as int]@));
            lemma_pointer_push(string_views(path@.subrange(0, i as int)), path@[i as int]@);
        }
        i = i + 1;
    }
    proof {
        assert(path@.subrange(0, path.len() as int) =~= path@);
    }
    string_from_chars(&out)
}

/// How a pointer is shown to a person: the root pointer reads as `/`.
pub open spec fn display_pointer(p: Seq<char>) -> Seq<char> {
    if p.len() == 0 {
        seq!['/']
    } else {
        p
    }
}

/// The pointer as shown in messages; the empty (root) pointer reads `/`.
pub fn display_json_pointer(pointer: &str) -> (r: String)
    ensures
        r@ == display_pointer(pointer@),
{
    let chars = chars_of(pointer);
    if chars.len() == 0 {
        let mut v: Vec<char> = Vec::new();
        v.push('/');
        string_from_chars(&v)
    } else {
        string_from_chars(&chars)
    }
}

/// The pointer of `child` taken relative to `base`.
pub open spec fn joined_pointer(base: Seq<char>, child: Seq<char>) -> Seq<char> {
    if base.len() == 0 {
        child
    } else if child.len() == 0 {
        base
    } else if child[0] == '/' || base[base.len() - 1] == '/' {
        base + child
    } else {
        base + seq!['/'] + child
    }
}

/// Joins a base pointer and a pointer relative to it, with exactly one `/`
/// between them unless one side already supplies it.
pub fn join_pointer(base: &str, child: &str) -> (r: String)
    ensures
        r@ == joined_pointer(base@, child@),
{
    let b = chars_of(base);
    let c = chars_of(child);
    if b.len() == 0 {
        return string_from_chars(&c);
    }
    if c.len() == 0 {
        return string_from_chars(&b);
    }
    let mut out = b.clone();
    if !(c[0] == '/' || b[b.len() - 1] == '/') {
        out.push('/');
    }
    push_all(&mut out, &c);
    string_from_chars(&out)
}

} // verus!

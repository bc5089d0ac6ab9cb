//! Human-readable labels derived from property names.

use vstd::prelude::*;
use crate::text::{
    ascii_upper, chars_equal, chars_of, lower_seq, lowercase_chars, owned, push_str, string_from_chars,
    to_ascii_upper,
};

verus! {

/// `char::is_whitespace`: the Unicode `White_Space` property.
pub open spec fn is_ws(c: char) -> bool {
    ||| ('\u{9}' <= c && c <= '\u{d}')
    ||| c == ' '
    ||| c == '\u{85}'
    ||| c == '\u{a0}'
    ||| c == '\u{1680}'
    ||| ('\u{2000}' <= c && c <= '\u{200a}')
    ||| c == '\u{2028}'
    ||| c == '\u{2029}'
    ||| c == '\u{202f}'
    ||| c == '\u{205f}'
    ||| c == '\u{3000}'
}

/// Whether the character is Unicode white space.
pub fn is_whitespace(c: char) -> (r: bool)
    ensures
        r == is_ws(c),
{
    ('\u{9}' <= c && c <= '\u{d}') || c == ' ' || c == '\u{85}' || c == '\u{a0}' || c == '\u{1680}'
        || ('\u{2000}' <= c && c <= '\u{200a}') || c == '\u{2028}' || c == '\u{2029}'
        || c == '\u{202f}' || c == '\u{205f}' || c == '\u{3000}'
}

/// The sequence without its leading white space.
pub open spec fn trim_start_seq(s: Seq<char>) -> Seq<char>
    decreases s.len(),
{
    if s.len() > 0 && is_ws(s[0]) {
        trim_start_seq(s.drop_first())
    } else {
        s
    }
}

/// The sequence without its trailing white space.
pub open spec fn trim_end_seq(s: Seq<char>) -> Seq<char>
    decreases s.len(),
{
    if s.len() > 0 && is_ws(s.last()) {
        trim_end_seq(s.drop_last())
    } else {
        s
    }
}

/// `str::trim`: leading and trailing white space removed.
pub open spec fn trim_seq(s: Seq<char>) -> Seq<char> {
    trim_end_seq(trim_start_seq(s))
}

proof fn lemma_trim_start_suffix(s: Seq<char>, i: int)
    requires
        0 <= i <= s.len(),
        forall|j: int| 0 <= j < i ==> is_ws(s[j]),
    ensures
        trim_start_seq(s) == trim_start_seq(s.subrange(i, s.len() as int)),
    decreases i,
{
    if i > 0 {
        assert(s.drop_first().subrange(i - 1, s.drop_first().len() as int) =~= s.subrange(i, s.len() as int));
        lemma_trim_start_suffix(s.drop_first(), i - 1);
    } else {
        assert(s.subrange(0, s.len() as int) =~= s);
    }
}

proof fn lemma_trim_end_prefix(s: Seq<char>, k: int)
    requires
        0 <= k <= s.len(),
        forall|j: int| k <= j < s.len() ==> is_ws(s[j]),
    ensures
        trim_end_seq(s) == trim_end_seq(s.subrange(0, k)),
    decreases s.len() - k,
{
    if k < s.len() {
        assert(s.drop_last().subrange(0, k) =~= s.subrange(0, k));
        lemma_trim_end_prefix(s.drop_last(), k);
    } else {
        assert(s.subrange(0, s.len() as int) =~= s);
    }
}

/// The characters without leading and trailing white space.
pub fn trim_chars(s: &Vec<char>) -> (r: Vec<char>)
    ensures
        r@ == trim_seq(s@),
{
    let mut start: usize = 0;
    while start < s.len() && is_whitespace(s[start])
        invariant
            start <= s.len(),
            forall|j: int| 0 <= j < start ==> is_ws(s@[j]),
        decreases s.len() - start,
    {
        start = start + 1;
    }
    proof {
        lemma_trim_start_suffix(s@, start as int);
    }
    let ghost mid = s@.subrange(start as int, s.len() as int);
    assert(trim_start_seq(mid) == mid);
    let mut end: usize = s.len();
    while end > start && is_whitespace(s[end - 1])
        invariant
            start <= end <= s.len(),
            forall|j: int| end <= j < s.len() ==> is_ws(s@[j]),
        decreases end,
    {
        end = end - 1;
    }
    proof {
        lemma_trim_end_prefix(mid, end - start);
        assert(mid.subrange(0, end - start) =~= s@.subrange(start as int, end as int));
        let t = s@.subrange(start as int, end as int);
        if t.len() > 0 {
            assert(t.last() == s@[end - 1]);
        }
    }
    let mut out: Vec<char> = Vec::new();
    let mut i: usize = start;
    while i < end
        invariant
            start <= i <= end,
            end <= s.len(),
            out@ =~= s@.subrange(start as int, i as int),
        decreases end - i,
    {
        out.push(s[i]);
        i = i + 1;
    }
    out
}

/// `str::trim`, returning an owned string.
pub fn trim_owned(s: &str) -> (r: String)
    ensures
        r@ == trim_seq(s@),
{
    let v = chars_of(s);
    let t = trim_chars(&v);
    string_from_chars(&t)
}

/// The label form of a name, scanning with `capitalize` set when the next
/// letter starts a word: `_` and `-` become spaces and start a new word, and
/// the first character of each word is raised to ASCII upper case.
pub open spec fn pretty_chars(s: Seq<char>, capitalize: bool) -> Seq<char>
    decreases s.len(),
{
    if s.len() == 0 {
        Seq::empty()
    } else if s[0] == '_' || s[0] == '-' {
        seq![' '] + pretty_chars(s.drop_first(), true)
    } else if capitalize {
        seq![ascii_upper(s[0])] + pretty_chars(s.drop_first(), false)
    } else {
        seq![s[0]] + pretty_chars(s.drop_first(), false)
    }
}

/// `snake_case` or `kebab-case` names as words: `http_port` reads
/// `Http Port`; surrounding white space is trimmed.
pub open spec fn pretty_label(raw: Seq<char>) -> Seq<char> {
    trim_seq(pretty_chars(raw, true))
}

/// Turns a property name into a title: separators become spaces, each word
/// starts with an upper-case letter, and the result is trimmed.
pub fn prettify_label(raw: &str) -> (r: String)
    ensures
        r@ == pretty_label(raw@),
{
    let s = chars_of(raw);
    let mut out: Vec<char> = Vec::new();
    let mut capitalize = true;
    let mut i: usize = 0;
    assert(s@.subrange(0, s.len() as int) =~= s@);
    assert(out@ + s@ =~= s@);
    while i < s.len()
        invariant
            i <= s.len(),
            s@ == raw@,
            pretty_chars(s@, true) == out@ + pretty_chars(s@.subrange(i as int, s.len() as int), capitalize),
        decreases s.len() - i,
    {
        let ch = s[i];
        let ghost rest = s@.subrange(i as int, s.len() as int);
        assert(rest.drop_first() =~= s@.subrange(i + 1, s.len() as int));
        assert(rest[0] == ch);
        let ghost before = out@;
        if ch == '_' || ch == '-' {
            out.push(' ');
            capitalize = true;
            assert(before + (seq![' '] + pretty_chars(rest.drop_first(), true)) =~= out@ + pretty_chars(rest.drop_first(), true));
        } else if capitalize {
            let up = to_ascii_upper(ch);
            out.push(up);
            capitalize = false;
            assert(before + (seq![up] + pretty_chars(rest.drop_first(), false)) =~= out@ + pretty_chars(rest.drop_first(), false));
        } else {
            out.push(ch);
            assert(before + (seq![ch] + pretty_chars(rest.drop_first(), false)) =~= out@ + pretty_chars(rest.drop_first(), false));
        }
        i = i + 1;
    }
    proof {
        assert(s@.subrange(s.len() as int, s.len() as int) =~= Seq::<char>::empty());
        assert(out@ + Seq::<char>::empty() =~= out@);
    }
    let t = trim_chars(&out);
    string_from_chars(&t)
}

/// `str::eq_ignore_ascii_case`, over characters.
pub open spec fn eq_ignore_case(a: Seq<char>, b: Seq<char>) -> bool {
    lower_seq(a) == lower_seq(b)
}

/// Whether the two strings are equal up to ASCII case.
pub fn eq_ignore_ascii_case(a: &str, b: &str) -> (r: bool)
    ensures
        r == eq_ignore_case(a@, b@),
{
    let x = lowercase_chars(a);
    let y = lowercase_chars(b);
    chars_equal(&x, &y)
}

/// The label shown for a field: its title, followed by its name in
/// parentheses when the two differ beyond ASCII case.
pub open spec fn label_of(title: Seq<char>, name: Seq<char>) -> Seq<char> {
    if eq_ignore_case(title, name) {
        title
    } else {
        title + seq![' ', '('] + name + seq![')']
    }
}

/// `title` alone when it matches `name` up to ASCII case, otherwise
/// `title (name)`.
pub fn display_label_of(title: &str, name: &str) -> (r: String)
    ensures
        r@ == label_of(title@, name@),
{
    if eq_ignore_ascii_case(title, name) {
        owned(title)
    } else {
        let mut out = chars_of(title);
        out.push(' ');
        out.push('(');
        push_str(&mut out, name);
        out.push(')');
        proof {
            assert(out@ =~= title@ + seq![' ', '('] + name@ + seq![')']);
        }
        string_from_chars(&out)
    }
}

} // verus!

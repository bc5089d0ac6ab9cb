//! The SVG whitelist: which elements and attributes survive sanitising, how
//! text and attributes are escaped when the document is rebuilt, and the
//! rebuilding itself, driven one parser event at a time.

use vstd::prelude::*;
use crate::json::hex_digit;
use crate::label::{trim_chars, trim_seq};
use crate::numbers::{digit_value, is_digit};
use crate::text::{chars_equal, chars_of, has_prefix, push_all, push_str, starts_with, str_equal, string_from_chars, string_views};

verus! {

/// The elements a figure may be built from.
pub open spec fn allowed_elements() -> Seq<Seq<char>> {
    seq![
        "svg"@, "g"@, "defs"@, "symbol"@, "marker"@, "title"@, "desc"@, "clipPath"@, "mask"@,
        "linearGradient"@, "radialGradient"@, "stop"@, "path"@, "rect"@, "circle"@, "ellipse"@,
        "line"@, "polyline"@, "polygon"@, "text"@, "tspan"@, "use"@,
    ]
}

/// The attributes kept on surviving elements, by local name.
pub open spec fn allowed_attributes() -> Seq<Seq<char>> {
    seq![
        "id"@, "version"@, "viewBox"@, "preserveAspectRatio"@, "xml:space"@, "role"@, "aria-label"@,
        "aria-hidden"@, "aria-describedby"@, "x"@, "y"@, "width"@, "height"@, "cx"@, "cy"@, "r"@,
        "rx"@, "ry"@, "x1"@, "x2"@, "y1"@, "y2"@, "d"@, "points"@, "transform"@, "fill"@,
        "fill-opacity"@, "fill-rule"@, "stroke"@, "stroke-width"@, "stroke-opacity"@,
        "stroke-dasharray"@, "stroke-dashoffset"@, "stroke-linecap"@, "stroke-linejoin"@,
        "stroke-miterlimit"@, "opacity"@, "color"@, "shape-rendering"@, "gradientUnits"@,
        "gradientTransform"@, "spreadMethod"@, "offset"@, "stop-color"@, "stop-opacity"@,
        "clip-path"@, "clip-rule"@, "mask"@, "marker-start"@, "marker-mid"@, "marker-end"@,
        "markerWidth"@, "markerHeight"@, "markerUnits"@, "orient"@, "refX"@, "refY"@,
        "text-anchor"@, "dominant-baseline"@, "font-family"@, "font-size"@, "font-style"@,
        "font-weight"@, "textLength"@, "dx"@, "dy"@, "letter-spacing"@, "word-spacing"@,
    ]
}

fn element_names() -> (r: Vec<&'static str>)
    ensures
        r@.map_values(|s: &'static str| s@) == allowed_elements(),
{
    let v: Vec<&'static str> = vec![
        "svg", "g", "defs", "symbol", "marker", "title", "desc", "clipPath", "mask",
        "linearGradient", "radialGradient", "stop", "path", "rect", "circle", "ellipse",
        "line", "polyline", "polygon", "text", "tspan", "use",
    ];
    assert(v@.map_values(|s: &'static str| s@) =~= allowed_elements());
    v
}

fn attribute_names() -> (r: Vec<&'static str>)
    ensures
        r@.map_values(|s: &'static str| s@) == allowed_attributes(),
{
    let v: Vec<&'static str> = vec![
        "id", "version", "viewBox", "preserveAspectRatio", "xml:space", "role", "aria-label",
        "aria-hidden", "aria-describedby", "x", "y", "width", "height", "cx", "cy", "r",
        "rx", "ry", "x1", "x2", "y1", "y2", "d", "points", "transform", "fill",
        "fill-opacity", "fill-rule", "stroke", "stroke-width", "stroke-opacity",
        "stroke-dasharray", "stroke-dashoffset", "stroke-linecap", "stroke-linejoin",
        "stroke-miterlimit", "opacity", "color", "shape-rendering", "gradientUnits",
        "gradientTransform", "spreadMethod", "offset", "stop-color", "stop-opacity",
        "clip-path", "clip-rule", "mask", "marker-start", "marker-mid", "marker-end",
        "markerWidth", "markerHeight", "markerUnits", "orient", "refX", "refY",
        "text-anchor", "dominant-baseline", "font-family", "font-size", "font-style",
        "font-weight", "textLength", "dx", "dy", "letter-spacing", "word-spacing",
    ];
    assert(v@.map_values(|s: &'static str| s@) =~= allowed_attributes());
    v
}

fn listed(names: &Vec<&'static str>, name: &str) -> (r: bool)
    ensures
        r == names@.map_values(|s: &'static str| s@).contains(name@),
{
    let ghost ns = names@.map_values(|s: &'static str| s@);
    let mut i: usize = 0;
    while i < names.len()
        invariant
            i <= names.len(),
            ns == names@.map_values(|s: &'static str| s@),
            forall|j: int| 0 <= j < i ==> ns[j] != name@,
        decreases names.len() - i,
    {
        if str_equal(names[i], name) {
            assert(ns[i as int] == name@);
            return true;
        }
        i = i + 1;
    }
    false
}

/// Whether the element survives, by local name.
pub fn element_allowed(name: &str) -> (r: bool)
    ensures
        r == allowed_elements().contains(name@),
{
    listed(&element_names(), name)
}

/// The index of the last `:` in the text, or `-1`.
pub open spec fn last_colon(s: Seq<char>) -> int
    decreases s.len(),
{
    if s.len() == 0 {
        -1
    } else if s.last() == ':' {
        s.len() - 1
    } else {
        last_colon(s.drop_last())
    }
}

proof fn lemma_last_colon(s: Seq<char>)
    ensures
        -1 <= last_colon(s) < s.len(),
        last_colon(s) >= 0 ==> s[last_colon(s)] == ':',
        forall|j: int| last_colon(s) < j < s.len() ==> s[j] != ':',
    decreases s.len(),
{
    if s.len() > 0 && s.last() != ':' {
        lemma_last_colon(s.drop_last());
        assert forall|j: int| last_colon(s) < j < s.len() implies s[j] != ':' by {
            if j < s.len() - 1 {
                assert(s[j] == s.drop_last()[j]);
            }
        }
    }
}

/// A name without its namespace prefix: the part after the last `:`.
pub open spec fn local_name_spec(s: Seq<char>) -> Seq<char> {
    s.subrange(last_colon(s) + 1, s.len() as int)
}

/// The name without any namespace prefix.
pub fn local_name(name: &str) -> (r: String)
    ensures
        r@ == local_name_spec(name@),
{
    let cs = chars_of(name);
    proof {
        lemma_last_colon(name@);
    }
    let mut i: usize = cs.len();
    while i > 0 && cs[i - 1] != ':'
        invariant
            i <= cs.len(),
            cs@ == name@,
            forall|j: int| i <= j < cs.len() ==> cs@[j] != ':',
            -1 <= last_colon(name@) < name@.len(),
            last_colon(name@) >= 0 ==> name@[last_colon(name@)] == ':',
            forall|j: int| last_colon(name@) < j < name@.len() ==> name@[j] != ':',
        decreases i,
    {
        i = i - 1;
    }
    assert(i == last_colon(name@) + 1) by {
        let l = last_colon(name@);
        if l + 1 < i {
            assert(name@[l] == ':');
        }
        if i > 0 && l + 1 > i {
            assert(cs@[i - 1] == ':');
        }
        if i == 0 && l >= 0 {
            assert(name@[l] != ':');
        }
    }
    let mut out: Vec<char> = Vec::new();
    let mut k: usize = i;
    while k < cs.len()
        invariant
            i <= k <= cs.len(),
            out@ == cs@.subrange(i as int, k as int),
        decreases cs.len() - k,
    {
        out.push(cs[k]);
        k = k + 1;
        assert(out@ =~= cs@.subrange(i as int, k as int));
    }
    string_from_chars(&out)
}

/// Whether an attribute survives: namespace declarations only for the SVG
/// and XLink namespaces, `href` only to an in-document `#` target, anything
/// else by the whitelist of local names.
pub open spec fn attribute_allowed_spec(key: Seq<char>, value: Seq<char>) -> bool {
    let local = local_name_spec(key);
    if starts_with(key, "xmlns"@) || key == "xmlns"@ {
        value == "http://www.w3.org/2000/svg"@ || value == "http://www.w3.org/1999/xlink"@
    } else if local == "href"@ || local == "xlink:href"@ {
        starts_with(value, "#"@)
    } else {
        allowed_attributes().contains(local)
    }
}

/// Whether an attribute survives.
pub fn attribute_allowed(key: &str, value: &str) -> (r: bool)
    ensures
        r == attribute_allowed_spec(key@, value@),
{
    let local = local_name(key);
    if has_prefix(key, "xmlns") || str_equal(key, "xmlns") {
        return str_equal(value, "http://www.w3.org/2000/svg") || str_equal(value, "http://www.w3.org/1999/xlink");
    }
    if str_equal(local.as_str(), "href") || str_equal(local.as_str(), "xlink:href") {
        return has_prefix(value, "#");
    }
    listed(&attribute_names(), local.as_str())
}

/// How one character is written inside an element or attribute value.
pub open spec fn escape_xml_char(c: char) -> Seq<char> {
    if c == '&' {
        "&amp;"@
    } else if c == '<' {
        "&lt;"@
    } else if c == '>' {
        "&gt;"@
    } else if c == '"' {
        "&quot;"@
    } else if c == '\'' {
        "&#39;"@
    } else {
        seq![c]
    }
}

/// The text escaped for re-emission.
pub open spec fn escape_xml(s: Seq<char>) -> Seq<char>
    decreases s.len(),
{
    if s.len() == 0 {
        Seq::empty()
    } else {
        escape_xml(s.drop_last()) + escape_xml_char(s.last())
    }
}

/// No markup-significant character survives escaping.
pub open spec fn inert(s: Seq<char>) -> bool {
    forall|i: int| 0 <= i < s.len() ==> #[trigger] s[i] != '<' && s[i] != '>' && s[i] != '"' && s[i] != '\''
}

/// Escaped text cannot open or close a tag or end an attribute value:
/// it holds no `<`, `>`, `"` or `'`.
pub proof fn lemma_escape_is_inert(s: Seq<char>)
    ensures
        inert(escape_xml(s)),
    decreases s.len(),
{
    if s.len() > 0 {
        lemma_escape_is_inert(s.drop_last());
        reveal_strlit("&amp;");
        reveal_strlit("&lt;");
        reveal_strlit("&gt;");
        reveal_strlit("&quot;");
        reveal_strlit("&#39;");
        let a = escape_xml(s.drop_last());
        let b = escape_xml_char(s.last());
        assert(inert(b));
        assert forall|i: int| 0 <= i < (a + b).len() implies #[trigger] (a + b)[i] != '<' && (a + b)[i] != '>'
            && (a + b)[i] != '"' && (a + b)[i] != '\'' by {
            if i < a.len() {
                assert((a + b)[i] == a[i]);
            } else {
                assert((a + b)[i] == b[i - a.len()]);
            }
        }
    }
}

/// Appends the text escaped for re-emission.
pub fn escape_into(out: &mut Vec<char>, text: &Vec<char>)
    ensures
        final(out)@ == old(out)@ + escape_xml(text@),
{
    let ghost start = out@;
    let mut i: usize = 0;
    while i < text.len()
        invariant
            i <= text.len(),
            out@ == start + escape_xml(text@.subrange(0, i as int)),
        decreases text.len() - i,
    {
        let c = text[i];
        let ghost before = out@;
        if c == '&' {
            push_str(out, "&amp;");
        } else if c == '<' {
            push_str(out, "&lt;");
        } else if c == '>' {
            push_str(out, "&gt;");
        } else if c == '"' {
            push_str(out, "&quot;");
        } else if c == '\'' {
            push_str(out, "&#39;");
        } else {
            out.push(c);
        }
        proof {
            assert(out@ =~= before + escape_xml_char(c));
            assert(text@.subrange(0, i + 1).drop_last() =~= text@.subrange(0, i as int));
        }
        i = i + 1;
    }
    assert(text@.subrange(0, text.len() as int) =~= text@);
}

/// The value of a digit in the given radix (10 or 16), if it is one.
pub open spec fn radix_digit(c: char, radix: nat) -> Option<nat> {
    if is_digit(c) {
        Some(digit_value(c))
    } else if radix == 16 && 'a' <= c && c <= 'f' {
        Some(((c as u32) - 87) as nat)
    } else if radix == 16 && 'A' <= c && c <= 'F' {
        Some(((c as u32) - 55) as nat)
    } else {
        None
    }
}

/// The value of digits in a radix, `None` if any is not a digit.
pub open spec fn radix_value(s: Seq<char>, radix: nat) -> Option<nat>
    decreases s.len(),
{
    if s.len() == 0 {
        Some(0)
    } else {
        match (radix_value(s.drop_last(), radix), radix_digit(s.last(), radix)) {
            (Some(v), Some(d)) => Some(v * radix + d),
            _ => None,
        }
    }
}

/// `u32::from_str_radix`: an optional `+`, then at least one digit, with
/// the value in range.
pub open spec fn parse_u32_radix(s: Seq<char>, radix: nat) -> Option<u32> {
    let body = if s.len() > 0 && s[0] == '+' { s.drop_first() } else { s };
    if body.len() == 0 {
        None
    } else {
        match radix_value(body, radix) {
            Some(v) => if v <= u32::MAX {
                Some(v as u32)
            } else {
                None
            },
            None => None,
        }
    }
}

/// The code point a numeric character reference names: `#` then decimal
/// digits, or `#x` then hexadecimal digits.
pub open spec fn numeric_reference_spec(name: Seq<char>) -> Option<u32> {
    if name.len() == 0 || name[0] != '#' {
        None
    } else {
        let digits = name.drop_first();
        if digits.len() > 0 && digits[0] == 'x' {
            parse_u32_radix(digits.drop_first(), 16)
        } else {
            parse_u32_radix(digits, 10)
        }
    }
}

proof fn lemma_radix_value_grows(s: Seq<char>, radix: nat, c: char)
    requires
        radix == 10 || radix == 16,
        radix_value(s, radix) is Some,
        radix_digit(c, radix) is Some,
    ensures
        radix_value(s.push(c), radix) == Some(radix_value(s, radix).unwrap() * radix + radix_digit(c, radix).unwrap()),
        radix_value(s.push(c), radix).unwrap() >= radix_value(s, radix).unwrap(),
{
    assert(s.push(c).drop_last() =~= s);
}

proof fn lemma_radix_prefix(s: Seq<char>, i: int, radix: nat)
    requires
        0 <= i <= s.len(),
        radix_value(s.subrange(0, i), radix) is None,
    ensures
        radix_value(s, radix) is None,
    decreases s.len() - i,
{
    if i < s.len() {
        assert(s.subrange(0, i + 1).drop_last() =~= s.subrange(0, i));
        lemma_radix_prefix(s, i + 1, radix);
    } else {
        assert(s.subrange(0, i) =~= s);
    }
}

proof fn lemma_radix_mono(s: Seq<char>, i: int, radix: nat)
    requires
        0 <= i <= s.len(),
        radix == 10 || radix == 16,
        radix_value(s, radix) is Some,
    ensures
        radix_value(s.subrange(0, i), radix) is Some,
        radix_value(s.subrange(0, i), radix).unwrap() <= radix_value(s, radix).unwrap(),
    decreases s.len() - i,
{
    if i < s.len() {
        lemma_radix_mono(s, i + 1, radix);
        let p = s.subrange(0, i + 1);
        assert(p.drop_last() =~= s.subrange(0, i));
        assert(p == s.subrange(0, i).push(p.last()));
        if radix_value(s.subrange(0, i), radix) is None || radix_digit(p.last(), radix) is None {
            assert(radix_value(p, radix) is None);
        } else {
            lemma_radix_value_grows(s.subrange(0, i), radix, p.last());
        }
    } else {
        assert(s.subrange(0, i) =~= s);
    }
}

fn parse_u32_radix_exec(s: &Vec<char>, start: usize, radix: u32) -> (r: Option<u32>)
    requires
        start <= s.len(),
        radix == 10 || radix == 16,
    ensures
        r == parse_u32_radix(s@.subrange(start as int, s.len() as int), radix as nat),
{
    let ghost whole = s@.subrange(start as int, s.len() as int);
    let mut i: usize = start;
    if i < s.len() && s[i] == '+' {
        i = i + 1;
    }
    let ghost body = s@.subrange(i as int, s.len() as int);
    assert(body == (if whole.len() > 0 && whole[0] == '+' { whole.drop_first() } else { whole })) by {
        if whole.len() > 0 && whole[0] == '+' {
            assert(whole.drop_first() =~= body);
        } else {
            assert(whole =~= body);
        }
    }
    if i == s.len() {
        return None;
    }
    let first = i;
    let mut acc: u64 = 0;
    while i < s.len()
        invariant
            first <= i <= s.len(),
            first < s.len(),
            radix == 10 || radix == 16,
            whole == s@.subrange(start as int, s.len() as int),
            body == (if whole.len() > 0 && whole[0] == '+' { whole.drop_first() } else { whole }),
            body == s@.subrange(first as int, s.len() as int),
            radix_value(s@.subrange(first as int, i as int), radix as nat) == Some(acc as nat),
            acc <= u32::MAX,
        decreases s.len() - i,
    {
        let c = s[i];
        let d: u64 = if '0' <= c && c <= '9' {
            ((c as u32) - 48) as u64
        } else if radix == 16 && 'a' <= c && c <= 'f' {
            ((c as u32) - 87) as u64
        } else if radix == 16 && 'A' <= c && c <= 'F' {
            ((c as u32) - 55) as u64
        } else {
            proof {
                assert(s@.subrange(first as int, i + 1).drop_last() =~= s@.subrange(first as int, i as int));
                assert(radix_value(s@.subrange(first as int, i + 1), radix as nat) is None);
                assert(body.subrange(0, i + 1 - first) =~= s@.subrange(first as int, i + 1));
                lemma_radix_prefix(body, i + 1 - first, radix as nat);
            }
            return None;
        };
        assert(radix_digit(c, radix as nat) == Some(d as nat));
        proof {
            assert(s@.subrange(first as int, i + 1) =~= s@.subrange(first as int, i as int).push(c));
            lemma_radix_value_grows(s@.subrange(first as int, i as int), radix as nat, c);
        }
        let next: u64 = acc * (radix as u64) + d;
        if next > 0xffff_ffff {
            proof {
                if radix_value(body, radix as nat) is Some {
                    assert(body.subrange(0, i + 1 - first) =~= s@.subrange(first as int, i + 1));
                    lemma_radix_mono(body, i + 1 - first, radix as nat);
                }
            }
            return None;
        }
        acc = next;
        i = i + 1;
    }
    assert(body =~= s@.subrange(first as int, s.len() as int));
    Some(acc as u32)
}

/// The code point of a numeric character reference (`#38`, `#x26`).
pub fn numeric_reference(name: &str) -> (r: Option<u32>)
    ensures
        r == numeric_reference_spec(name@),
{
    let cs = chars_of(name);
    if cs.len() == 0 || cs[0] != '#' {
        return None;
    }
    assert(name@.drop_first() =~= cs@.subrange(1, cs.len() as int));
    if cs.len() > 1 && cs[1] == 'x' {
        assert(name@.drop_first().drop_first() =~= cs@.subrange(2, cs.len() as int));
        parse_u32_radix_exec(&cs, 2, 16)
    } else {
        parse_u32_radix_exec(&cs, 1, 10)
    }
}

/// The surviving attributes of an element as they are written.
pub open spec fn attrs_text(attrs: Seq<(Seq<char>, Seq<char>)>) -> Seq<char>
    decreases attrs.len(),
{
    if attrs.len() == 0 {
        Seq::empty()
    } else {
        let (k, v) = attrs.last();
        attrs_text(attrs.drop_last()) + if attribute_allowed_spec(k, v) {
            seq![' '] + k + seq!['=', '"'] + escape_xml(v) + seq!['"']
        } else {
            Seq::empty()
        }
    }
}

pub open spec fn attrs_view(attrs: Seq<(String, String)>) -> Seq<(Seq<char>, Seq<char>)> {
    attrs.map_values(|a: (String, String)| (a.0@, a.1@))
}

/// Writes `<name` and the surviving attributes; the caller closes the tag.
pub fn write_start(out: &mut Vec<char>, name: &str, attrs: &Vec<(String, String)>)
    ensures
        final(out)@ == old(out)@ + seq!['<'] + name@ + attrs_text(attrs_view(attrs@)),
{
    out.push('<');
    push_str(out, name);
    let ghost start = out@;
    let mut i: usize = 0;
    while i < attrs.len()
        invariant
            i <= attrs.len(),
            out@ == start + attrs_text(attrs_view(attrs@).subrange(0, i as int)),
        decreases attrs.len() - i,
    {
        let ghost before = out@;
        let key = attrs[i].0.as_str();
        let value = attrs[i].1.as_str();
        if attribute_allowed(key, value) {
            out.push(' ');
            push_str(out, key);
            out.push('=');
            out.push('"');
            escape_into(out, &chars_of(value));
            out.push('"');
        }
        proof {
            let pre = attrs_view(attrs@).subrange(0, i as int);
            let post = attrs_view(attrs@).subrange(0, i + 1);
            assert(post.drop_last() =~= pre);
            assert(post.last() == (key@, value@));
            assert(out@ =~= start + attrs_text(post));
        }
        i = i + 1;
    }
    assert(attrs_view(attrs@).subrange(0, attrs.len() as int) =~= attrs_view(attrs@));
}

/// The text a buffered text node contributes: nothing inside a dropped
/// subtree, outside every element, or when it is only white space;
/// otherwise its trimmed text, escaped.
pub open spec fn flushed_text(text: Seq<char>, open_count: int, skipped_depth: int) -> Seq<char> {
    if skipped_depth == 0 && open_count > 0 && text.len() > 0 && trim_seq(text).len() > 0 {
        escape_xml(trim_seq(text))
    } else {
        Seq::empty()
    }
}

/// Emits the buffered text node, if there is content to show, and empties
/// the buffer.
pub fn flush_text(out: &mut Vec<char>, text: &mut Vec<char>, open_count: usize, skipped_depth: usize)
    ensures
        final(out)@ == old(out)@ + flushed_text(old(text)@, open_count as int, skipped_depth as int),
        final(text)@.len() == 0,
{
    if skipped_depth == 0 && open_count > 0 && text.len() > 0 {
        let trimmed = trim_chars(text);
        if trimmed.len() > 0 {
            escape_into(out, &trimmed);
        }
    }
    *text = Vec::new();
}


/// Every element left open is a whitelisted one.
pub open spec fn open_whitelisted(st: SanitizerView) -> bool {
    forall|i: int| 0 <= i < st.open.len() ==> allowed_elements().contains(#[trigger] st.open[i])
}

/// Only whitelisted elements are ever written: a start tag that reaches
/// the output names a whitelisted element, and the elements left open
/// (whose closing tags are replayed later) stay whitelisted.
pub proof fn lemma_step_keeps_whitelist(
    st: SanitizerView,
    name: Seq<char>,
    attrs: Seq<(Seq<char>, Seq<char>)>,
    kind: int,
)
    requires
        open_whitelisted(st),
    ensures
        sanitize_step(st, name, attrs, kind) matches Ok(s2) ==> open_whitelisted(s2),
        sanitize_step(st, name, attrs, kind) matches Ok(s2) ==> ((kind == 0 || kind == 1) && s2.out != flushed(st).out
            ==> allowed_elements().contains(local_name_spec(name))),
{
    match sanitize_step(st, name, attrs, kind) {
        Ok(s2) => {
            if kind == 0 && st.skipped == 0 && allowed_elements().contains(local_name_spec(name)) && !(st.root is None && local_name_spec(name) != "svg"@) {
                assert forall|i: int| 0 <= i < s2.open.len() implies allowed_elements().contains(#[trigger] s2.open[i]) by {
                    if i < st.open.len() {
                        assert(s2.open[i] == st.open[i]);
                    }
                }
            } else if kind != 0 && kind != 1 && st.skipped == 0 && st.open.len() > 0 {
                assert forall|i: int| 0 <= i < s2.open.len() implies allowed_elements().contains(#[trigger] s2.open[i]) by {
                    assert(s2.open[i] == st.open[i]);
                }
            }
        },
        Err(_) => {},
    }
}

/// One event of an XML reader, with the element names and attribute
/// values as the reader reports them.
#[derive(Debug)]
pub enum XmlEvent {
    Start { name: String, attrs: Vec<(String, String)> },
    Empty { name: String, attrs: Vec<(String, String)> },
    End,
    Text(String),
    Reference(String),
    CData(String),
    Eof,
    Other,
}

/// `char::from_u32`: claims, as std documents, that a character comes back
/// exactly for Unicode scalar values, and that it has that code point.
#[verifier::external_body]
fn char_from_u32(x: u32) -> (r: Option<char>)
    ensures
        match r {
            Some(c) => c == x as char && x <= 0x10FFFF && !(0xD800 <= x && x <= 0xDFFF),
            None => x > 0x10FFFF || (0xD800 <= x && x <= 0xDFFF),
        },
{
    char::from_u32(x)
}

/// The characters a reference stands for: the five XML entities, a
/// numeric reference to a scalar value, or the reference as written.
pub open spec fn resolved_reference(name: Seq<char>) -> Seq<char> {
    if name == "amp"@ {
        "&"@
    } else if name == "lt"@ {
        "<"@
    } else if name == "gt"@ {
        ">"@
    } else if name == "quot"@ {
        "\""@
    } else if name == "apos"@ {
        "'"@
    } else {
        match numeric_reference_spec(name) {
            Some(x) => if x <= 0x10FFFF && !(0xD800 <= x && x <= 0xDFFF) {
                seq![x as char]
            } else {
                "&"@ + name + ";"@
            },
            None => "&"@ + name + ";"@,
        }
    }
}

fn resolve_reference(name: &str) -> (r: Vec<char>)
    ensures
        r@ == resolved_reference(name@),
{
    if str_equal(name, "amp") {
        chars_of("&")
    } else if str_equal(name, "lt") {
        chars_of("<")
    } else if str_equal(name, "gt") {
        chars_of(">")
    } else if str_equal(name, "quot") {
        chars_of("\"")
    } else if str_equal(name, "apos") {
        chars_of("'")
    } else {
        let fallback = {
            let mut v = chars_of("&");
            push_str(&mut v, name);
            push_str(&mut v, ";");
            v
        };
        match numeric_reference(name) {
            Some(x) => match char_from_u32(x) {
                Some(c) => {
                    let mut v: Vec<char> = Vec::new();
                    v.push(c);
                    assert(v@ =~= seq![x as char]);
                    v
                },
                None => fallback,
            },
            None => fallback,
        }
    }
}

/// The rebuilding state as plain values.
pub struct SanitizerView {
    pub out: Seq<char>,
    pub open: Seq<Seq<char>>,
    pub skipped: int,
    pub root: Option<Seq<(Seq<char>, Seq<char>)>>,
    pub text: Seq<char>,
}

/// The state with the buffered text flushed.
pub open spec fn flushed(st: SanitizerView) -> SanitizerView {
    SanitizerView {
        out: st.out + flushed_text(st.text, st.open.len() as int, st.skipped),
        text: Seq::empty(),
        ..st
    }
}

/// How one reader event changes the rebuilt document: markup outside the
/// whitelist is dropped with everything inside it, the first kept element
/// must be `<svg>`, closing tags replay the open stack, and text is
/// buffered until the next markup boundary.
pub open spec fn sanitize_step(st: SanitizerView, name: Seq<char>, attrs: Seq<(Seq<char>, Seq<char>)>, kind: int) -> Result<SanitizerView, Seq<char>> {
    let s1 = flushed(st);
    let local = local_name_spec(name);
    if kind == 0 {
        if st.skipped > 0 {
            Ok(SanitizerView { skipped: st.skipped + 1, ..s1 })
        } else if !allowed_elements().contains(local) {
            Ok(SanitizerView { skipped: 1, ..s1 })
        } else if st.root is None && local != "svg"@ {
            Err("expected an <svg> document"@)
        } else {
            Ok(SanitizerView {
                out: s1.out + seq!['<'] + local + attrs_text(attrs) + seq!['>'],
                open: s1.open.push(local),
                root: if st.root is None { Some(attrs) } else { st.root },
                ..s1
            })
        }
    } else if kind == 1 {
        if st.skipped > 0 || !allowed_elements().contains(local) {
            Ok(s1)
        } else if st.root is None && local != "svg"@ {
            Err("expected an <svg> document"@)
        } else {
            Ok(SanitizerView {
                out: s1.out + seq!['<'] + local + attrs_text(attrs) + seq!['/', '>'],
                root: if st.root is None { Some(attrs) } else { st.root },
                ..s1
            })
        }
    } else {
        if st.skipped > 0 {
            Ok(SanitizerView { skipped: st.skipped - 1, ..s1 })
        } else if st.open.len() == 0 {
            Err("SVG is not well-formed: unmatched closing tag"@)
        } else {
            Ok(SanitizerView {
                out: s1.out + seq!['<', '/'] + st.open.last() + seq!['>'],
                open: st.open.drop_last(),
                ..s1
            })
        }
    }
}

/// Rebuilds an SVG document from reader events.
#[derive(Debug)]
pub struct SvgSanitizer {
    out: Vec<char>,
    open: Vec<String>,
    skipped_depth: usize,
    root: Option<Vec<(String, String)>>,
    text: Vec<char>,
}

impl View for SvgSanitizer {
    type V = SanitizerView;

    closed spec fn view(&self) -> SanitizerView {
        SanitizerView {
            out: self.out@,
            open: string_views(self.open@),
            skipped: self.skipped_depth as int,
            root: match self.root {
                Some(a) => Some(attrs_view(a@)),
                None => None,
            },
            text: self.text@,
        }
    }
}

fn copy_attrs(attrs: &Vec<(String, String)>) -> (r: Vec<(String, String)>)
    ensures
        attrs_view(r@) == attrs_view(attrs@),
{
    let mut out: Vec<(String, String)> = Vec::new();
    let mut i: usize = 0;
    while i < attrs.len()
        invariant
            i <= attrs.len(),
            attrs_view(out@) == attrs_view(attrs@).subrange(0, i as int),
        decreases attrs.len() - i,
    {
        let a = (attrs[i].0.clone(), attrs[i].1.clone());
        let ghost before = out@;
        out.push(a);
        assert(attrs_view(out@) =~= attrs_view(before).push((a.0@, a.1@)));
        assert(attrs_view(attrs@)[i as int] == (attrs@[i as int].0@, attrs@[i as int].1@));
        assert(attrs_view(attrs@).subrange(0, i + 1) =~= attrs_view(attrs@).subrange(0, i as int).push(attrs_view(attrs@)[i as int]));
        i = i + 1;
    }
    assert(attrs_view(attrs@).subrange(0, attrs.len() as int) =~= attrs_view(attrs@));
    out
}

impl SvgSanitizer {
    /// Nothing read yet.
    pub fn new() -> (r: Self)
        ensures
            r@ == (SanitizerView { out: Seq::empty(), open: Seq::empty(), skipped: 0, root: None, text: Seq::empty() }),
    {
        let r = SvgSanitizer { out: Vec::new(), open: Vec::new(), skipped_depth: 0, root: None, text: Vec::new() };
        assert(string_views(r.open@) =~= Seq::<Seq<char>>::empty());
        r
    }

    fn flush(&mut self)
        ensures
            final(self)@ == flushed(old(self)@),
    {
        let n = self.open.len();
        flush_text(&mut self.out, &mut self.text, n, self.skipped_depth);
        assert(self.text@ =~= Seq::<char>::empty());
    }

    fn element(&mut self, name: &str, attrs: &Vec<(String, String)>, kind: u8) -> (r: Result<(), String>)
        requires
            kind <= 2,
            old(self).skipped_depth < usize::MAX,
        ensures
            match (r, sanitize_step(old(self)@, name@, attrs_view(attrs@), kind as int)) {
                (Ok(_), Ok(w)) => final(self)@ == w,
                (Err(e), Err(w)) => e@ == w,
                _ => false,
            },
    {
        let ghost st = self@;
        self.flush();
        let local = local_name(name);
        if kind == 2 {
            if self.skipped_depth > 0 {
                self.skipped_depth = self.skipped_depth - 1;
                return Ok(());
            }
            let ghost open_before = self.open@;
            match self.open.pop() {
                None => {
                    return Err("SVG is not well-formed: unmatched closing tag".to_string());
                },
                Some(last) => {
                    let ghost out_before = self.out@;
                    self.out.push('<');
                    self.out.push('/');
                    push_str(&mut self.out, last.as_str());
                    self.out.push('>');
                    proof {
                        assert(self.out@ =~= out_before + seq!['<', '/'] + last@ + seq!['>']);
                        assert(string_views(self.open@) =~= string_views(open_before).drop_last());
                        assert(string_views(open_before).last() == last@);
                    }
                    return Ok(());
                },
            }
        }
        if self.skipped_depth > 0 {
            if kind == 0 {
                self.skipped_depth = self.skipped_depth + 1;
            }
            return Ok(());
        }
        if !element_allowed(local.as_str()) {
            if kind == 0 {
                self.skipped_depth = 1;
            }
            return Ok(());
        }
        if self.root.is_none() {
            if !str_equal(local.as_str(), "svg") {
                return Err("expected an <svg> document".to_string());
            }
            self.root = Some(copy_attrs(attrs));
        }
        write_start(&mut self.out, local.as_str(), attrs);
        if kind == 0 {
            self.out.push('>');
            let ghost open_before = self.open@;
            self.open.push(local);
            assert(string_views(self.open@) =~= string_views(open_before).push(local_name_spec(name@)));
        } else {
            self.out.push('/');
            self.out.push('>');
        }
        assert(self@.out =~= flushed(st).out + seq!['<'] + local_name_spec(name@) + attrs_text(attrs_view(attrs@)) + (if kind == 0 { seq!['>'] } else { seq!['/', '>'] }));
        Ok(())
    }

    /// Takes one reader event; `Ok(true)` once the end of input is reached.
    pub fn feed(&mut self, event: &XmlEvent) -> (r: Result<bool, String>)
        requires
            old(self)@.skipped < usize::MAX,
        ensures
            match event {
                XmlEvent::Start { name, attrs } => match (r, sanitize_step(old(self)@, name@, attrs_view(attrs@), 0)) {
                    (Ok(done), Ok(w)) => !done && final(self)@ == w,
                    (Err(e), Err(w)) => e@ == w,
                    _ => false,
                },
                XmlEvent::Empty { name, attrs } => match (r, sanitize_step(old(self)@, name@, attrs_view(attrs@), 1)) {
                    (Ok(done), Ok(w)) => !done && final(self)@ == w,
                    (Err(e), Err(w)) => e@ == w,
                    _ => false,
                },
                XmlEvent::End => match (r, sanitize_step(old(self)@, Seq::empty(), Seq::empty(), 2)) {
                    (Ok(done), Ok(w)) => !done && final(self)@ == w,
                    (Err(e), Err(w)) => e@ == w,
                    _ => false,
                },
                XmlEvent::Text(t) => r == Ok::<bool, String>(false) && final(self)@ == (SanitizerView {
                    text: if old(self)@.skipped == 0 { old(self)@.text + t@ } else { old(self)@.text },
                    ..old(self)@
                }),
                XmlEvent::CData(t) => r == Ok::<bool, String>(false) && final(self)@ == (SanitizerView {
                    text: if old(self)@.skipped == 0 { old(self)@.text + t@ } else { old(self)@.text },
                    ..old(self)@
                }),
                XmlEvent::Reference(n) => r == Ok::<bool, String>(false) && final(self)@ == (SanitizerView {
                    text: if old(self)@.skipped == 0 { old(self)@.text + resolved_reference(n@) } else { old(self)@.text },
                    ..old(self)@
                }),
                XmlEvent::Eof => r == Ok::<bool, String>(true) && final(self)@ == flushed(old(self)@),
                XmlEvent::Other => r == Ok::<bool, String>(false) && final(self)@ == old(self)@,
            },
    {
        match event {
            XmlEvent::Start { name, attrs } => match self.element(name.as_str(), attrs, 0) {
                Ok(()) => Ok(false),
                Err(e) => Err(e),
            },
            XmlEvent::Empty { name, attrs } => match self.element(name.as_str(), attrs, 1) {
                Ok(()) => Ok(false),
                Err(e) => Err(e),
            },
            XmlEvent::End => {
                let empty: Vec<(String, String)> = Vec::new();
                assert(attrs_view(empty@) =~= Seq::<(Seq<char>, Seq<char>)>::empty());
                proof {
                    assert("".view() =~= Seq::<char>::empty()) by {
                        reveal_strlit("");
                    }
                }
                match self.element("", &empty, 2) {
                    Ok(()) => Ok(false),
                    Err(e) => Err(e),
                }
            },
            XmlEvent::Text(t) => {
                if self.skipped_depth == 0 {
                    push_str(&mut self.text, t.as_str());
                }
                Ok(false)
            },
            XmlEvent::CData(t) => {
                if self.skipped_depth == 0 {
                    push_str(&mut self.text, t.as_str());
                }
                Ok(false)
            },
            XmlEvent::Reference(n) => {
                if self.skipped_depth == 0 {
                    let resolved = resolve_reference(n.as_str());
                    push_all(&mut self.text, &resolved);
                }
                Ok(false)
            },
            XmlEvent::Eof => {
                self.flush();
                Ok(true)
            },
            XmlEvent::Other => Ok(false),
        }
    }

    /// The rebuilt document and the root element's attributes; fails when
    /// elements are left open or no `<svg>` element was kept.
    pub fn finish(self) -> (r: Result<(String, Vec<(String, String)>), String>)
        ensures
            self@.open.len() > 0 ==> (r matches Err(e) && e@ == "SVG is not well-formed: unclosed elements"@),
            self@.open.len() == 0 && self@.root is None ==> (r matches Err(e) && e@ == "expected an <svg> document"@),
            self@.open.len() == 0 && self@.root is Some ==> (r matches Ok((body, attrs)) && body@ == self@.out
                && Some(attrs_view(attrs@)) == self@.root),
    {
        if self.open.len() > 0 {
            return Err("SVG is not well-formed: unclosed elements".to_string());
        }
        match self.root {
            None => Err("expected an <svg> document".to_string()),
            Some(attrs) => Ok((string_from_chars(&self.out), attrs)),
        }
    }
}

} // verus!

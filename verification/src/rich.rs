//! Rich content declared in schemas: content-addressed ids, and the pieces
//! of the SVG whitelist that decide what survives sanitising.

use vstd::prelude::*;
use vstd::string::StringSliceAdditionalSpecFns;
use crate::json::hex_digit;
use crate::label::{trim_chars, trim_seq};
use crate::numbers::{all_digits, digit_value, is_digit};
use crate::text::{
    chars_equal, chars_of, decimal, has_prefix, push_all, push_decimal, push_str, starts_with, str_equal, string_from_chars,
    string_views,
};

verus! {

/// Content an author declared, by kind, with its source text.
#[derive(Debug, Clone, PartialEq, Eq)]
pub enum RichContent {
    Mermaid { source: String },
    Svg { source: String },
    Markdown { source: String },
}

/// The kind name of a content.
pub open spec fn kind_name(c: RichContent) -> Seq<char> {
    match c {
        RichContent::Mermaid { .. } => "mermaid"@,
        RichContent::Svg { .. } => "svg"@,
        RichContent::Markdown { .. } => "markdown"@,
    }
}

/// The source text of a content.
pub open spec fn source_of(c: RichContent) -> String {
    match c {
        RichContent::Mermaid { source } => source,
        RichContent::Svg { source } => source,
        RichContent::Markdown { source } => source,
    }
}

impl RichContent {
    /// The kind name: `mermaid`, `svg` or `markdown`.
    pub fn kind(&self) -> (r: &'static str)
        ensures
            r@ == kind_name(*self),
    {
        match self {
            RichContent::Mermaid { .. } => "mermaid",
            RichContent::Svg { .. } => "svg",
            RichContent::Markdown { .. } => "markdown",
        }
    }

    /// The source text.
    pub fn source(&self) -> (r: &str)
        ensures
            r@ == source_of(*self)@,
    {
        match self {
            RichContent::Mermaid { source } => source.as_str(),
            RichContent::Svg { source } => source.as_str(),
            RichContent::Markdown { source } => source.as_str(),
        }
    }
}

/// The largest rich-content source accepted, in bytes.
pub const MAX_SOURCE_BYTES: usize = 262144;

/// Which palette a diagram is rendered in.
#[derive(Debug, Clone, Copy, PartialEq, Eq, Structural)]
pub enum DiagramTheme {
    Light,
    Dark,
}

/// The HTML that `pulldown_cmark` renders a Markdown source to, with
/// tables and strikethrough enabled.
pub uninterp spec fn markdown_html(source: Seq<char>) -> Seq<char>;

/// What `ammonia::clean` keeps of an HTML text.
pub uninterp spec fn cleaned_html(html: Seq<char>) -> Seq<char>;

/// Calls `pulldown_cmark::html::push_html` on a parser over `source` with
/// tables and strikethrough enabled. The contract only names the result:
/// the same source gives the same HTML.
#[verifier::external_body]
fn markdown_to_html(source: &str) -> (r: String)
    ensures
        r@ == markdown_html(source@),
{
    let mut options = pulldown_cmark::Options::empty();
    options.insert(pulldown_cmark::Options::ENABLE_TABLES);
    options.insert(pulldown_cmark::Options::ENABLE_STRIKETHROUGH);
    let mut html = String::new();
    pulldown_cmark::html::push_html(&mut html, pulldown_cmark::Parser::new_ext(source, options));
    html
}

/// Calls `ammonia::clean`, which keeps only the markup its default
/// whitelist allows. The contract only names the result: the same HTML
/// gives the same cleaned HTML.
#[verifier::external_body]
fn clean_html(html: &str) -> (r: String)
    ensures
        r@ == cleaned_html(html@),
{
    ammonia::clean(html)
}

/// Renders Markdown (with tables and strikethrough) to HTML with only safe
/// markup left.
pub fn render_markdown(source: &str) -> (r: String)
    ensures
        r@ == cleaned_html(markdown_html(source@)),
{
    let html = markdown_to_html(source);
    clean_html(html.as_str())
}

/// The message of the error `mermaid_rs_renderer::parse_mermaid_strict`
/// reports for a source, or `None` when the source parses.
pub uninterp spec fn mermaid_parse_error(source: Seq<char>) -> Option<Seq<char>>;

/// Calls `mermaid_rs_renderer::render_strict` with the light (`modern`) or
/// dark theme and default layout. `render_strict` fails only where parsing
/// fails, with the parse error, whose message is given back; so the call
/// fails exactly when the source does not parse. Left unsaid: the SVG text
/// itself, and so how the theme shows in it, since the layout walks hash
/// maps and the SVG is not a function of the arguments alone; and whether
/// some source that parses makes the renderer panic, which its source does
/// not rule out.
#[verifier::external_body]
fn mermaid_render(source: &str, theme: DiagramTheme) -> (r: Result<String, String>)
    ensures
        (r is Err) == (mermaid_parse_error(source@) is Some),
        r matches Err(m) ==> mermaid_parse_error(source@) == Some(m@),
{
    let theme = match theme {
        DiagramTheme::Light => mermaid_rs_renderer::Theme::modern(),
        DiagramTheme::Dark => mermaid_rs_renderer::Theme::dark(),
    };
    let options = mermaid_rs_renderer::RenderOptions { theme, ..Default::default() };
    mermaid_rs_renderer::render_strict(source, options).map_err(|error| error.to_string())
}

/// The refusal of a diagram source of `n` bytes.
pub open spec fn too_large_message(n: nat) -> Seq<char> {
    "diagram source is "@ + decimal(n) + " bytes; the limit is "@ + decimal(MAX_SOURCE_BYTES as nat)
}

/// Renders a Mermaid diagram in one theme to SVG text; a source over
/// `MAX_SOURCE_BYTES` bytes is refused before the renderer sees it, and a
/// source within the limit fails exactly when it does not parse, with the
/// parser's message.
pub fn render_diagram(source: &str, theme: DiagramTheme) -> (r: Result<String, String>)
    ensures
        source.spec_bytes().len() > MAX_SOURCE_BYTES ==> (r matches Err(m) && m@ == too_large_message(
            source.spec_bytes().len() as nat,
        )),
        source.spec_bytes().len() <= MAX_SOURCE_BYTES ==> ((r is Err) == (mermaid_parse_error(source@) is Some) && (
        r matches Err(m) ==> mermaid_parse_error(source@) == Some(m@))),
{
    let n = source.as_bytes().len();
    if n > MAX_SOURCE_BYTES {
        let mut text: Vec<char> = Vec::new();
        push_str(&mut text, "diagram source is ");
        push_decimal(&mut text, n as u64);
        push_str(&mut text, " bytes; the limit is ");
        push_decimal(&mut text, MAX_SOURCE_BYTES as u64);
        return Err(string_from_chars(&text));
    }
    mermaid_render(source, theme)
}

/// The FNV-1a 64-bit offset basis.
pub const FNV_OFFSET_BASIS: u64 = 0xcbf2_9ce4_8422_2325;

/// The FNV-1a 64-bit prime.
pub const FNV_PRIME: u64 = 0x0000_0100_0000_01b3;

/// One FNV-1a step: xor in the byte, then multiply by the prime, wrapping.
pub open spec fn fnv_step(h: u64, b: u8) -> u64 {
    (h ^ (b as u64)).wrapping_mul(FNV_PRIME)
}

/// FNV-1a over the bytes, from hash `h`.
pub open spec fn fnv(h: u64, bytes: Seq<u8>) -> u64
    decreases bytes.len(),
{
    if bytes.len() == 0 {
        h
    } else {
        fnv_step(fnv(h, bytes.drop_last()), bytes.last())
    }
}

/// The last `n` hexadecimal digits of `h`, zero-padded, lower case.
pub open spec fn hex_fixed(h: nat, n: nat) -> Seq<char>
    decreases n,
{
    if n == 0 {
        Seq::empty()
    } else {
        hex_fixed(h / 16, (n - 1) as nat).push(hex_digit(h % 16))
    }
}

/// The bytes a content's id is computed over: its kind name, a zero byte,
/// and its source.
pub open spec fn id_bytes(c: RichContent) -> Seq<u8> {
    vstd::utf8::encode_utf8(kind_name(c)) + seq![0u8] + vstd::utf8::encode_utf8(source_of(c)@)
}

/// A stable id for one rich content: FNV-1a 64 over its kind, a separator
/// and its source, as 16 lower-case hexadecimal digits.
#[derive(Debug, Clone, PartialEq, Eq, PartialOrd, Ord, Hash)]
pub struct RichContentId(pub String);

fn absorb(h: u64, bytes: &[u8]) -> (r: u64)
    ensures
        r == fnv(h, bytes@),
{
    let mut acc = h;
    let mut i: usize = 0;
    while i < bytes.len()
        invariant
            i <= bytes@.len(),
            acc == fnv(h, bytes@.subrange(0, i as int)),
        decreases bytes.len() - i,
    {
        let b = bytes[i];
        acc = (acc ^ (b as u64)).wrapping_mul(FNV_PRIME);
        assert(bytes@.subrange(0, i + 1).drop_last() =~= bytes@.subrange(0, i as int));
        i = i + 1;
    }
    assert(bytes@.subrange(0, bytes@.len() as int) =~= bytes@);
    acc
}

proof fn lemma_fnv_concat(h: u64, a: Seq<u8>, b: Seq<u8>)
    ensures
        fnv(fnv(h, a), b) == fnv(h, a + b),
    decreases b.len(),
{
    if b.len() == 0 {
        assert(a + b =~= a);
    } else {
        lemma_fnv_concat(h, a, b.drop_last());
        assert((a + b).drop_last() =~= a + b.drop_last());
    }
}

fn push_hex_fixed(out: &mut Vec<char>, h: u64, n: u32)
    ensures
        final(out)@ == old(out)@ + hex_fixed(h as nat, n as nat),
    decreases n,
{
    if n > 0 {
        push_hex_fixed(out, h / 16, n - 1);
        let d = (h % 16) as u32;
        let c = if d < 10 { ((48 + d) as u8) as char } else { ((87 + d) as u8) as char };
        assert(c == hex_digit((h % 16) as nat));
        out.push(c);
        assert(old(out)@ + hex_fixed(h as nat, n as nat) =~= old(out)@ + hex_fixed((h / 16) as nat, (n - 1) as nat) + seq![c]);
    } else {
        assert(old(out)@ + hex_fixed(h as nat, n as nat) =~= old(out)@);
    }
}

impl RichContentId {
    /// The id of a content.
    pub fn of(content: &RichContent) -> (r: Self)
        ensures
            r.0@ == hex_fixed(fnv(FNV_OFFSET_BASIS, id_bytes(*content)) as nat, 16),
    {
        let kind = content.kind();
        let h1 = absorb(FNV_OFFSET_BASIS, kind.as_bytes());
        let zero: Vec<u8> = vec![0u8];
        assert(zero@ =~= seq![0u8]);
        let h2 = absorb(h1, zero.as_slice());
        let h3 = absorb(h2, content.source().as_bytes());
        proof {
            let k = vstd::utf8::encode_utf8(kind_name(*content));
            let s = vstd::utf8::encode_utf8(source_of(*content)@);
            lemma_fnv_concat(FNV_OFFSET_BASIS, k, seq![0u8]);
            lemma_fnv_concat(FNV_OFFSET_BASIS, k + seq![0u8], s);
        }
        let mut out: Vec<char> = Vec::new();
        push_hex_fixed(&mut out, h3, 16);
        assert(out@ =~= hex_fixed(h3 as nat, 16));
        RichContentId(string_from_chars(&out))
    }
}

} // verus!

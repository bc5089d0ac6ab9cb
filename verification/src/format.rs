//! Document formats for reading defaults and writing results.

use vstd::prelude::*;
use crate::text::{chars_equal, chars_of, lower_seq, lowercase_chars, push_all, push_str, str_equal, string_from_chars};

verus! {

/// A supported data format.
#[derive(Debug, Clone, Copy, PartialEq, Eq, Structural)]
pub enum DocumentFormat {
    Json,
    Yaml,
    Toml,
}

impl Default for DocumentFormat {
    fn default() -> (r: Self)
        ensures
            r == DocumentFormat::Json,
    {
        DocumentFormat::Json
    }
}

/// The format named by a lower-case keyword or file extension.
pub open spec fn format_for_word(word: Seq<char>) -> Option<DocumentFormat> {
    if word == "json"@ {
        Some(DocumentFormat::Json)
    } else if word == "yaml"@ || word == "yml"@ {
        Some(DocumentFormat::Yaml)
    } else if word == "toml"@ {
        Some(DocumentFormat::Toml)
    } else {
        None
    }
}

/// The keyword a format is displayed by.
pub open spec fn keyword_of(f: DocumentFormat) -> Seq<char> {
    match f {
        DocumentFormat::Json => "json"@,
        DocumentFormat::Yaml => "yaml"@,
        DocumentFormat::Toml => "toml"@,
    }
}

/// A lower-case word is its own lowering.
proof fn lemma_lower_of_lowercase(w: Seq<char>)
    requires
        forall|i: int| 0 <= i < w.len() ==> 'a' <= #[trigger] w[i] <= 'z',
    ensures
        lower_seq(w) == w,
{
    assert(lower_seq(w) =~= w);
}

/// A format's keyword reads back as that format: what the output is
/// labelled with is accepted as input.
pub proof fn lemma_keyword_round_trip(f: DocumentFormat)
    ensures
        format_for_word(lower_seq(keyword_of(f))) == Some(f),
{
    reveal_strlit("json");
    reveal_strlit("yaml");
    reveal_strlit("yml");
    reveal_strlit("toml");
    lemma_lower_of_lowercase(keyword_of(f));
    assert("yaml"@ != "json"@) by {
        assert("yaml"@[0] != "json"@[0]);
    }
    assert("toml"@ != "json"@) by {
        assert("toml"@[0] != "json"@[0]);
    }
    assert("toml"@ != "yaml"@) by {
        assert("toml"@[0] != "yaml"@[0]);
    }
    assert("toml"@ != "yml"@) by {
        assert("toml"@.len() != "yml"@.len());
    }
}

/// `w` with any of its letters written in upper case.
pub open spec fn case_variant(v: Seq<char>, w: Seq<char>) -> bool {
    &&& v.len() == w.len()
    &&& forall|i: int| 0 <= i < w.len() ==> #[trigger] v[i] == w[i] || v[i] == crate::text::ascii_upper(w[i])
}

/// Lowering any case variant of a lower-case word gives the word.
proof fn lemma_lower_of_variant(v: Seq<char>, w: Seq<char>)
    requires
        case_variant(v, w),
        forall|i: int| 0 <= i < w.len() ==> 'a' <= #[trigger] w[i] <= 'z',
    ensures
        lower_seq(v) == w,
{
    assert forall|i: int| 0 <= i < w.len() implies #[trigger] lower_seq(v)[i] == w[i] by {
        let c = w[i];
        let u = (c as u32 - 32) as u32;
        assert(u as char as u32 == u);
        assert(crate::text::ascii_lower(crate::text::ascii_upper(c)) == c);
    }
    assert(lower_seq(v) =~= w);
}

/// A format's keyword reads back as that format in any ASCII case, upper
/// case included.
pub proof fn lemma_keyword_any_case(f: DocumentFormat, v: Seq<char>)
    requires
        case_variant(v, keyword_of(f)),
    ensures
        format_for_word(lower_seq(v)) == Some(f),
{
    reveal_strlit("json");
    reveal_strlit("yaml");
    reveal_strlit("toml");
    lemma_lower_of_variant(v, keyword_of(f));
    lemma_keyword_round_trip(f);
    lemma_lower_of_lowercase(keyword_of(f));
}

/// The message for a keyword that names no format (given in lower case).
pub open spec fn unsupported_message(lowered: Seq<char>) -> Seq<char> {
    "unsupported format '"@ + lowered + "', available: json, yaml, toml"@
}

/// What `Path::extension` gives for a path: the part of the file name after
/// its last `.`, if any.
pub uninterp spec fn extension_of(path: Seq<char>) -> Option<Seq<char>>;

/// `Path::extension` on a UTF-8 path. Claims only that the result is the
/// named extension of the path.
#[verifier::external_body]
fn path_extension(path: &str) -> (r: Option<String>)
    ensures
        match r {
            Some(e) => extension_of(path@) == Some(e@),
            None => extension_of(path@) is None,
        },
{
    match std::path::Path::new(path).extension() {
        Some(ext) => ext.to_str().map(|s| s.to_string()),
        None => None,
    }
}

fn word_format(lowered: &Vec<char>) -> (r: Option<DocumentFormat>)
    ensures
        r == format_for_word(lowered@),
{
    if chars_equal(lowered, &chars_of("json")) {
        Some(DocumentFormat::Json)
    } else if chars_equal(lowered, &chars_of("yaml")) || chars_equal(lowered, &chars_of("yml")) {
        Some(DocumentFormat::Yaml)
    } else if chars_equal(lowered, &chars_of("toml")) {
        Some(DocumentFormat::Toml)
    } else {
        None
    }
}

impl DocumentFormat {
    /// The format's keyword, as it is displayed.
    pub fn keyword(&self) -> (r: &'static str)
        ensures
            r@ == keyword_of(*self),
    {
        match self {
            DocumentFormat::Json => "json",
            DocumentFormat::Yaml => "yaml",
            DocumentFormat::Toml => "toml",
        }
    }

    /// Parses a format keyword, ignoring ASCII case; `yml` is accepted for
    /// YAML. Any other keyword is refused with a message that lists the
    /// supported ones.
    pub fn from_keyword(keyword: &str) -> (r: Result<Self, String>)
        ensures
            match format_for_word(lower_seq(keyword@)) {
                Some(f) => r == Ok::<Self, String>(f),
                None => r matches Err(e) && e@ == unsupported_message(lower_seq(keyword@)),
            },
    {
        let lowered = lowercase_chars(keyword);
        match word_format(&lowered) {
            Some(f) => Ok(f),
            None => {
                let mut out: Vec<char> = Vec::new();
                push_str(&mut out, "unsupported format '");
                push_all(&mut out, &lowered);
                push_str(&mut out, "', available: json, yaml, toml");
                Err(string_from_chars(&out))
            },
        }
    }

    /// The format a file's extension names, ignoring ASCII case.
    pub fn from_extension_text(ext: &str) -> (r: Option<Self>)
        ensures
            r == format_for_word(lower_seq(ext@)),
    {
        let lowered = lowercase_chars(ext);
        word_format(&lowered)
    }

    /// Infers a format from a path's extension; `None` when the path has no
    /// extension or the extension names no format.
    pub fn from_extension(path: &str) -> (r: Option<Self>)
        ensures
            match extension_of(path@) {
                Some(e) => r == format_for_word(lower_seq(e)),
                None => r is None,
            },
    {
        match path_extension(path) {
            Some(ext) => Self::from_extension_text(ext.as_str()),
            None => None,
        }
    }

    /// The keywords of the supported formats, in order.
    pub fn keyword_list() -> (r: Vec<&'static str>)
        ensures
            r@.len() == 3,
            r@[0]@ == "json"@,
            r@[1]@ == "yaml"@,
            r@[2]@ == "toml"@,
    {
        let mut items: Vec<&'static str> = Vec::new();
        items.push("json");
        items.push("yaml");
        items.push("toml");
        items
    }
}

/// The format a document is read in: the keyword given for it if any (an
/// unknown keyword is refused), else the format its path's extension names,
/// else JSON; standard input (`-`) has no extension to go by.
pub open spec fn resolved_format(keyword: Option<Seq<char>>, path: Option<Seq<char>>) -> Result<DocumentFormat, Seq<char>> {
    match keyword {
        Some(k) => match format_for_word(lower_seq(k)) {
            Some(f) => Ok(f),
            None => Err(unsupported_message(lower_seq(k))),
        },
        None => match path {
            Some(p) => if p != "-"@ {
                match extension_of(p) {
                    Some(e) => match format_for_word(lower_seq(e)) {
                        Some(f) => Ok(f),
                        None => Ok(DocumentFormat::Json),
                    },
                    None => Ok(DocumentFormat::Json),
                }
            } else {
                Ok(DocumentFormat::Json)
            },
            None => Ok(DocumentFormat::Json),
        },
    }
}

/// Decides the format of an input from its `--*-format` keyword and its
/// path.
pub fn resolve_format(keyword: Option<&str>, path_hint: Option<&str>) -> (r: Result<DocumentFormat, String>)
    ensures
        match (r, resolved_format(opt_str_view(keyword), opt_str_view(path_hint))) {
            (Ok(f), Ok(g)) => f == g,
            (Err(e), Err(m)) => e@ == m,
            _ => false,
        },
{
    match keyword {
        Some(value) => {
            return DocumentFormat::from_keyword(value);
        },
        None => {},
    }
    match path_hint {
        Some(path) => {
            proof {
                reveal_strlit("-");
            }
            if !str_equal(path, "-") {
                match DocumentFormat::from_extension(path) {
                    Some(format) => {
                        return Ok(format);
                    },
                    None => {},
                }
            }
        },
        None => {},
    }
    Ok(DocumentFormat::default())
}

/// An optional text by its characters.
pub open spec fn opt_str_view(s: Option<&str>) -> Option<Seq<char>> {
    match s {
        Some(x) => Some(x@),
        None => None,
    }
}

} // verus!

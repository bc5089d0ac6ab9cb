//! Where session drafts are kept.

use vstd::prelude::*;
use crate::text::starts_with;

verus! {

/// The per-user directory layouts drafts follow.
#[derive(Debug, Clone, Copy, PartialEq, Eq, Structural)]
pub enum StateDirLayout {
    /// `%LOCALAPPDATA%\schemaui`
    Windows,
    /// `$HOME/Library/Application Support/schemaui`
    MacOs,
    /// `$XDG_STATE_HOME/schemaui`, falling back to `$HOME/.local/state/schemaui`
    Xdg,
}

/// A character that keeps a path component relative on every platform:
/// an ASCII letter or digit, a space or a dot.
pub open spec fn plain_path_char(c: char) -> bool {
    ('a' <= c <= 'z') || ('A' <= c <= 'Z') || ('0' <= c <= '9') || c == ' ' || c == '.'
}

/// Whether text begins like a Windows verbatim path (`\\?`), which
/// `Path::join` rebuilds from its components rather than appending to.
pub open spec fn verbatim_like(s: Seq<char>) -> bool {
    s.len() >= 3 && s[0] == '\\' && s[1] == '\\' && s[2] == '?'
}

/// A path separator on some platform.
pub open spec fn is_sep(c: char) -> bool {
    c == '/' || c == '\\'
}

/// `r` is `part` appended to `base`, directly or after one separator.
pub open spec fn joined(base: Seq<char>, part: Seq<char>, r: Seq<char>) -> bool {
    r == base + part || exists|c: char| is_sep(c) && r == base + seq![c] + part
}

/// A component `Path::join` appends as it is: plain characters, and not
/// `.` or `..`.
pub open spec fn plain_component(part: Seq<char>) -> bool {
    &&& part.len() > 0
    &&& forall|i: int| 0 <= i < part.len() ==> plain_path_char(#[trigger] part[i])
    &&& part != "."@
    &&& part != ".."@
}

/// `Path::join` with a plain relative component, read back as text. Claims,
/// as std's `PathBuf::push` shows, that on a base that does not begin like
/// a verbatim path the component is appended directly or after one
/// separator; which separator, and what happens on a verbatim base, is
/// left unsaid.
#[verifier::external_body]
fn path_join(base: &str, part: &str) -> (r: String)
    requires
        plain_component(part@),
    ensures
        !verbatim_like(base@) ==> joined(base@, part@, r@),
{
    let joined = std::path::Path::new(base).join(part);
    joined.to_string_lossy().into_owned()
}

/// Whether the hints give a state directory for the layout.
pub open spec fn has_state_dir(layout: StateDirLayout, home: bool, xdg_state: bool, local_app_data: bool) -> bool {
    match layout {
        StateDirLayout::Windows => local_app_data,
        StateDirLayout::MacOs => home,
        StateDirLayout::Xdg => xdg_state || home,
    }
}

/// The hint a layout builds on: `%LOCALAPPDATA%` on Windows, the home
/// directory on macOS, the XDG state directory (else the home directory)
/// elsewhere.
pub open spec fn layout_hint(
    layout: StateDirLayout,
    home: Option<Seq<char>>,
    xdg_state: Option<Seq<char>>,
    local_app_data: Option<Seq<char>>,
) -> Option<Seq<char>> {
    match layout {
        StateDirLayout::Windows => local_app_data,
        StateDirLayout::MacOs => home,
        StateDirLayout::Xdg => match xdg_state {
            Some(x) => Some(x),
            None => home,
        },
    }
}

/// `r` is `base` with two components joined on in turn.
pub open spec fn joined2(base: Seq<char>, a: Seq<char>, b: Seq<char>, r: Seq<char>) -> bool {
    exists|m: Seq<char>| #[trigger] joined(base, a, m) && joined(m, b, r)
}

/// `r` is `base` with three components joined on in turn.
pub open spec fn joined3(base: Seq<char>, a: Seq<char>, b: Seq<char>, c: Seq<char>, r: Seq<char>) -> bool {
    exists|m: Seq<char>| #[trigger] joined(base, a, m) && joined2(m, b, c, r)
}

/// The state directory the layout describes: `<local>\schemaui`,
/// `<home>/Library/Application Support/schemaui`, `<xdg>/schemaui`, or
/// `<home>/.local/state/schemaui`.
pub open spec fn state_dir_shape(
    layout: StateDirLayout,
    home: Option<Seq<char>>,
    xdg_state: Option<Seq<char>>,
    local_app_data: Option<Seq<char>>,
    r: Seq<char>,
) -> bool {
    match layout {
        StateDirLayout::Windows => joined(local_app_data.unwrap(), "schemaui"@, r),
        StateDirLayout::MacOs => joined3(home.unwrap(), "Library"@, "Application Support"@, "schemaui"@, r),
        StateDirLayout::Xdg => match xdg_state {
            Some(x) => joined(x, "schemaui"@, r),
            None => joined3(home.unwrap(), ".local"@, "state"@, "schemaui"@, r),
        },
    }
}

proof fn lemma_join_prefix(r: Seq<char>, base: Seq<char>, part: Seq<char>)
    requires
        joined(base, part, r),
    ensures
        starts_with(r, base),
        r.len() >= part.len(),
        r.subrange(r.len() - part.len(), r.len() as int) == part,
{
    if r == base + part {
        assert(r.subrange(0, base.len() as int) =~= base);
        assert(r.subrange(r.len() - part.len(), r.len() as int) =~= part);
    } else {
        let c = choose|c: char| is_sep(c) && r == base + seq![c] + part;
        assert(r.subrange(0, base.len() as int) =~= base);
        assert(r.subrange(r.len() - part.len(), r.len() as int) =~= part);
    }
}

/// Joining a plain component onto a base that does not look verbatim
/// gives a path that does not look verbatim either.
proof fn lemma_join_not_verbatim(r: Seq<char>, base: Seq<char>, part: Seq<char>)
    requires
        joined(base, part, r),
        !verbatim_like(base),
        plain_component(part),
    ensures
        !verbatim_like(r),
{
    if verbatim_like(r) {
        if r == base + part {
            if base.len() > 2 {
                assert(r[0] == base[0] && r[1] == base[1] && r[2] == base[2]);
            } else {
                assert(r[2] == part[2 - base.len()]);
                assert(plain_path_char(part[2 - base.len()]));
            }
        } else {
            let c = choose|c: char| is_sep(c) && r == base + seq![c] + part;
            if base.len() > 2 {
                assert(r[0] == base[0] && r[1] == base[1] && r[2] == base[2]);
            } else if base.len() == 2 {
                assert(r[2] == c);
            } else {
                assert(r[2] == part[1 - base.len()]);
                assert(plain_path_char(part[1 - base.len()]));
            }
        }
    }
}

proof fn lemma_starts_with_trans(a: Seq<char>, b: Seq<char>, c: Seq<char>)
    requires
        starts_with(a, b),
        starts_with(b, c),
    ensures
        starts_with(a, c),
{
    assert(a.subrange(0, c.len() as int) =~= b.subrange(0, c.len() as int));
}

/// `Path::join` of two plain components in turn.
fn join_two(base: &str, a: &str, b: &str) -> (r: String)
    requires
        plain_component(a@),
        plain_component(b@),
    ensures
        !verbatim_like(base@) ==> joined2(base@, a@, b@, r@) && !verbatim_like(r@) && starts_with(r@, base@),
{
    let m = path_join(base, a);
    let r = path_join(m.as_str(), b);
    proof {
        if !verbatim_like(base@) {
            lemma_join_not_verbatim(m@, base@, a@);
            lemma_join_not_verbatim(r@, m@, b@);
            lemma_join_prefix(m@, base@, a@);
            lemma_join_prefix(r@, m@, b@);
            lemma_starts_with_trans(r@, m@, base@);
            assert(joined(base@, a@, m@));
        }
    }
    r
}

/// The state directory the directory hints give, without touching the
/// environment: `None` when the platform gives nothing to work with. Unless
/// the hint begins like a verbatim path, the directory is the hint with the
/// layout's components joined on, so it lies under the hint and ends in
/// `schemaui`.
pub fn state_dir_in(
    layout: StateDirLayout,
    home: Option<&str>,
    xdg_state: Option<&str>,
    local_app_data: Option<&str>,
) -> (r: Option<String>)
    ensures
        r is Some <==> has_state_dir(layout, home is Some, xdg_state is Some, local_app_data is Some),
        ({
            let hint = layout_hint(
                layout,
                crate::format::opt_str_view(home),
                crate::format::opt_str_view(xdg_state),
                crate::format::opt_str_view(local_app_data),
            );
            r matches Some(p) ==> (hint matches Some(h) && (!verbatim_like(h) ==> {
                &&& state_dir_shape(
                    layout,
                    crate::format::opt_str_view(home),
                    crate::format::opt_str_view(xdg_state),
                    crate::format::opt_str_view(local_app_data),
                    p@,
                )
                &&& starts_with(p@, h)
                &&& p@.len() >= 8
                &&& p@.subrange(p@.len() - 8, p@.len() as int) == "schemaui"@
            }))
        }),
{
    proof {
        reveal_strlit("schemaui");
        reveal_strlit("Library");
        reveal_strlit("Application Support");
        reveal_strlit(".local");
        reveal_strlit("state");
        reveal_strlit(".");
        reveal_strlit("..");
        assert(".local"@.len() != "."@.len() && ".local"@.len() != ".."@.len());
        assert("state"@.len() != "."@.len() && "state"@.len() != ".."@.len());
        assert("schemaui"@ != "."@ && "schemaui"@ != ".."@);
        assert("Library"@ != "."@ && "Library"@ != ".."@);
        assert("Application Support"@ != "."@ && "Application Support"@ != ".."@);
    }
    let ghost hint: Seq<char>;
    let base: String = match layout {
        StateDirLayout::Windows => match local_app_data {
            Some(l) => {
                proof { hint = l@; }
                l.to_string()
            },
            None => {
                return None;
            },
        },
        StateDirLayout::MacOs => match home {
            Some(h) => {
                proof { hint = h@; }
                join_two(h, "Library", "Application Support")
            },
            None => {
                return None;
            },
        },
        StateDirLayout::Xdg => match xdg_state {
            Some(x) => {
                proof { hint = x@; }
                x.to_string()
            },
            None => match home {
                Some(h) => {
                    proof { hint = h@; }
                    join_two(h, ".local", "state")
                },
                None => {
                    return None;
                },
            },
        },
    };
    let dir = path_join(base.as_str(), "schemaui");
    proof {
        if !verbatim_like(hint) {
            assert(!verbatim_like(base@));
            lemma_join_prefix(dir@, base@, "schemaui"@);
            assert(starts_with(base@, base@)) by {
                assert(base@.subrange(0, base@.len() as int) =~= base@);
            }
            lemma_starts_with_trans(dir@, base@, hint);
            match layout {
                StateDirLayout::MacOs => {
                    let m = choose|m: Seq<char>| #[trigger] joined(hint, "Library"@, m) && joined(m, "Application Support"@, base@);
                    assert(joined(m, "Application Support"@, base@) && joined(base@, "schemaui"@, dir@));
                    assert(joined2(m, "Application Support"@, "schemaui"@, dir@));
                },
                StateDirLayout::Xdg => {
                    if xdg_state is None {
                        let m = choose|m: Seq<char>| #[trigger] joined(hint, ".local"@, m) && joined(m, "state"@, base@);
                        assert(joined(m, "state"@, base@) && joined(base@, "schemaui"@, dir@));
                        assert(joined2(m, "state"@, "schemaui"@, dir@));
                    }
                },
                _ => {},
            }
        }
    }
    Some(dir)
}

/// One form's draft file.
#[derive(Debug, Clone, PartialEq, Eq)]
pub struct DraftStore {
    path: String,
}

impl DraftStore {
    /// A draft at an exact path.
    pub fn at(path: String) -> (r: Self)
        ensures
            r.path_view() == path@,
    {
        DraftStore { path }
    }

    /// The draft file's path.
    pub closed spec fn path_view(&self) -> Seq<char> {
        self.path@
    }

    /// The draft file's path.
    pub fn path(&self) -> (r: &str)
        ensures
            r@ == self.path_view(),
    {
        self.path.as_str()
    }
}

/// A draft attached to a running session, and whether it supplied the data
/// the session started from.
#[derive(Debug, Clone)]
pub struct SessionDraft {
    pub store: DraftStore,
    pub restored: bool,
}

} // verus!

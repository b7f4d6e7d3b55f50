//! One model the router can serve, and whether it is held loaded.

use vstd::prelude::*;

use crate::text::{chars_of, push_str, string_of};

verus! {

/// Whether a model is held loaded or loaded when something asks for it.
///
/// A resident model is never evicted, which is what lets a small model answer
/// immediately while larger ones come and go around it.
#[derive(Debug, Clone, Copy, PartialEq, Eq, Structural)]
pub enum Residency {
    /// Loaded at startup and never evicted.
    Resident,
    /// Loaded on first use, and evictable afterwards.
    OnDemand,
}

/// The spelling a catalog uses for a residency, if it is one of the two.
pub open spec fn residency_named(value: Seq<char>) -> Option<Residency> {
    if value == seq!['r', 'e', 's', 'i', 'd', 'e', 'n', 't'] {
        Some(Residency::Resident)
    } else if value == seq!['o', 'n', '-', 'd', 'e', 'm', 'a', 'n', 'd'] {
        Some(Residency::OnDemand)
    } else {
        None
    }
}

impl Residency {
    /// Reads the spelling used in a catalog: `resident` or `on-demand`, and
    /// nothing else.
    pub fn parse(value: &str) -> (parsed: Option<Residency>)
        ensures
            parsed == residency_named(value@),
    {
        let chars = chars_of(value);
        let resident = ['r', 'e', 's', 'i', 'd', 'e', 'n', 't'];
        let on_demand = ['o', 'n', '-', 'd', 'e', 'm', 'a', 'n', 'd'];
        if same_chars(&chars, &resident) {
            assert(resident@ =~= seq!['r', 'e', 's', 'i', 'd', 'e', 'n', 't']);
            Some(Residency::Resident)
        } else if same_chars(&chars, &on_demand) {
            assert(on_demand@ =~= seq!['o', 'n', '-', 'd', 'e', 'm', 'a', 'n', 'd']);
            assert(resident@ =~= seq!['r', 'e', 's', 'i', 'd', 'e', 'n', 't']);
            Some(Residency::OnDemand)
        } else {
            assert(resident@ =~= seq!['r', 'e', 's', 'i', 'd', 'e', 'n', 't']);
            assert(on_demand@ =~= seq!['o', 'n', '-', 'd', 'e', 'm', 'a', 'n', 'd']);
            None
        }
    }
}

/// Whether two character sequences are the same.
pub fn same_chars(a: &[char], b: &[char]) -> (same: bool)
    ensures
        same == (a@ == b@),
{
    if a.len() != b.len() {
        return false;
    }
    let mut i: usize = 0;
    while i < a.len()
        invariant
            a@.len() == b@.len(),
            i <= a@.len(),
            forall|k: int| 0 <= k < i ==> a@[k] == b@[k],
        decreases a@.len() - i,
    {
        if a[i] != b[i] {
            return false;
        }
        i = i + 1;
    }
    assert(a@ =~= b@);
    true
}

/// A location relative to the models root, as a catalog writes it.
#[derive(Debug, Clone, PartialEq, Eq)]
pub struct RelativePath {
    text: String,
}

/// Whether a character separates the parts of a location.
pub open spec fn is_separator(c: char) -> bool {
    c == '/' || c == '\\'
}

/// Whether the location has a part that is `..`, which would leave the root.
pub open spec fn climbs_out(t: Seq<char>) -> bool {
    exists|i: int|
        0 <= i && i + 2 <= t.len() && #[trigger] t[i] == '.' && t[i + 1] == '.' && (i == 0 || is_separator(t[i - 1]))
            && (i + 2 == t.len() || is_separator(t[i + 2]))
}

/// Whether a location is relative to the models root and stays inside it:
/// not empty, not rooted, not on a drive, and never climbing out.
pub open spec fn is_relative(t: Seq<char>) -> bool {
    &&& t.len() > 0
    &&& !is_separator(t[0])
    &&& !(t.len() >= 2 && t[1] == ':')
    &&& !climbs_out(t)
}

/// Why a location was refused.
pub open spec fn not_relative_message(t: Seq<char>) -> Seq<char> {
    "must be a location inside the models root, relative to it, but is '"@ + t + "'"@
}

impl RelativePath {
    /// A location, when it is relative to the models root and stays inside
    /// it; otherwise why not.
    pub fn new(text: &str) -> (path: Result<RelativePath, String>)
        ensures
            is_relative(text@) ==> path is Ok && path->Ok_0.spec_text() == text@,
            !is_relative(text@) ==> path is Err && path->Err_0@ == not_relative_message(text@),
    {
        let t = chars_of(text);
        let n = t.len();
        let mut ok = n > 0 && t[0] != '/' && t[0] != '\\' && !(n >= 2 && t[1] == ':');
        let mut i: usize = 0;
        while n > 0 && i < n - 1
            invariant
                t@ == text@,
                n == t@.len(),
                i <= n,
                ok ==> t@.len() > 0 && !is_separator(t@[0]) && !(t@.len() >= 2 && t@[1] == ':'),
                ok ==> forall|k: int| 0 <= k < i && k + 2 <= t@.len() ==> !(#[trigger] t@[k] == '.' && t@[k + 1] == '.'
                    && (k == 0 || is_separator(t@[k - 1])) && (k + 2 == t@.len() || is_separator(t@[k + 2]))),
                !ok ==> !is_relative(text@),
            decreases n - i,
        {
            if t[i] == '.' && t[i + 1] == '.' && (i == 0 || t[i - 1] == '/' || t[i - 1] == '\\')
                && (i + 2 == n || t[i + 2] == '/' || t[i + 2] == '\\') {
                ok = false;
            }
            i = i + 1;
        }
        if ok {
            Ok(RelativePath { text: string_of(&t) })
        } else {
            let mut message = String::new();
            push_str(&mut message, "must be a location inside the models root, relative to it, but is '");
            push_str(&mut message, text);
            push_str(&mut message, "'");
            Err(message)
        }
    }

    /// The location as the catalog wrote it.
    pub closed spec fn spec_text(&self) -> Seq<char> {
        self.text@
    }

    /// The location as the catalog wrote it.
    pub fn as_str(&self) -> (s: &str)
        ensures
            s@ == self.spec_text(),
    {
        self.text.as_str()
    }
}

/// A location as text, where there is one.
pub open spec fn path_text(p: Option<RelativePath>) -> Option<Seq<char>> {
    match p {
        Some(p) => Some(p.spec_text()),
        None => None,
    }
}

/// A setting as text, where there is one.
pub open spec fn setting_text(s: Option<String>) -> Option<Seq<char>> {
    match s {
        Some(s) => Some(s@),
        None => None,
    }
}

/// One model the router can serve.
#[derive(Debug, Clone, PartialEq, Eq)]
pub struct Entry {
    /// Names the model, never the role it happens to serve.
    pub id: String,
    /// The model weights.
    pub path: RelativePath,
    /// The smaller model used for speculative decoding, when there is one.
    pub draft_path: Option<RelativePath>,
    /// The multimodal projector, when the model takes more than text.
    pub projector_path: Option<RelativePath>,
    /// Tokens of context the server is started with.
    pub context_size: u32,
    /// Whether this model is held loaded.
    pub residency: Residency,
    /// What loading this model is expected to cost, in mebibytes.
    pub memory_estimate_mib: u32,
    /// How reasoning output is delimited, when the model produces any.
    pub reasoning_format: Option<String>,
    /// How much reasoning effort to ask for, when the model accepts a level.
    pub reasoning_effort: Option<String>,
    /// How long this model may take to become ready before the router gives
    /// up on it and says so.
    pub startup_timeout_seconds: u32,
    /// Which build of the server this entry needs, when it needs a
    /// particular one: a name, never a path.
    pub runtime: Option<String>,
    /// Server settings this router passes through without interpreting, by
    /// name, in order of name and each name once.
    pub flags: Vec<(String, String)>,
}

/// An entry as plain values, its flags by name.
pub struct EntryView {
    pub id: Seq<char>,
    pub path: Seq<char>,
    pub draft_path: Option<Seq<char>>,
    pub projector_path: Option<Seq<char>>,
    pub context_size: u32,
    pub residency: Residency,
    pub memory_estimate_mib: u32,
    pub reasoning_format: Option<Seq<char>>,
    pub reasoning_effort: Option<Seq<char>>,
    pub startup_timeout_seconds: u32,
    pub runtime: Option<Seq<char>>,
    pub flags: Map<Seq<char>, Seq<char>>,
}

} // verus!

//! Which server binary an entry is served from: the one the router was
//! started with, unless the entry names a build of its own.
//!
//! Both the check and the launcher look for exactly the same file, so what
//! a runtime is called is spelled once, here. Where on disk it is found is
//! the machine's business, and the caller's.

use vstd::prelude::*;

use super::failure::Failure;
use crate::catalog::entry::Entry;
use crate::text::push_str;

verus! {

/// What a named runtime is called on disk.
pub open spec fn runtime_text(runtime: Seq<char>) -> Seq<char> {
    "llama-server-"@ + runtime
}

/// What a named runtime is called on disk.
pub fn runtime_named(runtime: &str) -> (name: String)
    ensures
        name@ == runtime_text(runtime@),
{
    let mut name = String::new();
    push_str(&mut name, "llama-server-");
    push_str(&mut name, runtime);
    name
}

/// What an entry is told when the build it names is not on the search path.
pub open spec fn runtime_missing_text(id: Seq<char>, runtime: Seq<char>) -> Seq<char> {
    "entry '"@ + id + "' needs the '"@ + runtime + "' runtime, and nothing named '"@ + runtime_text(runtime)
        + "' is on the search path"@
}

/// The binary this entry is served from: the one the router was started
/// with unless the entry names a runtime, and then the one `found` on the
/// search path under the runtime's name, if any was.
pub fn binary_for(started_with: &str, entry: &Entry, found: Option<String>) -> (binary: Result<String, Failure>)
    ensures
        match entry.runtime {
            None => binary matches Ok(b) && b@ == started_with@,
            Some(r) => match found {
                Some(f) => binary matches Ok(b) && b@ == f@,
                None => binary matches Err(Failure::Unavailable(m)) && m@ == runtime_missing_text(entry.id@, r@),
            },
        },
{
    match &entry.runtime {
        None => {
            let mut b = String::new();
            push_str(&mut b, started_with);
            Ok(b)
        },
        Some(r) => match found {
            Some(f) => Ok(f),
            None => {
                let mut m = String::new();
                push_str(&mut m, "entry '");
                push_str(&mut m, entry.id.as_str());
                push_str(&mut m, "' needs the '");
                push_str(&mut m, r.as_str());
                push_str(&mut m, "' runtime, and nothing named '");
                let name = runtime_named(r.as_str());
                push_str(&mut m, name.as_str());
                push_str(&mut m, "' is on the search path");
                Err(Failure::Unavailable(m))
            },
        },
    }
}

/// What the router is told when the binary it was configured with is not
/// a file.
pub open spec fn not_there_text(path: Seq<char>) -> Seq<char> {
    "the configured server binary is not there: '"@ + path + "'"@
}

/// What the router is told when no binary was configured and none is on
/// the search path.
pub open spec fn not_found_text() -> Seq<char> {
    "no server binary was configured, and no 'llama-server' was found on the search path"@
}

/// The server binary: the configured one when there is one and it is a
/// file, otherwise the first `llama-server` found on the search path.
pub fn located(configured: Option<&str>, configured_is_file: bool, on_path: Option<String>) -> (binary: Result<
    String,
    Failure,
>)
    ensures
        match configured {
            Some(p) => if configured_is_file {
                binary matches Ok(b) && b@ == p@
            } else {
                binary matches Err(Failure::Unavailable(m)) && m@ == not_there_text(p@)
            },
            None => match on_path {
                Some(f) => binary matches Ok(b) && b@ == f@,
                None => binary matches Err(Failure::Unavailable(m)) && m@ == not_found_text(),
            },
        },
{
    match configured {
        Some(p) => {
            let mut text = String::new();
            if configured_is_file {
                push_str(&mut text, p);
                Ok(text)
            } else {
                push_str(&mut text, "the configured server binary is not there: '");
                push_str(&mut text, p);
                push_str(&mut text, "'");
                Err(Failure::Unavailable(text))
            }
        },
        None => match on_path {
            Some(f) => Ok(f),
            None => {
                let mut m = String::new();
                push_str(&mut m, "no server binary was configured, and no 'llama-server' was found on the search path");
                Err(Failure::Unavailable(m))
            },
        },
    }
}

} // verus!

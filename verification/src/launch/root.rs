//! Where catalog locations resolve against: a root read at run time and
//! never written into a tracked file, so one catalog is correct on every
//! machine.

use vstd::prelude::*;

use super::failure::Failure;
use crate::text::{push_str, string_of};

verus! {

/// A name joined onto a directory, with one separator between them.
pub open spec fn path_join(base: Seq<char>, name: Seq<char>) -> Seq<char> {
    if base.len() == 0 {
        name
    } else if base.last() == '/' {
        base + name
    } else {
        base + seq!['/'] + name
    }
}

/// Whether a variable is set to something rather than unset or empty.
pub open spec fn set_to_something(value: Option<String>) -> bool {
    match value {
        Some(v) => v@.len() > 0,
        None => false,
    }
}

/// What the router is told when there is nowhere to resolve against.
pub open spec fn no_root_text() -> Seq<char> {
    "no models root: set MAESTRO_MODELS_ROOT, or run somewhere with a home directory this router can read"@
}

/// The directory catalog locations resolve against, from the variable's
/// value and the home directory: the value when it is set and not empty,
/// otherwise `models` under the home directory. An empty value is treated as
/// unset, since honouring it would resolve every model against nothing.
pub fn models_root_from(configured: Option<String>, home: Option<String>) -> (root: Result<String, Failure>)
    ensures
        set_to_something(configured) ==> (root matches Ok(r) && r@ == configured->Some_0@),
        !set_to_something(configured) ==> match home {
            Some(h) => root matches Ok(r) && r@ == path_join(h@, "models"@),
            None => root matches Err(Failure::Unavailable(m)) && m@ == no_root_text(),
        },
{
    if let Some(c) = configured {
        if c.as_str().unicode_len() > 0 {
            return Ok(c);
        }
    }
    match home {
        Some(h) => {
            let chars = crate::text::chars_of(h.as_str());
            let mut root = string_of(&chars);
            if chars.len() > 0 && chars[chars.len() - 1] != '/' {
                crate::text::push_char(&mut root, '/');
            }
            push_str(&mut root, "models");
            Ok(root)
        },
        None => {
            let mut m = String::new();
            push_str(
                &mut m,
                "no models root: set MAESTRO_MODELS_ROOT, or run somewhere with a home directory this router can read",
            );
            Err(Failure::Unavailable(m))
        },
    }
}

} // verus!

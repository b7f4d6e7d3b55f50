//! Which addresses this router answers on.
//!
//! Addresses may be given separated by commas, and one router binds them
//! all. A wildcard is refused: `0.0.0.0` and `::` bind every interface the
//! machine has now and every one it gains later, which is a reach no
//! operator stated. Binding is the caller's; which addresses are asked for,
//! and which are refused before the kernel is, is decided here.

use vstd::prelude::*;

use crate::launch::failure::Failure;
use crate::text::{chars_of, pieces, push_str, split_chars, string_of, trim_chars, trimmed, views};

verus! {

/// The addresses an operand names: its pieces between commas, trimmed,
/// leaving out those that name nothing.
pub open spec fn named(parts: Seq<Seq<char>>) -> Seq<Seq<char>>
    decreases parts.len(),
{
    if parts.len() == 0 {
        Seq::empty()
    } else {
        let rest = named(parts.drop_last());
        let t = trimmed(parts.last());
        if t.len() == 0 { rest } else { rest.push(t) }
    }
}

/// Every address one operand names, separated by commas.
pub fn address_pieces(operand: &str) -> (addresses: Vec<String>)
    ensures
        views(addresses@) == named(pieces(operand@, ',')),
{
    let chars = chars_of(operand);
    let parts = split_chars(&chars, ',');
    let ghost all = parts@.map_values(|p: Vec<char>| p@);
    let mut out: Vec<String> = Vec::new();
    let mut i: usize = 0;
    while i < parts.len()
        invariant
            i <= parts@.len(),
            all == parts@.map_values(|p: Vec<char>| p@),
            views(out@) == named(all.take(i as int)),
        decreases parts@.len() - i,
    {
        assert(all.take(i + 1).drop_last() =~= all.take(i as int));
        assert(all.take(i + 1).last() == parts@[i as int]@);
        let t = trim_chars(&parts[i]);
        if t.len() > 0 {
            let ghost before = views(out@);
            out.push(string_of(&t));
            assert(views(out@) =~= before.push(t@));
        }
        i = i + 1;
    }
    assert(all.take(i as int) =~= all);
    out
}

/// What a router given no address is told.
pub open spec fn no_address_text() -> Seq<char> {
    "refusing to serve: no address to listen on was given"@
}

/// What a router given a wildcard is told.
pub open spec fn wildcard_text(address: Seq<char>) -> Seq<char> {
    "refusing to bind "@ + address
        + ": a wildcard is every interface this machine has and every one it gains later, which is a reach nothing stated -- name the interface to serve on instead"@
}

/// The refusal of a list of addresses to bind, given before any is bound:
/// none when every address names an interface, else because none was given
/// or because the first wildcard in the list is one. Each address comes
/// with whether its host names no interface in particular.
pub fn refused_to_bind(addresses: &Vec<(String, bool)>) -> (refused: Option<Failure>)
    ensures
        addresses@.len() == 0 ==> (refused matches Some(Failure::Unavailable(m)) && m@ == no_address_text()),
        addresses@.len() > 0 && (forall|k: int| 0 <= k < addresses@.len() ==> !(#[trigger] addresses@[k]).1)
            ==> refused is None,
        addresses@.len() > 0 && (exists|k: int| 0 <= k < addresses@.len() && (#[trigger] addresses@[k]).1) ==> (
        refused matches Some(Failure::Unavailable(m)) && exists|k: int|
            0 <= k < addresses@.len() && (#[trigger] addresses@[k]).1 && m@ == wildcard_text(addresses@[k].0@)
            && forall|j: int| 0 <= j < k ==> !(#[trigger] addresses@[j]).1),
{
    if addresses.len() == 0 {
        let mut m = String::new();
        push_str(&mut m, "refusing to serve: no address to listen on was given");
        return Some(Failure::Unavailable(m));
    }
    let mut i: usize = 0;
    while i < addresses.len()
        invariant
            i <= addresses@.len(),
            forall|j: int| 0 <= j < i ==> !(#[trigger] addresses@[j]).1,
        decreases addresses@.len() - i,
    {
        if addresses[i].1 {
            let mut m = String::new();
            push_str(&mut m, "refusing to bind ");
            push_str(&mut m, addresses[i].0.as_str());
            push_str(
                &mut m,
                ": a wildcard is every interface this machine has and every one it gains later, which is a reach nothing stated -- name the interface to serve on instead",
            );
            return Some(Failure::Unavailable(m));
        }
        i = i + 1;
    }
    None
}

} // verus!

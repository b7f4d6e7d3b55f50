//! The few server flags an estimate reads: which of them change what an
//! entry costs.

use vstd::prelude::*;

use crate::flags::{flag, flag_value, is_on, is_set, lowered};
use crate::text::{ascii_lower, chars_of, trim_chars, trimmed};

verus! {

/// Whether an entry keeps no cache of its own: one that embeds or reranks
/// generates nothing, so it holds no cache to generate from.
pub open spec fn keeps_no_cache_spec(flags: Seq<(String, String)>) -> bool {
    is_set(flags, "embeddings"@) || is_set(flags, "embedding"@) || is_set(flags, "reranking"@)
        || is_set(flags, "rerank"@)
}

/// Whether an entry keeps no cache of its own.
pub fn keeps_no_cache(flags: &Vec<(String, String)>) -> (none: bool)
    ensures
        none == keeps_no_cache_spec(flags@),
{
    is_on(flags, "embeddings") || is_on(flags, "embedding") || is_on(flags, "reranking") || is_on(flags, "rerank")
}

/// Whether a text contains `mtp`, in any case.
pub open spec fn names_mtp(value: Seq<char>) -> bool {
    exists|i: int| 0 <= i && i + 3 <= value.len() && ascii_lower(#[trigger] value[i]) == 'm'
        && ascii_lower(value[i + 1]) == 't' && ascii_lower(value[i + 2]) == 'p'
}

/// Whether the draft is a multiple-token-prediction head: `spec-type`
/// naming `mtp`. Such a draft predicts from the cache of the model beside
/// it, and the server allocates it none.
pub open spec fn predicts_tokens_spec(flags: Seq<(String, String)>) -> bool {
    match flag_value(flags, "spec-type"@) {
        Some(v) => names_mtp(v),
        None => false,
    }
}

/// Whether the draft is a multiple-token-prediction head.
pub fn predicts_tokens(flags: &Vec<(String, String)>) -> (mtp: bool)
    ensures
        mtp == predicts_tokens_spec(flags@),
{
    match flag(flags, "spec-type") {
        Some(value) => {
            let v = chars_of(value);
            let mut i: usize = 0;
            while v.len() >= 3 && i <= v.len() - 3
                invariant
                    v@ == value@,
                    flag_value(flags@, "spec-type"@) == Some(value@),
                    forall|k: int| 0 <= k < i && k + 3 <= v@.len() ==> !(ascii_lower(#[trigger] v@[k]) == 'm'
                        && ascii_lower(v@[k + 1]) == 't' && ascii_lower(v@[k + 2]) == 'p'),
                decreases v@.len() - i,
            {
                if lower_is(v[i], 'm') && lower_is(v[i + 1], 't') && lower_is(v[i + 2], 'p') {
                    assert(ascii_lower(value@[i as int]) == 'm' && ascii_lower(value@[i + 1]) == 't'
                        && ascii_lower(value@[i + 2]) == 'p');
                    return true;
                }
                i = i + 1;
            }
            proof {
                assert forall|k: int| 0 <= k && k + 3 <= v@.len() implies !(ascii_lower(#[trigger] v@[k]) == 'm'
                    && ascii_lower(v@[k + 1]) == 't' && ascii_lower(v@[k + 2]) == 'p') by {
                    if k < i {
                    }
                }
            }
            false
        },
        None => false,
    }
}

fn lower_is(c: char, l: char) -> (same: bool)
    requires
        'a' <= l <= 'z',
    ensures
        same == (ascii_lower(c) == l),
{
    if 'A' <= c && c <= 'Z' {
        (c as u32) + 32 == (l as u32)
    } else {
        c == l
    }
}

/// Whether a value is `0` once trimmed.
pub open spec fn is_zero(value: Seq<char>) -> bool {
    trimmed(value) == seq!['0']
}

/// Whether an entry pins every layer to the processor: any of the spellings
/// of the layer count set to `0`.
pub open spec fn runs_on_processor_spec(flags: Seq<(String, String)>) -> bool {
    ||| flag_value(flags, "n-gpu-layers"@) matches Some(v) && is_zero(v)
    ||| flag_value(flags, "ngl"@) matches Some(v) && is_zero(v)
    ||| flag_value(flags, "gpu-layers"@) matches Some(v) && is_zero(v)
}

fn zero_valued(flags: &Vec<(String, String)>, name: &str) -> (zero: bool)
    ensures
        zero == (flag_value(flags@, name@) matches Some(v) && is_zero(v)),
{
    match flag(flags, name) {
        Some(value) => {
            let c = chars_of(value);
            let t = trim_chars(&c);
            let z = ['0'];
            assert(z@ =~= seq!['0']);
            crate::catalog::entry::same_chars(&t, &z)
        },
        None => false,
    }
}

/// Whether an entry pins every layer to the processor.
pub fn runs_on_processor(flags: &Vec<(String, String)>) -> (cpu: bool)
    ensures
        cpu == runs_on_processor_spec(flags@),
{
    zero_valued(flags, "n-gpu-layers") || zero_valued(flags, "ngl") || zero_valued(flags, "gpu-layers")
}

/// Bytes per cached element, in sixteenths of a byte, for a cache type:
/// f16 and bf16 hold 2, f32 holds 4, `q8_0` 1.0625, `q4_0` 0.5625, and any
/// other spelling is read as f16.
pub open spec fn sixteenths_of(value: Seq<char>) -> u64 {
    let v = lowered(trimmed(value));
    if v == seq!['f', '3', '2'] {
        64
    } else if v == seq!['q', '8', '_', '0'] {
        17
    } else if v == seq!['q', '4', '_', '0'] {
        9
    } else {
        32
    }
}

/// Bytes per cached element, in sixteenths of a byte, from the first of two
/// spellings of a cache-type flag that the entry sets, or f16.
pub open spec fn sixteenths_spec(flags: Seq<(String, String)>, short: Seq<char>, long: Seq<char>) -> u64 {
    match flag_value(flags, short) {
        Some(v) => sixteenths_of(v),
        None => match flag_value(flags, long) {
            Some(v) => sixteenths_of(v),
            None => 32,
        },
    }
}

fn sixteenths_value(value: &str) -> (n: u64)
    ensures
        n == sixteenths_of(value@),
{
    let c = chars_of(value);
    let t = trim_chars(&c);
    let mut low: Vec<char> = Vec::new();
    let mut i: usize = 0;
    while i < t.len()
        invariant
            i <= t@.len(),
            low@ == lowered(t@.take(i as int)),
        decreases t@.len() - i,
    {
        let ch = t[i];
        let l = if 'A' <= ch && ch <= 'Z' { ((ch as u8) + 32) as char } else { ch };
        low.push(l);
        assert(lowered(t@.take(i + 1)) =~= lowered(t@.take(i as int)).push(ascii_lower(ch)));
        i = i + 1;
    }
    assert(t@.take(t@.len() as int) =~= t@);
    let f32w = ['f', '3', '2'];
    let q8 = ['q', '8', '_', '0'];
    let q4 = ['q', '4', '_', '0'];
    assert(f32w@ =~= seq!['f', '3', '2']);
    assert(q8@ =~= seq!['q', '8', '_', '0']);
    assert(q4@ =~= seq!['q', '4', '_', '0']);
    if crate::catalog::entry::same_chars(&low, &f32w) {
        64
    } else if crate::catalog::entry::same_chars(&low, &q8) {
        17
    } else if crate::catalog::entry::same_chars(&low, &q4) {
        9
    } else {
        32
    }
}

/// Bytes per cached element, in sixteenths of a byte.
pub fn sixteenths(flags: &Vec<(String, String)>, short: &str, long: &str) -> (n: u64)
    ensures
        n == sixteenths_spec(flags@, short@, long@),
{
    match flag(flags, short) {
        Some(v) => sixteenths_value(v),
        None => match flag(flags, long) {
            Some(v) => sixteenths_value(v),
            None => 32,
        },
    }
}

} // verus!

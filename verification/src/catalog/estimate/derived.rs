//! Summing the four terms into one figure, from what the files of an entry
//! are found to hold.
//!
//! The files themselves are read by the caller: this takes their sizes, and
//! the cache shape their metadata describes where it could be read, and
//! does the arithmetic. The terms, and why each errs high, are set out in
//! the module above.

use vstd::prelude::*;

use super::served::{
    keeps_no_cache, keeps_no_cache_spec, predicts_tokens, predicts_tokens_spec, runs_on_processor,
    runs_on_processor_spec, sixteenths, sixteenths_spec,
};
use crate::catalog::entry::Entry;
use crate::gguf::fault::Fault;
use crate::gguf::metadata::{metadata_shape, number_in, Metadata};
use super::shard::{other_shard_paths, other_shards};
use crate::text::{ascii_lower, is_white, lemma_trimmed_padded, views};
use crate::flags::{flag_value, lowered};
use vstd::string::StringSliceAdditionalSpecFns;

verus! {

/// A mebibyte, in bytes.
pub const MIB: u64 = 1048576;

/// The device context and compute buffers, in bytes.
pub const OVERHEAD_BYTES: u64 = 1073741824;

/// What the figure was worked out from.
#[derive(Debug, Clone, Copy, PartialEq, Eq, Structural)]
pub enum Basis {
    /// The metadata the model file carries about itself.
    Metadata,
    /// The size of the files, because the metadata could not be read.
    Size,
}

/// A derived estimate, and what it rests on.
#[derive(Debug, Clone, Copy, PartialEq, Eq, Structural)]
pub struct Derived {
    pub mib: u32,
    pub basis: Basis,
}

/// What a model's metadata says of the cache it keeps per token of context:
/// its layers, the heads that keep keys and values, and the length of a key
/// and of a value in each.
#[derive(Debug, Clone, Copy, PartialEq, Eq, Structural)]
pub struct CacheShape {
    pub layers: u64,
    pub kv_heads: u64,
    pub key_length: u64,
    pub value_length: u64,
}

/// The cache shape a model's metadata implies: a missing key length is the
/// embedding width over the head count, a missing value length is the key
/// length, and missing key-value heads are the heads. Without the layer
/// count, or without a key length and a way to work one out, there is none.
pub open spec fn shape_from(
    layers: Option<u64>,
    embedding: Option<u64>,
    heads: Option<u64>,
    kv_heads: Option<u64>,
    key_length: Option<u64>,
    value_length: Option<u64>,
) -> Option<CacheShape> {
    let key = match key_length {
        Some(k) => Some(k),
        None => match (embedding, heads) {
            (Some(e), Some(h)) => if h > 0 { Some((e / h) as u64) } else { None },
            _ => None,
        },
    };
    let kv = match kv_heads {
        Some(n) => Some(n),
        None => heads,
    };
    match (layers, key, kv) {
        (Some(l), Some(k), Some(n)) => Some(
            CacheShape {
                layers: l,
                kv_heads: n,
                key_length: k,
                value_length: match value_length {
                    Some(v) => v,
                    None => k,
                },
            },
        ),
        _ => None,
    }
}

impl CacheShape {
    /// The cache shape a model's metadata implies.
    pub fn from_metadata(
        layers: Option<u64>,
        embedding: Option<u64>,
        heads: Option<u64>,
        kv_heads: Option<u64>,
        key_length: Option<u64>,
        value_length: Option<u64>,
    ) -> (shape: Option<CacheShape>)
        ensures
            shape == shape_from(layers, embedding, heads, kv_heads, key_length, value_length),
    {
        let key = match key_length {
            Some(k) => Some(k),
            None => match (embedding, heads) {
                (Some(e), Some(h)) => if h > 0 { Some(e / h) } else { None },
                _ => None,
            },
        };
        let kv = match kv_heads {
            Some(n) => Some(n),
            None => heads,
        };
        match (layers, key, kv) {
            (Some(l), Some(k), Some(n)) => Some(
                CacheShape {
                    layers: l,
                    kv_heads: n,
                    key_length: k,
                    value_length: match value_length {
                        Some(v) => v,
                        None => k,
                    },
                },
            ),
            _ => None,
        }
    }
}

/// The cache, in sixteenths of a byte: every layer, every token of context,
/// every key-value head, a key and a value at their own element sizes.
pub open spec fn cache_sixteenths(shape: CacheShape, context: u32, keys: u64, values: u64) -> int {
    shape.layers * context * shape.kv_heads * (shape.key_length * keys + shape.value_length * values)
}

/// A quantity in sixteenths rounded up to whole units.
pub open spec fn ceil_div(n: int, d: int) -> int {
    n / d + if n % d == 0 { 0int } else { 1int }
}

/// The cache in bytes, rounded up; none where the figure is past what 128
/// bits hold.
pub open spec fn cache_size(shape: CacheShape, context: u32, keys: u64, values: u64) -> Option<int> {
    let t = cache_sixteenths(shape, context, keys, values);
    if t <= u128::MAX { Some(ceil_div(t, 16)) } else { None }
}

proof fn lemma_product_at_least(a: int, b: int)
    by (nonlinear_arith)
    requires
        a >= 1,
        b >= 0,
    ensures
        a * b >= b,
{
}

/// The cache a model keeps at a context, with the element sizes of its keys
/// and values in sixteenths of a byte.
pub fn cache_bytes(shape: &CacheShape, context: u32, keys: u64, values: u64) -> (bytes: Option<u128>)
    ensures
        match cache_size(*shape, context, keys, values) {
            Some(b) => bytes == Some(b as u128),
            None => bytes is None,
        },
{
    let ghost t = cache_sixteenths(*shape, context, keys, values);
    let ghost per_exact = shape.key_length * keys + shape.value_length * values;
    let l = shape.layers as u128;
    let c = context as u128;
    let n = shape.kv_heads as u128;
    if shape.layers == 0 || context == 0 || shape.kv_heads == 0 {
        assert(t == 0) by (nonlinear_arith)
            requires
                t == shape.layers * context * shape.kv_heads * per_exact,
                shape.layers == 0 || context == 0 || shape.kv_heads == 0;
        return Some(0);
    }
    assert(shape.key_length * keys <= u64::MAX * u64::MAX) by (nonlinear_arith)
        requires shape.key_length <= u64::MAX, keys <= u64::MAX;
    assert(shape.value_length * values <= u64::MAX * u64::MAX) by (nonlinear_arith)
        requires shape.value_length <= u64::MAX, values <= u64::MAX;
    let k = (shape.key_length as u128) * (keys as u128);
    let v = (shape.value_length as u128) * (values as u128);
    let ghost front = shape.layers * context * shape.kv_heads;
    assert(front >= 1) by (nonlinear_arith)
        requires
            front == shape.layers * context * shape.kv_heads,
            shape.layers >= 1, context >= 1, shape.kv_heads >= 1;
    assert(t == front * per_exact);
    let per = match k.checked_add(v) {
        Some(p) => p,
        None => {
            proof {
                lemma_product_at_least(front, per_exact);
            }
            return None;
        },
    };
    if per == 0 {
        assert(per_exact == 0);
        assert(t == 0) by (nonlinear_arith)
            requires t == front * per_exact, per_exact == 0;
        return Some(0);
    }
    assert(shape.layers * context <= u64::MAX * u32::MAX) by (nonlinear_arith)
        requires shape.layers <= u64::MAX, context <= u32::MAX;
    let a = l * c;
    let b = match a.checked_mul(n) {
        Some(b) => b,
        None => {
            proof {
                assert(front == a * n);
                lemma_product_at_least(per_exact, front);
                assert(t == per_exact * front) by (nonlinear_arith)
                    requires t == front * per_exact;
            }
            return None;
        },
    };
    let whole = match b.checked_mul(per) {
        Some(w) => w,
        None => {
            assert(t == b * per);
            return None;
        },
    };
    assert(whole == t);
    let rounded = whole / 16 + if whole % 16 == 0 { 0 } else { 1 };
    Some(rounded)
}

/// The sizes of the files an entry names, as found on disk, and the cache
/// shapes their metadata describes where it could be read.
#[derive(Debug, Clone, PartialEq, Eq)]
pub struct Files {
    /// The model file.
    pub model_bytes: u64,
    /// Whether the model file's metadata could be read. Only then is the
    /// model's own cache sized from it.
    pub metadata_read: bool,
    /// The other shards of a split model, each as found beside it and zero
    /// where it is not there: those `shards_to_count` names, shards 1 up to
    /// the count the metadata records, or up to one where it records none.
    pub shard_bytes: Vec<u64>,
    /// The model's cache shape, where its metadata was read and describes one.
    pub model_shape: Option<CacheShape>,
    /// The draft model; zero where it is not there.
    pub draft_bytes: u64,
    /// The draft's cache shape, where its metadata was read and describes one.
    pub draft_shape: Option<CacheShape>,
    /// The projector; zero where it is not there.
    pub projector_bytes: u64,
}

/// The cache shape metadata describes, where it could be read.
pub open spec fn read_shape(read: Result<Metadata, Fault>) -> Option<CacheShape> {
    match read {
        Ok(m) => metadata_shape(m.spec_architecture(), m.spec_numbers()),
        Err(_) => None,
    }
}

impl Files {
    /// What an estimate reads of an entry's files: their sizes as found,
    /// and what the model's and the draft's metadata say where it could be
    /// read.
    pub fn of(
        model_bytes: u64,
        model: &Result<Metadata, Fault>,
        shard_bytes: Vec<u64>,
        draft_bytes: u64,
        draft: &Result<Metadata, Fault>,
        projector_bytes: u64,
    ) -> (files: Files)
        ensures
            files.model_bytes == model_bytes,
            files.metadata_read == model is Ok,
            files.shard_bytes@ == shard_bytes@,
            files.model_shape == read_shape(*model),
            files.draft_bytes == draft_bytes,
            files.draft_shape == read_shape(*draft),
            files.projector_bytes == projector_bytes,
    {
        let model_shape = match model {
            Ok(m) => m.cache_shape(),
            Err(_) => None,
        };
        let draft_shape = match draft {
            Ok(m) => m.cache_shape(),
            Err(_) => None,
        };
        Files {
            model_bytes,
            metadata_read: model.is_ok(),
            shard_bytes,
            model_shape,
            draft_bytes,
            draft_shape,
            projector_bytes,
        }
    }
}

/// How many shards a model is split into, as its metadata records; one
/// where it records none or cannot be read.
pub open spec fn shard_count_of(read: Result<Metadata, Fault>) -> u64 {
    match read {
        Ok(m) => match number_in(m.spec_numbers(), "split.count".spec_bytes()) {
            Some(n) => n,
            None => 1,
        },
        Err(_) => 1,
    }
}

/// The paths of the other shards whose sizes count toward a model's
/// weights: shards 1 up to the count its metadata records, or up to one
/// where it records none or cannot be read, leaving out the model itself;
/// none where the model's name carries no shard suffix.
pub fn shards_to_count(model: &str, read: &Result<Metadata, Fault>) -> (paths: Vec<String>)
    ensures
        views(paths@) == other_shard_paths(model@, shard_count_of(*read)),
{
    let count: u64 = match read {
        Ok(m) => match m.split_count() {
            Some(n) => n,
            None => 1,
        },
        Err(_) => 1,
    };
    other_shards(model, count)
}

/// The sum of a list of sizes.
pub open spec fn sum_of(sizes: Seq<u64>) -> int
    decreases sizes.len(),
{
    if sizes.len() == 0 {
        0
    } else {
        sum_of(sizes.drop_last()) + sizes.last()
    }
}

/// The weights: the model and its other shards, and the draft and the
/// projector where the entry names them.
pub open spec fn weights_bytes(entry: Entry, files: Files) -> int {
    files.model_bytes + sum_of(files.shard_bytes@) + (if entry.draft_path is Some {
        files.draft_bytes as int
    } else {
        0
    }) + (if entry.projector_path is Some {
        files.projector_bytes as int
    } else {
        0
    })
}

/// The draft's own cache: none for a draft that predicts from the model's,
/// nor where its metadata describes none.
pub open spec fn draft_cache(entry: Entry, files: Files) -> int {
    if entry.draft_path is Some && !predicts_tokens_spec(entry.flags@) {
        match files.draft_shape {
            Some(shape) => match cache_size(
                shape,
                entry.context_size,
                sixteenths_spec(entry.flags@, "ctkd"@, "cache-type-k-draft"@),
                sixteenths_spec(entry.flags@, "ctvd"@, "cache-type-v-draft"@),
            ) {
                Some(b) => b,
                None => 0,
            },
            None => 0,
        }
    } else {
        0
    }
}

/// The model's own cache, where its metadata describes one that can be sized.
pub open spec fn model_cache(entry: Entry, files: Files) -> Option<int> {
    match files.model_shape {
        Some(shape) => if files.metadata_read {
            cache_size(
                shape,
                entry.context_size,
                sixteenths_spec(entry.flags@, "ctk"@, "cache-type-k"@),
                sixteenths_spec(entry.flags@, "ctv"@, "cache-type-v"@),
            )
        } else {
            None
        },
        None => None,
    }
}

/// The estimate in bytes, and what it rests on. Layers pinned to the
/// processor are paid for in host memory, so such an entry is charged the
/// overhead alone.
pub open spec fn derived_bytes(entry: Entry, files: Files) -> (int, Basis) {
    let on_processor = runs_on_processor_spec(entry.flags@);
    let weights = if on_processor { 0 } else { weights_bytes(entry, files) };
    let cache = if on_processor { 0 } else { draft_cache(entry, files) };
    match model_cache(entry, files) {
        Some(own) => (
            weights + (if keeps_no_cache_spec(entry.flags@) || on_processor { 0 } else { own }) + cache
                + weights * 5 / 100 + OVERHEAD_BYTES,
            Basis::Metadata,
        ),
        None => (weights + weights / 4 + OVERHEAD_BYTES, Basis::Size),
    }
}

/// Bytes rounded up to whole mebibytes, and held to what 32 bits can say.
pub open spec fn mib_of(bytes: int) -> u32 {
    let m = ceil_div(bytes, MIB as int);
    if m > u32::MAX { u32::MAX } else { m as u32 }
}

/// The estimate for an entry whose files hold what `files` says.
pub open spec fn derived(entry: Entry, files: Files) -> Derived {
    Derived { mib: mib_of(derived_bytes(entry, files).0), basis: derived_bytes(entry, files).1 }
}

/// Derives the estimate for one entry from what its files were found to hold.
pub fn derive_estimate(entry: &Entry, files: &Files) -> (estimate: Derived)
    requires
        files.shard_bytes@.len() <= u32::MAX,
    ensures
        estimate == derived(*entry, *files),
{
    let mut weights: u128 = files.model_bytes as u128;
    let mut i: usize = 0;
    while i < files.shard_bytes.len()
        invariant
            i <= files.shard_bytes@.len() <= u32::MAX,
            weights == files.model_bytes + sum_of(files.shard_bytes@.take(i as int)),
            weights <= (i + 1) * (u64::MAX as int),
        decreases files.shard_bytes@.len() - i,
    {
        assert(files.shard_bytes@.take(i + 1).drop_last() =~= files.shard_bytes@.take(i as int));
        weights = weights + files.shard_bytes[i] as u128;
        i = i + 1;
    }
    assert(files.shard_bytes@.take(i as int) =~= files.shard_bytes@);
    let mut cache: u128 = 0;
    if entry.draft_path.is_some() {
        weights = weights + files.draft_bytes as u128;
        if !predicts_tokens(&entry.flags) {
            if let Some(shape) = &files.draft_shape {
                let keys = sixteenths(&entry.flags, "ctkd", "cache-type-k-draft");
                let values = sixteenths(&entry.flags, "ctvd", "cache-type-v-draft");
                cache = match cache_bytes(shape, entry.context_size, keys, values) {
                    Some(b) => b,
                    None => 0,
                };
            }
        }
    }
    if entry.projector_path.is_some() {
        weights = weights + files.projector_bytes as u128;
    }
    assert(weights == weights_bytes(*entry, *files));
    assert(cache == draft_cache(*entry, *files));
    let on_processor = runs_on_processor(&entry.flags);
    let cache = if on_processor { 0 } else { cache };
    let weights = if on_processor { 0 } else { weights };
    let own = match &files.model_shape {
        Some(shape) if files.metadata_read => {
            let keys = sixteenths(&entry.flags, "ctk", "cache-type-k");
            let values = sixteenths(&entry.flags, "ctv", "cache-type-v");
            cache_bytes(shape, entry.context_size, keys, values)
        },
        _ => None,
    };
    let (bytes, basis) = match own {
        Some(own) => {
            let kept = if keeps_no_cache(&entry.flags) || on_processor { 0 } else { own };
            (weights + kept + cache + weights * 5 / 100 + OVERHEAD_BYTES as u128, Basis::Metadata)
        },
        None => (weights + weights / 4 + OVERHEAD_BYTES as u128, Basis::Size),
    };
    assert(bytes == derived_bytes(*entry, *files).0);
    let m = bytes / (MIB as u128) + if bytes % (MIB as u128) == 0 { 0 } else { 1 };
    let mib: u32 = if m > u32::MAX as u128 { u32::MAX } else { m as u32 };
    Derived { mib, basis }
}

} // verus!

verus! {

proof fn lemma_cache_size_not_negative(shape: CacheShape, context: u32, keys: u64, values: u64)
    ensures
        cache_size(shape, context, keys, values) matches Some(b) ==> b >= 0,
{
    let t = cache_sixteenths(shape, context, keys, values);
    assert(t >= 0) by (nonlinear_arith)
        requires
            t == shape.layers * context * shape.kv_heads * (shape.key_length * keys + shape.value_length * values),
            shape.layers >= 0, context >= 0, shape.kv_heads >= 0, shape.key_length >= 0, keys >= 0,
            shape.value_length >= 0, values >= 0;
}

proof fn lemma_sum_not_negative(sizes: Seq<u64>)
    ensures
        sum_of(sizes) >= 0,
    decreases sizes.len(),
{
    if sizes.len() > 0 {
        lemma_sum_not_negative(sizes.drop_last());
    }
}

/// An estimate never falls below the overhead every loaded model pays:
/// every term errs high, and none takes away.
pub proof fn law_an_estimate_is_never_below_the_overhead(entry: Entry, files: Files)
    ensures
        derived(entry, files).mib >= 1024,
{
    lemma_bytes_at_least_overhead(entry, files);
    let bytes = derived_bytes(entry, files).0;
    assert(bytes / (MIB as int) >= 1024);
}

proof fn lemma_bytes_at_least_overhead(entry: Entry, files: Files)
    ensures
        derived_bytes(entry, files).0 >= OVERHEAD_BYTES,
{
    lemma_sum_not_negative(files.shard_bytes@);
    match files.model_shape {
        Some(shape) => lemma_cache_size_not_negative(
            shape,
            entry.context_size,
            sixteenths_spec(entry.flags@, "ctk"@, "cache-type-k"@),
            sixteenths_spec(entry.flags@, "ctv"@, "cache-type-v"@),
        ),
        None => {},
    }
    match files.draft_shape {
        Some(shape) => lemma_cache_size_not_negative(
            shape,
            entry.context_size,
            sixteenths_spec(entry.flags@, "ctkd"@, "cache-type-k-draft"@),
            sixteenths_spec(entry.flags@, "ctvd"@, "cache-type-v-draft"@),
        ),
        None => {},
    }
    let bytes = derived_bytes(entry, files).0;
    assert(bytes >= OVERHEAD_BYTES);
}

/// An entry that pins every layer to the processor is charged the overhead
/// and nothing else, whatever its files hold: the weights, the cache and the
/// fragmentation are paid in host memory.
pub proof fn law_an_entry_on_the_processor_costs_the_overhead_alone(entry: Entry, files: Files)
    requires
        runs_on_processor_spec(entry.flags@),
    ensures
        derived(entry, files).mib == 1024,
{
    let bytes = derived_bytes(entry, files).0;
    assert(bytes == OVERHEAD_BYTES);
}

/// A model whose metadata cannot be read is estimated from the sizes of
/// its files alone: the model file and the other shards counted beside it,
/// and the draft and the projector the entry names, a quarter again on top,
/// and the overhead, rounded up to whole mebibytes.
pub proof fn law_an_unreadable_model_is_estimated_from_its_sizes(entry: Entry, files: Files)
    requires
        !runs_on_processor_spec(entry.flags@),
        !files.metadata_read,
    ensures
        ({
            let w = files.model_bytes + sum_of(files.shard_bytes@) + (if entry.draft_path is Some {
                files.draft_bytes as int
            } else {
                0
            }) + (if entry.projector_path is Some {
                files.projector_bytes as int
            } else {
                0
            });
            derived(entry, files) == Derived { mib: mib_of(w + w / 4 + OVERHEAD_BYTES), basis: Basis::Size }
        }),
{
}

proof fn lemma_whole_in_sixteenths(x: int, per: int)
    by (nonlinear_arith)
    requires
        x >= 0,
    ensures
        ceil_div(x * (16 * per), 16) == x * per,
{
}

proof fn lemma_spelled(s: Seq<char>, low: char, up: char)
    requires
        s.len() == 3,
        s[0] == low || s[0] == up,
        'a' <= low <= 'z',
        'A' <= up <= 'Z',
        ascii_lower(up) == low,
        s[1] == '3' || s[1] == '1',
        s[2] == '2' || s[2] == '6',
    ensures
        lowered(crate::text::trimmed(s)) == seq![low, s[1], s[2]],
{
    assert(!is_white(s[0])) by {
        assert(s[0] == low || ('A' <= s[0] <= 'Z'));
    }
    lemma_trimmed_padded(Seq::empty(), s, Seq::empty());
    assert(Seq::<char>::empty() + s + Seq::<char>::empty() =~= s);
    assert(ascii_lower(s[0]) == low);
    assert(lowered(s) =~= seq![low, s[1], s[2]]);
}

/// A cache kept as f32, keys and values, holds four bytes per element --
/// `layers x context x kv_heads x (key_length + value_length) x 4` -- the
/// type read in either case.
pub proof fn law_an_f32_cache_holds_four_bytes_per_element(
    shape: CacheShape,
    context: u32,
    flags: Seq<(String, String)>,
    keys: Seq<char>,
    values: Seq<char>,
)
    requires
        flag_value(flags, "ctk"@) == Some(keys),
        flag_value(flags, "ctv"@) == Some(values),
        keys == seq!['f', '3', '2'] || keys == seq!['F', '3', '2'],
        values == seq!['f', '3', '2'] || values == seq!['F', '3', '2'],
        shape.layers * context * shape.kv_heads * (shape.key_length + shape.value_length) * 64 <= u128::MAX,
    ensures
        cache_size(
            shape,
            context,
            sixteenths_spec(flags, "ctk"@, "cache-type-k"@),
            sixteenths_spec(flags, "ctv"@, "cache-type-v"@),
        ) == Some(shape.layers * context * shape.kv_heads * (shape.key_length + shape.value_length) * 4),
{
    assert(ascii_lower('F') == 'f');
    lemma_spelled(keys, 'f', 'F');
    lemma_spelled(values, 'f', 'F');
    let x = shape.layers * context * shape.kv_heads * (shape.key_length + shape.value_length);
    assert(shape.layers * context * shape.kv_heads >= 0) by (nonlinear_arith)
        requires shape.layers >= 0, context >= 0, shape.kv_heads >= 0;
    assert(x >= 0) by (nonlinear_arith)
        requires x == shape.layers * context * shape.kv_heads * (shape.key_length + shape.value_length),
            shape.layers * context * shape.kv_heads >= 0, shape.key_length >= 0, shape.value_length >= 0;
    assert(cache_sixteenths(shape, context, 64, 64) == x * (16 * 4)) by (nonlinear_arith)
        requires x == shape.layers * context * shape.kv_heads * (shape.key_length + shape.value_length);
    lemma_whole_in_sixteenths(x, 4);
}

/// A cache whose type no flag sets is kept as f16, at two bytes per
/// element: half what an f32 cache of the same shape and context holds.
pub proof fn law_an_unset_cache_type_holds_two_bytes_per_element(
    shape: CacheShape,
    context: u32,
    flags: Seq<(String, String)>,
)
    requires
        flag_value(flags, "ctk"@) is None,
        flag_value(flags, "cache-type-k"@) is None,
        flag_value(flags, "ctv"@) is None,
        flag_value(flags, "cache-type-v"@) is None,
        shape.layers * context * shape.kv_heads * (shape.key_length + shape.value_length) * 32 <= u128::MAX,
    ensures
        cache_size(
            shape,
            context,
            sixteenths_spec(flags, "ctk"@, "cache-type-k"@),
            sixteenths_spec(flags, "ctv"@, "cache-type-v"@),
        ) == Some(shape.layers * context * shape.kv_heads * (shape.key_length + shape.value_length) * 2),
{
    let x = shape.layers * context * shape.kv_heads * (shape.key_length + shape.value_length);
    assert(shape.layers * context * shape.kv_heads >= 0) by (nonlinear_arith)
        requires shape.layers >= 0, context >= 0, shape.kv_heads >= 0;
    assert(x >= 0) by (nonlinear_arith)
        requires x == shape.layers * context * shape.kv_heads * (shape.key_length + shape.value_length),
            shape.layers * context * shape.kv_heads >= 0, shape.key_length >= 0, shape.value_length >= 0;
    assert(cache_sixteenths(shape, context, 32, 32) == x * (16 * 2)) by (nonlinear_arith)
        requires x == shape.layers * context * shape.kv_heads * (shape.key_length + shape.value_length);
    lemma_whole_in_sixteenths(x, 2);
}

proof fn lemma_plain(s: Seq<char>)
    requires
        s.len() > 0,
        forall|i: int| 0 <= i < s.len() ==> ('a' <= s[i] <= 'z' || '0' <= s[i] <= '9' || s[i] == '_'),
    ensures
        lowered(crate::text::trimmed(s)) == s,
{
    lemma_trimmed_padded(Seq::empty(), s, Seq::empty());
    assert(Seq::<char>::empty() + s + Seq::<char>::empty() =~= s);
    assert(lowered(s) =~= s);
}

/// Keys and values kept as one of the cache types a server is given, by
/// the short spelling of the flag or, where that is not set, the long one,
/// are charged the bytes per element that type holds: f32 four, f16 and
/// bf16 two, `q8_0` 1.0625 and `q4_0` 0.5625, each rounded up to whole bytes
/// over the whole cache.
pub proof fn law_a_cache_costs_the_bytes_its_type_holds(
    shape: CacheShape,
    context: u32,
    flags: Seq<(String, String)>,
    t: Seq<char>,
)
    requires
        flag_value(flags, "ctk"@) == Some(t) || (flag_value(flags, "ctk"@) is None && flag_value(
            flags,
            "cache-type-k"@,
        ) == Some(t)),
        flag_value(flags, "ctv"@) == Some(t) || (flag_value(flags, "ctv"@) is None && flag_value(
            flags,
            "cache-type-v"@,
        ) == Some(t)),
        t == seq!['f', '3', '2'] || t == seq!['f', '1', '6'] || t == seq!['b', 'f', '1', '6'] || t == seq![
            'q',
            '8',
            '_',
            '0',
        ] || t == seq!['q', '4', '_', '0'],
        shape.layers * context * shape.kv_heads * (shape.key_length + shape.value_length) * 64 <= u128::MAX,
    ensures
        ({
            let x = shape.layers * context * shape.kv_heads * (shape.key_length + shape.value_length);
            let charged = cache_size(
                shape,
                context,
                sixteenths_spec(flags, "ctk"@, "cache-type-k"@),
                sixteenths_spec(flags, "ctv"@, "cache-type-v"@),
            );
            &&& t == seq!['f', '3', '2'] ==> charged == Some(x * 4)
            &&& (t == seq!['f', '1', '6'] || t == seq!['b', 'f', '1', '6']) ==> charged == Some(x * 2)
            &&& t == seq!['q', '8', '_', '0'] ==> charged == Some(ceil_div(x * 17, 16))
            &&& t == seq!['q', '4', '_', '0'] ==> charged == Some(ceil_div(x * 9, 16))
        }),
{
    lemma_plain(t);
    let x = shape.layers * context * shape.kv_heads * (shape.key_length + shape.value_length);
    assert(shape.layers * context * shape.kv_heads >= 0) by (nonlinear_arith)
        requires shape.layers >= 0, context >= 0, shape.kv_heads >= 0;
    assert(x >= 0) by (nonlinear_arith)
        requires x == shape.layers * context * shape.kv_heads * (shape.key_length + shape.value_length),
            shape.layers * context * shape.kv_heads >= 0, shape.key_length >= 0, shape.value_length >= 0;
    let n = sixteenths_spec(flags, "ctk"@, "cache-type-k"@);
    assert(cache_sixteenths(shape, context, n, n) == x * n) by (nonlinear_arith)
        requires x == shape.layers * context * shape.kv_heads * (shape.key_length + shape.value_length);
    assert(x * n <= x * 64) by (nonlinear_arith)
        requires x >= 0, n <= 64;
    if n == 64 {
        lemma_whole_in_sixteenths(x, 4);
    } else if n == 32 {
        lemma_whole_in_sixteenths(x, 2);
    }
}

/// An estimate in mebibytes never falls short of the bytes it stands for:
/// it is rounded up to the next whole mebibyte, never more, unless it is
/// past what 32 bits hold, where it stays at the largest figure they hold.
pub proof fn law_an_estimate_rounds_its_bytes_up(entry: Entry, files: Files)
    ensures
        ({
            let bytes = derived_bytes(entry, files).0;
            let mib = derived(entry, files).mib as int;
            ||| mib == u32::MAX && bytes > (u32::MAX as int - 1) * MIB
            ||| mib * MIB >= bytes && (mib - 1) * MIB < bytes
        }),
{
    lemma_bytes_at_least_overhead(entry, files);
    let bytes = derived_bytes(entry, files).0;
    let q = bytes / (MIB as int);
    let r = bytes % (MIB as int);
    assert(bytes == q * (MIB as int) + r && 0 <= r < MIB) by (nonlinear_arith)
        requires q == bytes / (MIB as int), r == bytes % (MIB as int), MIB > 0;
    let m = ceil_div(bytes, MIB as int);
    if m > u32::MAX {
        assert((u32::MAX as int - 1) * MIB < bytes) by (nonlinear_arith)
            requires m > u32::MAX, m == q + (if r == 0 { 0int } else { 1int }), bytes == q * (MIB as int) + r, 0 <= r < MIB, MIB > 0;
    } else {
        assert(m * MIB >= bytes && (m - 1) * MIB < bytes) by (nonlinear_arith)
            requires m == q + (if r == 0 { 0int } else { 1int }), bytes == q * (MIB as int) + r, 0 <= r < MIB, MIB > 0;
    }
    assert(m == q + (if r == 0 { 0int } else { 1int }));
    assert(derived(entry, files).mib == mib_of(bytes));
}

} // verus!

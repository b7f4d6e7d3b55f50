//! What a model file says about itself: the GGUF metadata at its head.
//!
//! A GGUF file begins with a magic, a version, two counts, then typed
//! key-value pairs, and only after all of that the tensors. This reads those
//! pairs from the bytes at the head of a file and keeps two things: the
//! architecture the file names, and every key whose value is a whole number.
//!
//! Nothing is kept on the file's say-so: a length is stepped over, not
//! copied, unless the value is one this keeps, and a length that runs past
//! the bytes there are is a fault rather than a reading. A per-layer
//! setting stored as an array reads as its largest value, since the cache
//! is sized for the worst layer. A key the file does not carry is absent,
//! never zero; so is a negative number, which no count can be.
//!
//! Versions 2 and 3 are read; they lay their metadata out identically.

use vstd::prelude::*;

use super::fault::Fault;
use crate::catalog::estimate::derived::{shape_from, CacheShape};
use crate::text::{push_str, subrange_bytes};
use vstd::string::StringSliceAdditionalSpecFns;

verus! {

/// 256 to the power `n`.
pub open spec fn pow256(n: nat) -> nat
    decreases n,
{
    if n == 0 {
        1
    } else {
        256 * pow256((n - 1) as nat)
    }
}

/// The whole number `n` bytes at `at` hold, least significant first.
pub open spec fn le(b: Seq<u8>, at: int, n: nat) -> nat
    decreases n,
{
    if n == 0 {
        0
    } else {
        (b[at] + 256 * le(b, at + 1, (n - 1) as nat)) as nat
    }
}

/// How many bytes a value of this type takes, for a type of fixed width.
pub open spec fn width(t: nat) -> Option<nat> {
    if t == 0 || t == 1 || t == 7 {
        Some(1)
    } else if t == 2 || t == 3 {
        Some(2)
    } else if t == 4 || t == 5 || t == 6 {
        Some(4)
    } else if t == 10 || t == 11 || t == 12 {
        Some(8)
    } else {
        None
    }
}

/// The whole number a value of this type holds at `at`, when it is of a
/// whole-number type and not negative.
pub open spec fn count_of(b: Seq<u8>, at: int, t: nat) -> Option<u64> {
    match width(t) {
        Some(w) => if t == 0 || t == 2 || t == 4 || t == 10 {
            Some(le(b, at, w) as u64)
        } else if (t == 1 || t == 3 || t == 5 || t == 11) && le(b, at, w) < pow256(w) / 2 {
            Some(le(b, at, w) as u64)
        } else {
            None
        },
        None => None,
    }
}

/// Where a string at `at` ends, when its length and its bytes are there.
pub open spec fn string_end(b: Seq<u8>, at: int) -> Option<int> {
    if 0 <= at && at + 8 <= b.len() && at + 8 + le(b, at, 8) <= b.len() {
        Some(at + 8 + le(b, at, 8))
    } else {
        None
    }
}

/// Where `c` strings in a row from `at` end.
pub open spec fn strings_end(b: Seq<u8>, at: int, c: nat) -> Option<int>
    decreases c,
{
    if c == 0 {
        Some(at)
    } else {
        match string_end(b, at) {
            Some(e) => strings_end(b, e, (c - 1) as nat),
            None => None,
        }
    }
}

/// The larger of two numbers either of which may be absent.
pub open spec fn larger(a: Option<u64>, b: Option<u64>) -> Option<u64> {
    match (a, b) {
        (Some(x), Some(y)) => Some(if x >= y { x } else { y }),
        (Some(x), None) => Some(x),
        (None, y) => y,
    }
}

/// The largest whole number among the first `c` values of type `t` and
/// width `w` from `at`.
pub open spec fn largest(b: Seq<u8>, at: int, t: nat, w: nat, c: nat) -> Option<u64>
    decreases c,
{
    if c == 0 {
        None
    } else {
        larger(largest(b, at, t, w, (c - 1) as nat), count_of(b, at + (c - 1) * w, t))
    }
}

/// Where an array at `at` ends, and the largest whole number it holds.
pub open spec fn array_at(b: Seq<u8>, at: int) -> Option<(int, Option<u64>)> {
    if !(0 <= at && at + 12 <= b.len()) {
        None
    } else {
        let t = le(b, at, 4);
        let c = le(b, at + 4, 8);
        let start = at + 12;
        if t == 8 {
            match strings_end(b, start, c) {
                Some(e) => Some((e, None)),
                None => None,
            }
        } else {
            match width(t) {
                Some(w) => if start + c * w <= b.len() {
                    Some((start + c * w, largest(b, start, t, w, c)))
                } else {
                    None
                },
                None => None,
            }
        }
    }
}

/// Where a value of type `t` at `at` ends, and the whole number it holds.
pub open spec fn value_at(b: Seq<u8>, at: int, t: nat) -> Option<(int, Option<u64>)> {
    if t == 8 {
        match string_end(b, at) {
            Some(e) => Some((e, None)),
            None => None,
        }
    } else if t == 9 {
        array_at(b, at)
    } else {
        match width(t) {
            Some(w) => if 0 <= at && at + w <= b.len() {
                Some((at + w, count_of(b, at, t)))
            } else {
                None
            },
            None => None,
        }
    }
}

/// The key that names the architecture.
pub open spec fn architecture_key() -> Seq<u8> {
    seq![103u8, 101, 110, 101, 114, 97, 108, 46, 97, 114, 99, 104, 105, 116, 101, 99, 116, 117, 114, 101]
}

/// What has been kept so far: the architecture, and the whole numbers by key.
pub struct Kept {
    pub architecture: Option<Seq<u8>>,
    pub numbers: Seq<(Seq<u8>, u64)>,
}

/// Where the pair at `at` ends, and what is kept once it is read.
pub open spec fn pair_at(b: Seq<u8>, at: int, kept: Kept) -> Option<(int, Kept)> {
    match string_end(b, at) {
        None => None,
        Some(k) => if k + 4 > b.len() {
            None
        } else {
            let key = b.subrange(at + 8, k);
            let t = le(b, k, 4);
            match value_at(b, k + 4, t) {
                None => None,
                Some((end, number)) => {
                    let architecture = if key == architecture_key() && t == 8 {
                        Some(b.subrange(k + 12, end))
                    } else {
                        kept.architecture
                    };
                    let numbers = match number {
                        Some(n) => kept.numbers.push((key, n)),
                        None => kept.numbers,
                    };
                    Some((end, Kept { architecture, numbers }))
                },
            }
        },
    }
}

/// What is kept once `n` pairs from `at` are read, or none when they run
/// past the bytes there are or hold what cannot be read.
pub open spec fn pairs_from(b: Seq<u8>, at: int, n: nat, kept: Kept) -> Option<Kept>
    decreases n,
{
    if n == 0 {
        Some(kept)
    } else {
        match pair_at(b, at, kept) {
            Some((end, more)) => pairs_from(b, end, (n - 1) as nat, more),
            None => None,
        }
    }
}

/// The GGUF magic.
pub open spec fn is_gguf(b: Seq<u8>) -> bool {
    b.len() >= 24 && b[0] == 71 && b[1] == 71 && b[2] == 85 && b[3] == 70
}

/// What a file that is not GGUF is told.
pub open spec fn not_gguf_text() -> Seq<char> {
    "not a GGUF file"@
}

/// What a file of a version this does not read is told.
pub open spec fn version_text() -> Seq<char> {
    "a GGUF version other than 2 or 3"@
}

/// What a file whose metadata cannot be read through is told.
pub open spec fn cut_short_text() -> Seq<char> {
    "GGUF metadata that ends before its last pair, or holds a type that cannot be read"@
}

/// What the head of a file says: what is kept of its metadata, or why it
/// cannot be read.
pub open spec fn metadata_of(b: Seq<u8>) -> Result<Kept, Seq<char>> {
    if !is_gguf(b) {
        Err(not_gguf_text())
    } else if le(b, 4, 4) != 2 && le(b, 4, 4) != 3 {
        Err(version_text())
    } else {
        match pairs_from(b, 24, le(b, 16, 8), Kept { architecture: None, numbers: Seq::empty() }) {
            Some(kept) => Ok(kept),
            None => Err(cut_short_text()),
        }
    }
}

/// What a model file says about itself: the architecture it names, and
/// every key whose value is a whole number, in the order written.
pub struct Metadata {
    architecture: Option<Vec<u8>>,
    numbers: Vec<(Vec<u8>, u64)>,
}

/// The numbers kept, as plain values.
pub open spec fn numbers_view(numbers: Seq<(Vec<u8>, u64)>) -> Seq<(Seq<u8>, u64)> {
    numbers.map_values(|p: (Vec<u8>, u64)| (p.0@, p.1))
}

/// The whole number a file gives a key of its own architecture: the key
/// under the architecture's name and a dot.
pub open spec fn model_number(architecture: Option<Seq<u8>>, numbers: Seq<(Seq<u8>, u64)>, key: Seq<u8>) -> Option<u64> {
    match architecture {
        Some(a) => number_in(numbers, a + seq![46u8] + key),
        None => None,
    }
}

/// Bytes, where there are any, as plain values.
pub open spec fn bytes_view(b: Option<Vec<u8>>) -> Option<Seq<u8>> {
    match b {
        Some(a) => Some(a@),
        None => None,
    }
}

/// The cache shape a file's own settings imply, when they imply one.
pub open spec fn metadata_shape(architecture: Option<Seq<u8>>, numbers: Seq<(Seq<u8>, u64)>) -> Option<CacheShape> {
    shape_from(
        model_number(architecture, numbers, "block_count".spec_bytes()),
        model_number(architecture, numbers, "embedding_length".spec_bytes()),
        model_number(architecture, numbers, "attention.head_count".spec_bytes()),
        model_number(architecture, numbers, "attention.head_count_kv".spec_bytes()),
        model_number(architecture, numbers, "attention.key_length".spec_bytes()),
        model_number(architecture, numbers, "attention.value_length".spec_bytes()),
    )
}

/// The value the last setting of a key gives it, if any.
pub open spec fn number_in(numbers: Seq<(Seq<u8>, u64)>, key: Seq<u8>) -> Option<u64>
    decreases numbers.len(),
{
    if numbers.len() == 0 {
        None
    } else if numbers.last().0 == key {
        Some(numbers.last().1)
    } else {
        number_in(numbers.drop_last(), key)
    }
}

proof fn lemma_pow256_positive(n: nat)
    ensures
        pow256(n) >= 1,
    decreases n,
{
    if n > 0 {
        lemma_pow256_positive((n - 1) as nat);
    }
}

proof fn lemma_pow256_grows(m: nat, j: nat)
    requires
        m <= j,
    ensures
        pow256(m) <= pow256(j),
    decreases j - m,
{
    if m < j {
        lemma_pow256_grows(m, (j - 1) as nat);
        lemma_pow256_positive((j - 1) as nat);
    }
}

/// The whole number `n` bytes at `at` hold, for `n` at most 8.
fn le_at(b: &[u8], at: usize, n: usize) -> (v: u64)
    requires
        n <= 8,
        at + n <= b@.len(),
    ensures
        v == le(b@, at as int, n as nat),
        le(b@, at as int, n as nat) < pow256(n as nat),
{
    proof {
        reveal_with_fuel(pow256, 9);
    }
    assert(pow256(8) == 0x1_0000_0000_0000_0000);
    let len = b.len();
    let mut v: u64 = 0;
    let mut k: usize = n;
    while k > 0
        invariant
            len == b@.len(),
            k <= n <= 8,
            at + n <= b@.len(),
            v == le(b@, at + k, (n - k) as nat),
            v < pow256((n - k) as nat),
            pow256(8) == 0x1_0000_0000_0000_0000,
        decreases k,
    {
        k = k - 1;
        let ghost m = (n - k) as nat;
        assert(pow256(m) == 256 * pow256((m - 1) as nat));
        proof {
            lemma_pow256_grows(m, 8);
        }
        let byte = b[at + k];
        assert(v * 256 + byte < 256 * pow256((m - 1) as nat)) by (nonlinear_arith)
            requires
                v < pow256((m - 1) as nat),
                byte < 256;
        v = v * 256 + byte as u64;
        assert(le(b@, at + k, m) == b@[at + k] + 256 * le(b@, at + k + 1, (m - 1) as nat));
    }
    v
}

/// Where a string at `at` ends, when it is all there.
fn string_end_at(b: &[u8], at: usize) -> (end: Option<usize>)
    ensures
        end matches Some(e) ==> string_end(b@, at as int) == Some(e as int),
        end is None ==> string_end(b@, at as int) is None,
{
    if at > b.len() || b.len() - at < 8 {
        return None;
    }
    let l = le_at(b, at, 8);
    if l > (b.len() - at - 8) as u64 {
        return None;
    }
    Some(at + 8 + l as usize)
}

/// How many bytes a value of this type takes, for a type of fixed width.
fn width_of(t: u64) -> (w: Option<usize>)
    ensures
        match width(t as nat) {
            Some(n) => w == Some(n as usize),
            None => w is None,
        },
{
    if t == 0 || t == 1 || t == 7 {
        Some(1)
    } else if t == 2 || t == 3 {
        Some(2)
    } else if t == 4 || t == 5 || t == 6 {
        Some(4)
    } else if t == 10 || t == 11 || t == 12 {
        Some(8)
    } else {
        None
    }
}

/// The whole number a value of this type holds at `at`, if any.
fn count_at(b: &[u8], at: usize, t: u64, w: usize) -> (count: Option<u64>)
    requires
        width(t as nat) == Some(w as nat),
        at + w <= b@.len(),
    ensures
        count == count_of(b@, at as int, t as nat),
{
    proof {
        reveal_with_fuel(pow256, 9);
    }
    let v = le_at(b, at, w);
    if t == 0 || t == 2 || t == 4 || t == 10 {
        Some(v)
    } else if t == 1 || t == 3 || t == 5 || t == 11 {
        let half: u64 = if w == 1 {
            128
        } else if w == 2 {
            32768
        } else if w == 4 {
            0x8000_0000
        } else {
            0x8000_0000_0000_0000
        };
        assert(half == pow256(w as nat) / 2);
        if v < half {
            Some(v)
        } else {
            None
        }
    } else {
        None
    }
}

/// Where `c` strings in a row from `at` end, when they are all there.
fn strings_end_at(b: &[u8], at: usize, c: u64) -> (end: Option<usize>)
    ensures
        end matches Some(e) ==> strings_end(b@, at as int, c as nat) == Some(e as int),
        end is None ==> strings_end(b@, at as int, c as nat) is None,
{
    let mut pos = at;
    let mut i: u64 = 0;
    while i < c
        invariant
            i <= c,
            strings_end(b@, at as int, c as nat) == strings_end(b@, pos as int, (c - i) as nat),
        decreases c - i,
    {
        match string_end_at(b, pos) {
            Some(e) => pos = e,
            None => return None,
        }
        i = i + 1;
    }
    Some(pos)
}

/// The largest whole number among `c` values of type `t` from `at`.
fn largest_at(b: &[u8], at: usize, t: u64, w: usize, c: usize) -> (best: Option<u64>)
    requires
        width(t as nat) == Some(w as nat),
        at + c * w <= b@.len(),
    ensures
        best == largest(b@, at as int, t as nat, w as nat, c as nat),
{
    let len = b.len();
    let mut best: Option<u64> = None;
    let mut k: usize = 0;
    while k < c
        invariant
            len == b@.len(),
            k <= c,
            width(t as nat) == Some(w as nat),
            at + c * w <= b@.len(),
            best == largest(b@, at as int, t as nat, w as nat, k as nat),
        decreases c - k,
    {
        assert((k + 1) * w <= c * w) by (nonlinear_arith)
            requires
                k + 1 <= c;
        assert(k * w + w == (k + 1) * w) by (nonlinear_arith);
        let here = count_at(b, at + k * w, t, w);
        best = match (best, here) {
            (Some(x), Some(y)) => Some(if x >= y { x } else { y }),
            (Some(x), None) => Some(x),
            (None, y) => y,
        };
        k = k + 1;
    }
    best
}

/// Where an array at `at` ends, and the largest whole number it holds.
fn array_end_at(b: &[u8], at: usize) -> (read: Option<(usize, Option<u64>)>)
    ensures
        read matches Some((e, n)) ==> array_at(b@, at as int) == Some((e as int, n)),
        read is None ==> array_at(b@, at as int) is None,
{
    if at > b.len() || b.len() - at < 12 {
        return None;
    }
    let t = le_at(b, at, 4);
    let c = le_at(b, at + 4, 8);
    let start = at + 12;
    if t == 8 {
        return match strings_end_at(b, start, c) {
            Some(e) => Some((e, None)),
            None => None,
        };
    }
    match width_of(t) {
        Some(w) => {
            let room = b.len() - start;
            if c > (room / w) as u64 {
                assert(start + c * w > b@.len()) by (nonlinear_arith)
                    requires
                        c > room / w,
                        w >= 1,
                        room == b@.len() - start;
                return None;
            }
            assert(c * w <= room) by (nonlinear_arith)
                requires
                    c <= room / w,
                    w >= 1;
            let n = c as usize;
            let best = largest_at(b, start, t, w, n);
            Some((start + n * w, best))
        },
        None => None,
    }
}

/// Where a value of type `t` at `at` ends, and the whole number it holds.
fn value_end_at(b: &[u8], at: usize, t: u64) -> (read: Option<(usize, Option<u64>)>)
    ensures
        read matches Some((e, n)) ==> value_at(b@, at as int, t as nat) == Some((e as int, n)),
        read is None ==> value_at(b@, at as int, t as nat) is None,
{
    if t == 8 {
        match string_end_at(b, at) {
            Some(e) => Some((e, None)),
            None => None,
        }
    } else if t == 9 {
        array_end_at(b, at)
    } else {
        match width_of(t) {
            Some(w) => if at <= b.len() && b.len() - at >= w {
                Some((at + w, count_at(b, at, t, w)))
            } else {
                None
            },
            None => None,
        }
    }
}

/// Whether the bytes from `from` to `to` are the key naming the architecture.
fn names_architecture(b: &[u8], from: usize, to: usize) -> (named: bool)
    requires
        from <= to <= b@.len(),
    ensures
        named == (b@.subrange(from as int, to as int) == architecture_key()),
{
    let key: [u8; 20] = [103, 101, 110, 101, 114, 97, 108, 46, 97, 114, 99, 104, 105, 116, 101, 99, 116, 117, 114, 101];
    assert(key@ =~= architecture_key());
    if to - from != 20 {
        assert(b@.subrange(from as int, to as int).len() != architecture_key().len());
        return false;
    }
    let mut i: usize = 0;
    while i < 20
        invariant
            i <= 20,
            to - from == 20,
            from <= to <= b@.len(),
            key@ == architecture_key(),
            forall|j: int| 0 <= j < i ==> b@[from + j] == key@[j],
        decreases 20 - i,
    {
        if b[from + i] != key[i] {
            assert(b@.subrange(from as int, to as int)[i as int] != architecture_key()[i as int]);
            return false;
        }
        i = i + 1;
    }
    assert(b@.subrange(from as int, to as int) =~= architecture_key());
    true
}

/// Reads the pair at `pos`, keeping what is kept of it; where it ends, or
/// none when it cannot be read.
fn read_pair(
    b: &[u8],
    pos: usize,
    architecture: &mut Option<Vec<u8>>,
    numbers: &mut Vec<(Vec<u8>, u64)>,
) -> (end: Option<usize>)
    ensures
        match pair_at(
            b@,
            pos as int,
            Kept { architecture: bytes_view(*old(architecture)), numbers: numbers_view(old(numbers)@) },
        ) {
            Some((e, more)) => end == Some(e as usize) && e == e as usize && more == Kept {
                architecture: bytes_view(*final(architecture)),
                numbers: numbers_view(final(numbers)@),
            },
            None => end is None,
        },
{
    let k = match string_end_at(b, pos) {
        Some(k) => k,
        None => return None,
    };
    if k > b.len() || b.len() - k < 4 {
        return None;
    }
    let t = le_at(b, k, 4);
    let (end, number) = match value_end_at(b, k + 4, t) {
        Some(read) => read,
        None => return None,
    };
    if t == 8 && names_architecture(b, pos + 8, k) {
        *architecture = Some(subrange_bytes(b, k + 12, end));
    }
    if let Some(v) = number {
        let ghost before = numbers_view(numbers@);
        numbers.push((subrange_bytes(b, pos + 8, k), v));
        assert(numbers_view(numbers@) =~= before.push((b@.subrange(pos + 8, k as int), v)));
    }
    Some(end)
}

impl Metadata {
    /// The architecture the file names, as its bytes.
    pub closed spec fn spec_architecture(&self) -> Option<Seq<u8>> {
        bytes_view(self.architecture)
    }

    /// Every key whose value is a whole number, with it, in the order written.
    pub closed spec fn spec_numbers(&self) -> Seq<(Seq<u8>, u64)> {
        numbers_view(self.numbers@)
    }

    /// Reads the metadata at the head of a file from its first bytes, or
    /// says why it cannot be read.
    pub fn read(b: &[u8]) -> (read: Result<Metadata, Fault>)
        ensures
            match metadata_of(b@) {
                Ok(kept) => read matches Ok(m) && m.spec_architecture() == kept.architecture && m.spec_numbers()
                    == kept.numbers,
                Err(t) => read matches Err(f) && f.0@ == t,
            },
    {
        if b.len() < 24 || b[0] != 71 || b[1] != 71 || b[2] != 85 || b[3] != 70 {
            let mut m = String::new();
            push_str(&mut m, "not a GGUF file");
            return Err(Fault(m));
        }
        let version = le_at(b, 4, 4);
        if version != 2 && version != 3 {
            let mut m = String::new();
            push_str(&mut m, "a GGUF version other than 2 or 3");
            return Err(Fault(m));
        }
        let n = le_at(b, 16, 8);
        assert(is_gguf(b@));
        let mut architecture: Option<Vec<u8>> = None;
        let mut numbers: Vec<(Vec<u8>, u64)> = Vec::new();
        let mut pos: usize = 24;
        let mut i: u64 = 0;
        let ghost start = Kept { architecture: None, numbers: Seq::empty() };
        assert(numbers_view(numbers@) =~= Seq::<(Seq<u8>, u64)>::empty());
        while i < n
            invariant
                i <= n,
                n == le(b@, 16, 8),
                is_gguf(b@),
                le(b@, 4, 4) == 2 || le(b@, 4, 4) == 3,
                start == (Kept { architecture: None, numbers: Seq::empty() }),
                pairs_from(b@, 24, n as nat, start) == pairs_from(
                    b@,
                    pos as int,
                    (n - i) as nat,
                    Kept { architecture: bytes_view(architecture), numbers: numbers_view(numbers@) },
                ),
            decreases n - i,
        {
            let ghost kept = Kept { architecture: bytes_view(architecture), numbers: numbers_view(numbers@) };
            let ghost left = (n - i) as nat;
            match read_pair(b, pos, &mut architecture, &mut numbers) {
                Some(end) => pos = end,
                None => {
                    assert(pair_at(b@, pos as int, kept) is None);
                    assert(pairs_from(b@, pos as int, left, kept) is None);
                    assert(pairs_from(b@, 24, n as nat, start) is None);
                    assert(metadata_of(b@) == Err::<Kept, Seq<char>>(cut_short_text()));
                    let mut m = String::new();
                    push_str(&mut m, "GGUF metadata that ends before its last pair, or holds a type that cannot be read");
                    return Err(Fault(m));
                },
            }
            i = i + 1;
        }
        Ok(Metadata { architecture, numbers })
    }

    /// The whole number the file gives a key, the last it gives if more than
    /// one, or none.
    pub fn number(&self, key: &[u8]) -> (value: Option<u64>)
        ensures
            value == number_in(self.spec_numbers(), key@),
    {
        let ghost all = self.spec_numbers();
        let mut i: usize = self.numbers.len();
        assert(all.take(all.len() as int) =~= all);
        while i > 0
            invariant
                i <= self.numbers@.len(),
                all == self.spec_numbers(),
                number_in(all, key@) == number_in(all.take(i as int), key@),
            decreases i,
        {
            assert(all.take(i as int).drop_last() =~= all.take(i - 1));
            assert(all[i - 1] == (self.numbers@[i - 1].0@, self.numbers@[i - 1].1));
            if same_bytes(self.numbers[i - 1].0.as_slice(), key) {
                return Some(self.numbers[i - 1].1);
            }
            i = i - 1;
        }
        None
    }

    /// The whole number the file gives a key of its own architecture, such
    /// as `context_length` or `block_count`; none when it names no
    /// architecture or does not give that key.
    pub fn of_model(&self, key: &str) -> (value: Option<u64>)
        ensures
            value == model_number(self.spec_architecture(), self.spec_numbers(), key.spec_bytes()),
    {
        match &self.architecture {
            Some(a) => {
                let mut full: Vec<u8> = Vec::new();
                let mut i: usize = 0;
                while i < a.len()
                    invariant
                        i <= a@.len(),
                        full@ == a@.take(i as int),
                    decreases a@.len() - i,
                {
                    full.push(a[i]);
                    assert(full@ =~= a@.take(i + 1));
                    i = i + 1;
                }
                full.push(46u8);
                let k = key.as_bytes();
                let mut j: usize = 0;
                let ghost head = a@ + seq![46u8];
                assert(full@ =~= head);
                while j < k.len()
                    invariant
                        j <= k@.len(),
                        full@ == head + k@.take(j as int),
                    decreases k@.len() - j,
                {
                    full.push(k[j]);
                    assert(full@ =~= head + k@.take(j + 1));
                    j = j + 1;
                }
                assert(k@.take(k@.len() as int) =~= k@);
                self.number(full.as_slice())
            },
            None => None,
        }
    }

    /// How many files a split model is in, when the file says.
    pub fn split_count(&self) -> (count: Option<u64>)
        ensures
            count == number_in(self.spec_numbers(), "split.count".spec_bytes()),
    {
        self.number("split.count".as_bytes())
    }

    /// What the file says its model was trained for, in tokens of context.
    pub fn trained_for(&self) -> (context: Option<u64>)
        ensures
            context == model_number(self.spec_architecture(), self.spec_numbers(), "context_length".spec_bytes()),
    {
        self.of_model("context_length")
    }

    /// The cache shape the file's own settings imply, when they imply one.
    pub fn cache_shape(&self) -> (shape: Option<CacheShape>)
        ensures
            shape == metadata_shape(self.spec_architecture(), self.spec_numbers()),
    {
        CacheShape::from_metadata(
            self.of_model("block_count"),
            self.of_model("embedding_length"),
            self.of_model("attention.head_count"),
            self.of_model("attention.head_count_kv"),
            self.of_model("attention.key_length"),
            self.of_model("attention.value_length"),
        )
    }
}

/// Whether two byte strings are the same.
fn same_bytes(a: &[u8], b: &[u8]) -> (same: bool)
    ensures
        same == (a@ == b@),
{
    if a.len() != b.len() {
        return false;
    }
    let mut i: usize = 0;
    while i < a.len()
        invariant
            i <= a@.len() == b@.len(),
            forall|j: int| 0 <= j < i ==> a@[j] == b@[j],
        decreases a@.len() - i,
    {
        if a[i] != b[i] {
            return false;
        }
        i = i + 1;
    }
    assert(a@ =~= b@);
    true
}

} // verus!

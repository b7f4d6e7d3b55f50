//! The order candidates are unloaded in: guests before any other model, and
//! within each kind the coldest first.

use vstd::prelude::*;

use crate::catalog::Residency;
use crate::text::views;

use super::subject::Loaded;

verus! {

/// Whether a loaded model may be unloaded: on-demand, and not being read from.
pub open spec fn candidate(l: Loaded) -> bool {
    l.residency == Residency::OnDemand && !l.busy
}

/// Whether the model at `i` was loaded into free room.
pub open spec fn is_guest(held: Seq<Loaded>, guests: Seq<Seq<char>>, i: usize) -> bool {
    guests.contains(held[i as int].id@)
}

/// Whether the model at `i` goes before the one at `j`: a guest before a
/// model that is not one, then the one idle longer, then the one listed
/// first.
pub open spec fn goes_before(held: Seq<Loaded>, guests: Seq<Seq<char>>, i: usize, j: usize) -> bool {
    let gi = is_guest(held, guests, i);
    let gj = is_guest(held, guests, j);
    ||| gi && !gj
    ||| gi == gj && held[i as int].idle_secs > held[j as int].idle_secs
    ||| gi == gj && held[i as int].idle_secs == held[j as int].idle_secs && i < j
}

/// Whether `o` lists every candidate once, in the order they go.
pub open spec fn is_candidate_order(held: Seq<Loaded>, guests: Seq<Seq<char>>, o: Seq<usize>) -> bool {
    &&& o.no_duplicates()
    &&& forall|k: int| 0 <= k < o.len() ==> #[trigger] o[k] < held.len() && candidate(held[o[k] as int])
    &&& forall|i: usize| i < held.len() && candidate(#[trigger] held[i as int]) ==> o.contains(i)
    &&& forall|a: int, b: int| 0 <= a < b < o.len() ==> goes_before(held, guests, #[trigger] o[a], #[trigger] o[b])
}

/// The candidates, in the order they are unloaded.
pub open spec fn candidate_order(held: Seq<Loaded>, guests: Seq<Seq<char>>) -> Seq<usize> {
    choose|o: Seq<usize>| is_candidate_order(held, guests, o)
}

proof fn lemma_goes_before_total(held: Seq<Loaded>, guests: Seq<Seq<char>>, i: usize, j: usize)
    requires
        i != j,
    ensures
        goes_before(held, guests, i, j) || goes_before(held, guests, j, i),
        !(goes_before(held, guests, i, j) && goes_before(held, guests, j, i)),
{
}

proof fn lemma_goes_before_transitive(
    held: Seq<Loaded>,
    guests: Seq<Seq<char>>,
    i: usize,
    j: usize,
    k: usize,
)
    requires
        goes_before(held, guests, i, j),
        goes_before(held, guests, j, k),
    ensures
        goes_before(held, guests, i, k),
{
}

/// Two orderings of one set of candidates, each strictly in the order they
/// go, are the same ordering.
proof fn lemma_order_unique(held: Seq<Loaded>, guests: Seq<Seq<char>>, a: Seq<usize>, b: Seq<usize>)
    requires
        a.no_duplicates(),
        b.no_duplicates(),
        forall|x: usize| a.contains(x) <==> b.contains(x),
        forall|p: int, q: int| 0 <= p < q < a.len() ==> goes_before(held, guests, #[trigger] a[p], #[trigger] a[q]),
        forall|p: int, q: int| 0 <= p < q < b.len() ==> goes_before(held, guests, #[trigger] b[p], #[trigger] b[q]),
    ensures
        a == b,
    decreases a.len(),
{
    if a.len() == 0 {
        if b.len() > 0 {
            assert(b.contains(b[0]));
        }
        assert(a =~= b);
    } else {
        assert(a.contains(a[0]));
        assert(b.len() > 0);
        assert(b.contains(b[0]));
        if a[0] != b[0] {
            let p = choose|p: int| 0 <= p < b.len() && b[p] == a[0];
            let q = choose|q: int| 0 <= q < a.len() && a[q] == b[0];
            assert(p > 0);
            assert(q > 0);
            assert(goes_before(held, guests, b[0], b[p]));
            assert(goes_before(held, guests, a[0], a[q]));
            lemma_goes_before_total(held, guests, a[0], b[0]);
        }
        let a2 = a.drop_first();
        let b2 = b.drop_first();
        assert forall|x: usize| a2.contains(x) <==> b2.contains(x) by {
            if a2.contains(x) {
                let p = choose|p: int| 0 <= p < a2.len() && a2[p] == x;
                assert(a[p + 1] == x);
                assert(x != a[0]);
                assert(a.contains(x));
                let r = choose|r: int| 0 <= r < b.len() && b[r] == x;
                assert(r != 0);
                assert(b2[r - 1] == x);
            }
            if b2.contains(x) {
                let p = choose|p: int| 0 <= p < b2.len() && b2[p] == x;
                assert(b[p + 1] == x);
                assert(x != b[0]);
                assert(b.contains(x));
                let r = choose|r: int| 0 <= r < a.len() && a[r] == x;
                assert(r != 0);
                assert(a2[r - 1] == x);
            }
        }
        assert forall|p: int, q: int| 0 <= p < q < a2.len() implies goes_before(held, guests, #[trigger] a2[p], #[trigger] a2[q]) by {
            assert(a2[p] == a[p + 1] && a2[q] == a[q + 1]);
        }
        assert forall|p: int, q: int| 0 <= p < q < b2.len() implies goes_before(held, guests, #[trigger] b2[p], #[trigger] b2[q]) by {
            assert(b2[p] == b[p + 1] && b2[q] == b[q + 1]);
        }
        lemma_order_unique(held, guests, a2, b2);
        assert(a =~= b2.insert(0, b[0]));
        assert(b =~= b2.insert(0, b[0]));
    }
}

/// A sequence that lists every candidate once, in the order they go, is the
/// candidate order.
pub proof fn lemma_is_the_candidate_order(held: Seq<Loaded>, guests: Seq<Seq<char>>, o: Seq<usize>)
    requires
        is_candidate_order(held, guests, o),
    ensures
        candidate_order(held, guests) == o,
{
    let c = candidate_order(held, guests);
    assert(is_candidate_order(held, guests, c));
    assert forall|x: usize| c.contains(x) <==> o.contains(x) by {
        if c.contains(x) {
            let k = choose|k: int| 0 <= k < c.len() && c[k] == x;
            assert(x < held.len() && candidate(held[x as int]));
        }
        if o.contains(x) {
            let k = choose|k: int| 0 <= k < o.len() && o[k] == x;
            assert(x < held.len() && candidate(held[x as int]));
        }
    }
    lemma_order_unique(held, guests, c, o);
}

/// Whether each model in `held` is a guest.
fn guest_flags(held: &[Loaded], guests: &[String]) -> (flags: Vec<bool>)
    ensures
        flags@.len() == held@.len(),
        forall|i: int| 0 <= i < held@.len() ==> flags@[i] == is_guest(held@, views(guests@), i as usize),
{
    let mut flags: Vec<bool> = Vec::new();
    let mut i: usize = 0;
    while i < held.len()
        invariant
            i <= held@.len(),
            flags@.len() == i,
            forall|k: int| 0 <= k < i ==> flags@[k] == is_guest(held@, views(guests@), k as usize),
        decreases held@.len() - i,
    {
        let mut found = false;
        let mut g: usize = 0;
        while g < guests.len()
            invariant
                i < held@.len(),
                g <= guests@.len(),
                found == exists|k: int| 0 <= k < g && guests@[k]@ == held@[i as int].id@,
            decreases guests@.len() - g,
        {
            if guests[g] == held[i].id {
                found = true;
            }
            g = g + 1;
        }
        proof {
            let v = views(guests@);
            if found {
                let k = choose|k: int| 0 <= k < guests@.len() && guests@[k]@ == held@[i as int].id@;
                assert(v[k] == held@[i as int].id@);
            }
            if v.contains(held@[i as int].id@) {
                let k = choose|k: int| 0 <= k < v.len() && v[k] == held@[i as int].id@;
                assert(guests@[k]@ == held@[i as int].id@);
            }
        }
        flags.push(found);
        i = i + 1;
    }
    flags
}

fn is_candidate(l: &Loaded) -> (c: bool)
    ensures
        c == candidate(*l),
{
    match l.residency {
        Residency::OnDemand => !l.busy,
        Residency::Resident => false,
    }
}

/// Every candidate once, in the order they are unloaded.
pub fn candidates_in_order(held: &[Loaded], guests: &[String]) -> (order: Vec<usize>)
    ensures
        order@ == candidate_order(held@, views(guests@)),
        is_candidate_order(held@, views(guests@), order@),
{
    let ghost g = views(guests@);
    let flags = guest_flags(held, guests);
    let n = held.len();
    let mut taken: Vec<bool> = Vec::new();
    let mut t: usize = 0;
    while t < n
        invariant
            t <= n,
            n == held@.len(),
            taken@.len() == t,
            forall|k: int| 0 <= k < t ==> !taken@[k],
        decreases n - t,
    {
        taken.push(false);
        t = t + 1;
    }
    let mut order: Vec<usize> = Vec::new();
    loop
        invariant
            n == held@.len(),
            taken@.len() == n,
            flags@.len() == n,
            forall|i: int| 0 <= i < n ==> flags@[i] == is_guest(held@, g, i as usize),
            order@.no_duplicates(),
            order@.len() <= n,
            forall|k: int| 0 <= k < order@.len() ==> #[trigger] order@[k] < n && candidate(held@[order@[k] as int]),
            forall|i: usize| i < n ==> (taken@[i as int] <==> order@.contains(i)),
            forall|a: int, b: int| 0 <= a < b < order@.len() ==> goes_before(held@, g, #[trigger] order@[a], #[trigger] order@[b]),
            forall|a: int, j: usize| #![trigger order@[a], held@[j as int]]
                0 <= a < order@.len() && j < n && !taken@[j as int] && candidate(held@[j as int])
                ==> goes_before(held@, g, order@[a], j),
        ensures
            taken@.len() == n,
            order@.no_duplicates(),
            forall|k: int| 0 <= k < order@.len() ==> #[trigger] order@[k] < n && candidate(held@[order@[k] as int]),
            forall|i: usize| i < n ==> (taken@[i as int] <==> order@.contains(i)),
            forall|a: int, b: int| 0 <= a < b < order@.len() ==> goes_before(held@, g, #[trigger] order@[a], #[trigger] order@[b]),
            forall|k: usize| k < n ==> !(!taken@[k as int] && candidate(held@[k as int])),
        decreases n - order@.len(),
    {
        let mut best: Option<usize> = None;
        let mut j: usize = 0;
        while j < n
            invariant
                n == held@.len(),
                taken@.len() == n,
                flags@.len() == n,
                forall|i: int| 0 <= i < n ==> flags@[i] == is_guest(held@, g, i as usize),
                j <= n,
                best is None ==> forall|k: usize| k < j ==> !(!taken@[k as int] && candidate(held@[k as int])),
                best matches Some(b) ==> b < j && !taken@[b as int] && candidate(held@[b as int]),
                best matches Some(b) ==> forall|k: usize| k < j && k != b && !taken@[k as int] && candidate(held@[k as int])
                    ==> goes_before(held@, g, b, k),
            decreases n - j,
        {
            if !taken[j] && is_candidate(&held[j]) {
                match best {
                    None => {
                        best = Some(j);
                    },
                    Some(b) => {
                        let gj = flags[j];
                        let gb = flags[b];
                        let before = (gj && !gb) || (gj == gb && held[j].idle_secs > held[b].idle_secs)
                            || (gj == gb && held[j].idle_secs == held[b].idle_secs && j < b);
                        assert(before == goes_before(held@, g, j, b));
                        if before {
                            proof {
                                assert forall|k: usize| k < j + 1 && k != j && !taken@[k as int] && candidate(held@[k as int])
                                    implies goes_before(held@, g, j, k) by {
                                    if k != b {
                                        lemma_goes_before_transitive(held@, g, j, b, k);
                                    }
                                }
                            }
                            best = Some(j);
                        } else {
                            proof {
                                lemma_goes_before_total(held@, g, j, b);
                            }
                        }
                    },
                }
            }
            j = j + 1;
        }
        match best {
            None => {
                break;
            },
            Some(b) => {
                proof {
                    assert(!order@.contains(b));
                }
                let ghost before = order@;
                taken.set(b, true);
                order.push(b);
                proof {
                    assert forall|i: usize| i < n implies (taken@[i as int] <==> order@.contains(i)) by {
                        if i == b {
                            assert(order@[order@.len() - 1] == b);
                        } else {
                            if order@.contains(i) {
                                let k = choose|k: int| 0 <= k < order@.len() && order@[k] == i;
                                assert(k < before.len());
                                assert(before[k] == i);
                            }
                            if before.contains(i) {
                                let k = choose|k: int| 0 <= k < before.len() && before[k] == i;
                                assert(order@[k] == i);
                            }
                        }
                    }
                    assert forall|a: int, j2: usize| #![trigger order@[a], held@[j2 as int]]
                        0 <= a < order@.len() && j2 < n && !taken@[j2 as int] && candidate(held@[j2 as int])
                        implies goes_before(held@, g, order@[a], j2) by {
                        if a < before.len() {
                            assert(order@[a] == before[a]);
                        } else {
                            assert(order@[a] == b);
                            assert(j2 != b);
                        }
                    }
                    assert forall|a: int, c: int| 0 <= a < c < order@.len() implies goes_before(held@, g, #[trigger] order@[a], #[trigger] order@[c]) by {
                        if c < before.len() {
                            assert(order@[a] == before[a] && order@[c] == before[c]);
                        } else {
                            assert(order@[a] == before[a]);
                        }
                    }
                    assert(order@.no_duplicates()) by {
                        assert forall|p: int, q: int| 0 <= p < order@.len() && 0 <= q < order@.len() && p != q implies order@[p] != order@[q] by {
                            if q == before.len() {
                                assert(order@[p] == before[p]);
                            } else if p == before.len() {
                                assert(order@[q] == before[q]);
                            } else {
                                assert(order@[p] == before[p] && order@[q] == before[q]);
                            }
                        }
                    }
                    // every member is taken, so there are at most n of them
                    assert(order@.len() <= n) by {
                        let s = order@.to_set();
                        assert(s.subset_of(Set::new(|i: usize| i < n)));
                        order@.unique_seq_to_set();
                        lemma_indices_below(n);
                        vstd::set_lib::lemma_len_subset(s, Set::new(|i: usize| i < n));
                    }
                }
            },
        }
    }
    proof {
        assert forall|i: usize| i < held@.len() && candidate(#[trigger] held@[i as int]) implies order@.contains(i) by {
            assert(taken@[i as int]);
        }
        lemma_is_the_candidate_order(held@, g, order@);
    }
    order
}

proof fn lemma_indices_below(n: usize)
    ensures
        Set::new(|i: usize| i < n).finite(),
        Set::new(|i: usize| i < n).len() == n,
    decreases n,
{
    if n == 0 {
        assert(Set::new(|i: usize| i < n) =~= Set::<usize>::empty());
    } else {
        lemma_indices_below((n - 1) as usize);
        assert(Set::new(|i: usize| i < n) =~= Set::new(|i: usize| i < (n - 1) as usize).insert((n - 1) as usize));
    }
}

} // verus!


//! The ceiling models are unloaded to stay under, and the decision it makes.

use vstd::prelude::*;

use crate::catalog::Residency;
use crate::text::{decimal, joined, push_decimal, push_joined, push_str, views};

use super::order::{candidate, candidate_order, candidates_in_order, is_candidate_order, lemma_is_the_candidate_order};
use super::subject::{Loaded, Wanted};

verus! {

/// What admission decided about one start.
#[derive(Debug, Clone, PartialEq, Eq)]
pub enum Decision {
    /// There is room: start it.
    Fits,
    /// Unload these, in this order, and then there is room.
    Unload(Vec<String>),
    /// The room is held by a model something is still reading from; it
    /// becomes free once that reader is done.
    Blocked(String),
    /// There will not be room however long anybody waits.
    Refuse(String),
}

/// The ceiling on what the loaded models may cost, when there is one.
#[derive(Debug, Clone)]
pub struct Budget {
    limit_mib: Option<u32>,
}

/// What every model in `held` costs together.
pub open spec fn total(held: Seq<Loaded>) -> int
    decreases held.len(),
{
    if held.len() == 0 {
        0
    } else {
        total(held.drop_last()) + held.last().mib
    }
}

/// What the on-demand models in `held` cost together, busy or not: all that
/// could ever be unloaded.
pub open spec fn on_demand_total(held: Seq<Loaded>) -> int
    decreases held.len(),
{
    if held.len() == 0 {
        0
    } else {
        on_demand_total(held.drop_last()) + if held.last().residency == Residency::OnDemand {
            held.last().mib as int
        } else {
            0
        }
    }
}

/// What unloading the models at these places frees.
pub open spec fn freed(held: Seq<Loaded>, o: Seq<usize>) -> int
    decreases o.len(),
{
    if o.len() == 0 {
        0
    } else {
        freed(held, o.drop_last()) + held[o.last() as int].mib
    }
}

/// The names of the models at these places.
pub open spec fn names(held: Seq<Loaded>, o: Seq<usize>) -> Seq<Seq<char>> {
    o.map_values(|i: usize| held[i as int].id@)
}

/// The on-demand models something is reading from, in the order held.
pub open spec fn busy_names(held: Seq<Loaded>) -> Seq<Seq<char>>
    decreases held.len(),
{
    if held.len() == 0 {
        Seq::empty()
    } else if held.last().residency == Residency::OnDemand && held.last().busy {
        busy_names(held.drop_last()).push(held.last().id@)
    } else {
        busy_names(held.drop_last())
    }
}

/// How far over the ceiling starting `wanted` would go, or nothing.
pub open spec fn ledger_need(limit: u32, held: Seq<Loaded>, wanted: Wanted) -> int {
    let over = total(held) + wanted.mib - limit;
    if over > 0 { over } else { 0 }
}

/// How much more the device would need to have free for `wanted`, or
/// nothing: a model kept off the device, or a device that cannot be asked,
/// needs none.
pub open spec fn device_need(wanted: Wanted, device_free_mib: Option<u64>) -> int {
    match device_free_mib {
        Some(free) => if wanted.on_device && free < wanted.mib { wanted.mib - free } else { 0 },
        None => 0,
    }
}

/// How much has to be unloaded before `wanted` can start: the more that
/// either question asks for.
pub open spec fn need(limit: u32, held: Seq<Loaded>, wanted: Wanted, device_free_mib: Option<u64>) -> int {
    let l = ledger_need(limit, held, wanted);
    let d = device_need(wanted, device_free_mib);
    if l >= d { l } else { d }
}

/// What a request is told when the room is held by models being read from.
pub open spec fn blocked_message(held: Seq<Loaded>, wanted: Wanted, n: int) -> Seq<char> {
    "'"@ + wanted.id@ + "' needs "@ + decimal(n as nat) + " MiB more room, and it is held by "@
        + joined(busy_names(held), ", "@) + " until the requests they are answering end"@
}

/// What a request is told when there will never be room.
pub open spec fn refused_message(held: Seq<Loaded>, wanted: Wanted, n: int) -> Seq<char> {
    "'"@ + wanted.id@ + "' needs "@ + decimal(n as nat)
        + " MiB more room, and unloading every on-demand model would free only "@
        + decimal(on_demand_total(held) as nat) + " MiB"@
}

/// The decision for one start.
///
/// With no ceiling nothing is ever unloaded. Otherwise: room there already
/// fits; room that unloading candidates would make unloads the fewest of them
/// that make it, in the order they go; room that busy on-demand models hold
/// waits for them; and room that not even every on-demand model would make
/// is refused.
pub open spec fn decides(
    limit: Option<u32>,
    held: Seq<Loaded>,
    guests: Seq<Seq<char>>,
    wanted: Wanted,
    device_free_mib: Option<u64>,
    d: Decision,
) -> bool {
    match limit {
        None => d is Fits,
        Some(l) => {
            let n = need(l, held, wanted, device_free_mib);
            let o = candidate_order(held, guests);
            if n <= 0 {
                d is Fits
            } else if n <= freed(held, o) {
                &&& d is Unload
                &&& exists|k: int| 1 <= k <= o.len()
                    && freed(held, o.take(k)) >= n
                    && freed(held, o.take(k - 1)) < n
                    && views(d->Unload_0@) == names(held, o.take(k))
            } else if n <= on_demand_total(held) {
                &&& d is Blocked
                &&& d->Blocked_0@ == blocked_message(held, wanted, n)
            } else {
                &&& d is Refuse
                &&& d->Refuse_0@ == refused_message(held, wanted, n)
            }
        },
    }
}

/// Whether every name is that of a model which may be unloaded: on-demand,
/// and not being read from.
pub open spec fn only_idle_on_demand(held: Seq<Loaded>, ids: Seq<Seq<char>>) -> bool {
    forall|j: int| 0 <= j < ids.len() ==> names_a_candidate(held, #[trigger] ids[j])
}

/// Whether a name is that of a model which may be unloaded.
pub open spec fn names_a_candidate(held: Seq<Loaded>, id: Seq<char>) -> bool {
    exists|i: int| 0 <= i < held.len() && #[trigger] held[i].id@ == id && candidate(held[i])
}

/// Whether `wanted` fits once the first `k` candidates are unloaded: under
/// the ceiling, and in what the device has free where it is held to it.
pub open spec fn fits_after(
    limit: u32,
    held: Seq<Loaded>,
    guests: Seq<Seq<char>>,
    wanted: Wanted,
    device_free_mib: Option<u64>,
    k: int,
) -> bool {
    let gone = freed(held, candidate_order(held, guests).take(k));
    &&& total(held) - gone + wanted.mib <= limit
    &&& match device_free_mib {
        Some(free) => wanted.on_device ==> free + gone >= wanted.mib,
        None => true,
    }
}

proof fn lemma_freed_take(held: Seq<Loaded>, o: Seq<usize>, k: int)
    requires
        0 <= k < o.len(),
        forall|i: int| 0 <= i < o.len() ==> o[i] < held.len(),
    ensures
        freed(held, o.take(k + 1)) == freed(held, o.take(k)) + held[o[k] as int].mib,
{
    assert(o.take(k + 1).drop_last() =~= o.take(k));
}

proof fn lemma_freed_grows(held: Seq<Loaded>, o: Seq<usize>, k: int)
    requires
        0 <= k <= o.len(),
        forall|i: int| 0 <= i < o.len() ==> o[i] < held.len(),
    ensures
        freed(held, o.take(k)) <= freed(held, o),
    decreases o.len() - k,
{
    if k < o.len() {
        lemma_freed_take(held, o, k);
        lemma_freed_grows(held, o, k + 1);
    } else {
        assert(o.take(k) =~= o);
    }
}

impl Budget {
    /// A budget with this ceiling, or none.
    pub fn new(limit_mib: Option<u32>) -> (budget: Budget)
        ensures
            budget.limit() == limit_mib,
    {
        Budget { limit_mib }
    }

    /// The ceiling.
    pub closed spec fn limit(&self) -> Option<u32> {
        self.limit_mib
    }

    /// The ceiling models are unloaded to stay under, when there is one.
    pub fn limit_mib(&self) -> (limit: Option<u32>)
        ensures
            limit == self.limit(),
    {
        self.limit_mib
    }

    /// Whether `wanted` may start beside `held`, and what must go first.
    pub fn decide(&self, held: &[Loaded], wanted: &Wanted, device_free_mib: Option<u64>) -> (d: Decision)
        ensures
            decides(self.limit(), held@, Seq::empty(), *wanted, device_free_mib, d),
            d matches Decision::Unload(ids) ==> (ids@.len() > 0 && only_idle_on_demand(held@, views(ids@)) && match self.limit() {
                Some(l) => fits_after(l, held@, Seq::empty(), *wanted, device_free_mib, ids@.len() as int),
                None => false,
            }),
            d is Fits ==> match self.limit() {
                Some(l) => fits_after(l, held@, Seq::empty(), *wanted, device_free_mib, 0),
                None => true,
            },
    {
        let guests: Vec<String> = Vec::new();
        assert(views(guests@) =~= Seq::<Seq<char>>::empty());
        self.admit_with_guests(held, &guests, wanted, device_free_mib)
    }

    /// Whether `wanted` may start beside `held`, and what must go first,
    /// where `guests` names the models loaded into free room.
    pub fn admit_with_guests(
        &self,
        held: &[Loaded],
        guests: &[String],
        wanted: &Wanted,
        device_free_mib: Option<u64>,
    ) -> (d: Decision)
        ensures
            decides(self.limit(), held@, views(guests@), *wanted, device_free_mib, d),
            d matches Decision::Unload(ids) ==> (ids@.len() > 0 && only_idle_on_demand(held@, views(ids@)) && match self.limit() {
                Some(l) => fits_after(l, held@, views(guests@), *wanted, device_free_mib, ids@.len() as int),
                None => false,
            }),
            d is Fits ==> match self.limit() {
                Some(l) => fits_after(l, held@, views(guests@), *wanted, device_free_mib, 0),
                None => true,
            },
    {
        let limit = match self.limit_mib {
            None => {
                return Decision::Fits;
            },
            Some(limit) => limit,
        };
        // What is held, and what of it is on demand.
        let mut sum: u128 = 0;
        let mut on_demand: u128 = 0;
        let mut i: usize = 0;
        while i < held.len()
            invariant
                i <= held@.len(),
                sum == total(held@.take(i as int)),
                on_demand == on_demand_total(held@.take(i as int)),
                sum <= i * 0xFFFF_FFFF_FFFF_FFFFu128,
                on_demand <= sum,
            decreases held@.len() - i,
        {
            assert(held@.take(i + 1).drop_last() =~= held@.take(i as int));
            proof {
                assert(i < 0x1_0000_0000_0000_0000);
                assert((i + 1) * 0xFFFF_FFFF_FFFF_FFFFu128 == i * 0xFFFF_FFFF_FFFF_FFFFu128 + 0xFFFF_FFFF_FFFF_FFFFu128) by (nonlinear_arith);
                assert((i + 1) * 0xFFFF_FFFF_FFFF_FFFFu128 <= 0x1_0000_0000_0000_0000 * 0xFFFF_FFFF_FFFF_FFFFu128) by (nonlinear_arith)
                    requires i < 0x1_0000_0000_0000_0000;
            }
            sum = sum + held[i].mib as u128;
            if let Residency::OnDemand = held[i].residency {
                on_demand = on_demand + held[i].mib as u128;
            }
            i = i + 1;
        }
        assert(held@.take(held@.len() as int) =~= held@);
        let ledger: u128 = if sum + wanted.mib as u128 > limit as u128 {
            sum + wanted.mib as u128 - limit as u128
        } else {
            0
        };
        let device: u128 = match device_free_mib {
            Some(free) => if wanted.on_device && free < wanted.mib {
                (wanted.mib - free) as u128
            } else {
                0
            },
            None => 0,
        };
        let n: u128 = if ledger >= device { ledger } else { device };
        assert(n == need(limit, held@, *wanted, device_free_mib));
        if n == 0 {
            assert(candidate_order(held@, views(guests@)).take(0) =~= Seq::<usize>::empty());
            return Decision::Fits;
        }
        let order = candidates_in_order(held, guests);
        let ghost o = order@;
        proof {
            assert(o == candidate_order(held@, views(guests@)));
        }
        // The fewest candidates, in order, that free enough.
        let mut k: usize = 0;
        let mut gone: u128 = 0;
        while k < order.len() && gone < n
            invariant
                o == order@,
                forall|x: int| 0 <= x < o.len() ==> o[x] < held@.len(),
                k <= o.len(),
                gone == freed(held@, o.take(k as int)),
                gone <= k * 0xFFFF_FFFF_FFFF_FFFFu128,
                k == 0 || freed(held@, o.take(k - 1)) < n,
            decreases o.len() - k,
        {
            proof {
                lemma_freed_take(held@, o, k as int);
                assert(k < 0x1_0000_0000_0000_0000);
                assert((k + 1) * 0xFFFF_FFFF_FFFF_FFFFu128 == k * 0xFFFF_FFFF_FFFF_FFFFu128 + 0xFFFF_FFFF_FFFF_FFFFu128) by (nonlinear_arith);
                assert((k + 1) * 0xFFFF_FFFF_FFFF_FFFFu128 <= 0x1_0000_0000_0000_0000 * 0xFFFF_FFFF_FFFF_FFFFu128) by (nonlinear_arith)
                    requires k < 0x1_0000_0000_0000_0000;
            }
            gone = gone + held[order[k]].mib as u128;
            k = k + 1;
        }
        if gone >= n {
            let mut ids: Vec<String> = Vec::new();
            let mut m: usize = 0;
            while m < k
                invariant
                    o == order@,
                    forall|x: int| 0 <= x < o.len() ==> o[x] < held@.len(),
                    k <= o.len(),
                    m <= k,
                    views(ids@) == names(held@, o.take(m as int)),
                decreases k - m,
            {
                let ghost before = ids@;
                let id = held[order[m]].id.clone();
                assert(id@ == held@[o[m as int] as int].id@);
                ids.push(id);
                assert(ids@ == before.push(id));
                assert(views(ids@) =~= views(before).push(id@));
                assert(o.take(m + 1) =~= o.take(m as int).push(o[m as int]));
                assert(views(ids@) =~= names(held@, o.take(m + 1)));
                m = m + 1;
            }
            assert(k >= 1);
            proof {
                lemma_freed_grows(held@, o, k as int);
            }
            assert(freed(held@, o.take(k as int)) >= n && freed(held@, o.take(k - 1)) < n
                && views(ids@) == names(held@, o.take(k as int)));
            assert(ids@.len() == k);
            assert forall|j: int| 0 <= j < views(ids@).len() implies names_a_candidate(held@, #[trigger] views(ids@)[j]) by {
                assert(views(ids@)[j] == held@[o[j] as int].id@);
                assert(candidate(held@[o[j] as int]));
            }
            return Decision::Unload(ids);
        }
        assert(o.take(o.len() as int) =~= o);
        if n <= on_demand {
            let mut busy: Vec<String> = Vec::new();
            let mut j: usize = 0;
            while j < held.len()
                invariant
                    j <= held@.len(),
                    views(busy@) == busy_names(held@.take(j as int)),
                decreases held@.len() - j,
            {
                assert(held@.take(j + 1).drop_last() =~= held@.take(j as int));
                if held[j].busy {
                    if let Residency::OnDemand = held[j].residency {
                        busy.push(held[j].id.clone());
                        assert(views(busy@) =~= views(busy@).drop_last().push(held@[j as int].id@));
                    }
                }
                j = j + 1;
            }
            assert(held@.take(held@.len() as int) =~= held@);
            let mut message = String::new();
            push_str(&mut message, "'");
            push_str(&mut message, wanted.id.as_str());
            push_str(&mut message, "' needs ");
            push_decimal(&mut message, n);
            push_str(&mut message, " MiB more room, and it is held by ");
            push_joined(&mut message, &busy, ", ");
            push_str(&mut message, " until the requests they are answering end");
            assert(message@ =~= blocked_message(held@, *wanted, n as int));
            return Decision::Blocked(message);
        }
        let mut message = String::new();
        push_str(&mut message, "'");
        push_str(&mut message, wanted.id.as_str());
        push_str(&mut message, "' needs ");
        push_decimal(&mut message, n);
        push_str(&mut message, " MiB more room, and unloading every on-demand model would free only ");
        push_decimal(&mut message, on_demand);
        push_str(&mut message, " MiB");
        assert(message@ =~= refused_message(held@, *wanted, n as int));
        Decision::Refuse(message)
    }
}

/// Room is made from the models idle longest: every model an unloading
/// names was idle at least as long as any model that may be unloaded and
/// is left loaded. A model something reads from, or a resident, is never
/// among them.
pub proof fn law_the_longest_idle_are_unloaded_first(
    limit: u32,
    held: Seq<Loaded>,
    wanted: Wanted,
    device_free_mib: Option<u64>,
    d: Decision,
    o: Seq<usize>,
    x: Seq<char>,
    j: usize,
)
    requires
        decides(Some(limit), held, Seq::empty(), wanted, device_free_mib, d),
        is_candidate_order(held, Seq::empty(), o),
        d matches Decision::Unload(ids) && views(ids@).contains(x),
        j < held.len(),
        candidate(held[j as int]),
        d matches Decision::Unload(ids) && !views(ids@).contains(held[j as int].id@),
    ensures
        exists|i: int|
            0 <= i < held.len() && #[trigger] held[i].id@ == x && candidate(held[i]) && held[i].idle_secs
                >= held[j as int].idle_secs,
{
    lemma_is_the_candidate_order(held, Seq::empty(), o);
    let ids = d->Unload_0;
    let n = need(limit, held, wanted, device_free_mib);
    let k = choose|k: int|
        1 <= k <= o.len() && freed(held, o.take(k)) >= n && freed(held, o.take(k - 1)) < n && views(ids@) == names(
            held,
            o.take(k),
        );
    let gone = names(held, o.take(k));
    let m = choose|m: int| 0 <= m < gone.len() && gone[m] == x;
    assert(o.take(k)[m] == o[m]);
    let i = o[m] as int;
    assert(held[i].id@ == x);
    assert(candidate(held[j as int]));
    assert(o.contains(j));
    let p = choose|p: int| 0 <= p < o.len() && o[p] == j;
    if p < k {
        assert(o.take(k)[p] == o[p]);
        assert(gone[p] == held[j as int].id@);
    }
    assert(goes_before_idle(held, o, m, p)) by {
        assert(crate::admission::order::goes_before(held, Seq::empty(), o[m], o[p]));
    }
}

spec fn goes_before_idle(held: Seq<Loaded>, o: Seq<usize>, m: int, p: int) -> bool {
    held[o[m] as int].idle_secs >= held[o[p] as int].idle_secs
}

} // verus!

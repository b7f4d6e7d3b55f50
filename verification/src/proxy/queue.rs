//! The line of requests waiting for room, kept under the admission lock.

use vstd::prelude::*;

verus! {

/// The line with one ticket taken out of it, or unchanged for no ticket.
pub open spec fn without(line: Seq<u64>, ticket: Option<u64>) -> Seq<u64>
    decreases line.len(),
{
    if line.len() == 0 {
        line
    } else if Some(line.last()) == ticket {
        without(line.drop_last(), ticket)
    } else {
        without(line.drop_last(), ticket).push(line.last())
    }
}

proof fn lemma_without_in_order(line: Seq<u64>, ticket: Option<u64>, issued: u64)
    requires
        forall|a: int, b: int| 0 <= a < b < line.len() ==> line[a] < line[b],
        forall|a: int| 0 <= a < line.len() ==> 1 <= #[trigger] line[a] <= issued,
    ensures
        forall|a: int, b: int| 0 <= a < b < without(line, ticket).len() ==> without(line, ticket)[a] < without(line, ticket)[b],
        forall|a: int| 0 <= a < without(line, ticket).len() ==> 1 <= #[trigger] without(line, ticket)[a] <= issued,
        forall|a: int| 0 <= a < without(line, ticket).len() ==> line.contains(#[trigger] without(line, ticket)[a]),
    decreases line.len(),
{
    if line.len() > 0 {
        let rest = line.drop_last();
        lemma_without_in_order(rest, ticket, issued);
        let w = without(rest, ticket);
        assert forall|a: int| 0 <= a < w.len() implies line.contains(#[trigger] w[a]) by {
            assert(rest.contains(w[a]));
            let k = choose|k: int| 0 <= k < rest.len() && rest[k] == w[a];
            assert(line[k] == w[a]);
        }
        assert(line.contains(line.last())) by {
            assert(line[line.len() - 1] == line.last());
        }
        if Some(line.last()) != ticket {
            assert forall|a: int| 0 <= a < w.len() implies #[trigger] w[a] < line.last() by {
                assert(rest.contains(w[a]));
                let k = choose|k: int| 0 <= k < rest.len() && rest[k] == w[a];
                assert(line[k] == w[a]);
            }
        }
    }
}

/// The requests waiting for room, oldest first.
#[derive(Debug)]
pub struct Queue {
    waiting: Vec<u64>,
    issued: u64,
    reloads: u64,
}

impl Queue {
    /// The tickets in line, oldest first.
    pub closed spec fn line(&self) -> Seq<u64> {
        self.waiting@
    }

    /// The last ticket handed out, or zero before any.
    pub closed spec fn last_issued(&self) -> u64 {
        self.issued
    }

    /// How often the catalog has been swapped.
    pub closed spec fn reload_count(&self) -> u64 {
        self.reloads
    }

    /// Tickets are handed out in increasing order, so the line holds each
    /// once, oldest first, and none that was not handed out. Every line is
    /// so, from the first to the last.
    #[verifier::type_invariant]
    pub closed spec fn wf(&self) -> bool {
        &&& forall|a: int, b: int| 0 <= a < b < self.waiting@.len() ==> self.waiting@[a] < self.waiting@[b]
        &&& forall|a: int| 0 <= a < self.waiting@.len() ==> 1 <= #[trigger] self.waiting@[a] <= self.issued
    }

    /// An empty line that has handed out nothing.
    pub fn new() -> (queue: Queue)
        ensures
            queue.wf(),
            queue.line() == Seq::<u64>::empty(),
            queue.last_issued() == 0,
            queue.reload_count() == 0,
    {
        Queue { waiting: Vec::new(), issued: 0, reloads: 0 }
    }

    /// Whether a request may take room now: nobody who asked before it is
    /// still waiting. One not yet in line may only when nobody is.
    pub fn may_take(&self, ticket: Option<u64>) -> (may: bool)
        ensures
            may == (self.line().len() == 0 || Some(self.line()[0]) == ticket),
    {
        if self.waiting.len() == 0 {
            true
        } else {
            match ticket {
                Some(t) => self.waiting[0] == t,
                None => false,
            }
        }
    }

    /// Puts a request in line, once: a request already holding a ticket
    /// keeps its place.
    pub fn join(&mut self, ticket: &mut Option<u64>)
        requires
            old(self).last_issued() < u64::MAX,
        ensures
            final(self).wf(),
            final(self).reload_count() == old(self).reload_count(),
            old(ticket).is_some() ==> *final(ticket) == *old(ticket) && final(self).line() == old(self).line()
                && final(self).last_issued() == old(self).last_issued(),
            old(ticket).is_none() ==> final(self).last_issued() == old(self).last_issued() + 1
                && *final(ticket) == Some(final(self).last_issued())
                && final(self).line() == old(self).line().push(final(self).last_issued()),
    {
        proof {
            use_type_invariant(&*self);
        }
        if ticket.is_none() {
            let mut waiting: Vec<u64> = Vec::new();
            std::mem::swap(&mut waiting, &mut self.waiting);
            let issued = self.issued + 1;
            waiting.push(issued);
            self.issued = issued;
            self.waiting = waiting;
            *ticket = Some(issued);
        }
        proof {
            use_type_invariant(&*self);
        }
    }

    /// Takes a request out of line, saying whether it was in it. Everyone
    /// else keeps their place.
    pub fn leave(&mut self, ticket: Option<u64>) -> (was: bool)
        ensures
            final(self).wf(),
            final(self).last_issued() == old(self).last_issued(),
            final(self).reload_count() == old(self).reload_count(),
            was == (ticket is Some && old(self).line().contains(ticket->Some_0)),
            final(self).line() == without(old(self).line(), ticket),
    {
        proof {
            use_type_invariant(&*self);
        }
        let ghost before = self.waiting@;
        let mut kept: Vec<u64> = Vec::new();
        let mut was = false;
        let mut i: usize = 0;
        while i < self.waiting.len()
            invariant
                self.waiting@ == before,
                i <= before.len(),
                kept@ == without(before.take(i as int), ticket),
                was == (ticket is Some && before.take(i as int).contains(ticket->Some_0)),
            decreases before.len() - i,
        {
            let t = self.waiting[i];
            proof {
                assert(before.take(i + 1).drop_last() =~= before.take(i as int));
                assert(before.take(i + 1).last() == t);
            }
            if Some(t) == ticket {
                was = true;
            } else {
                kept.push(t);
            }
            proof {
                if ticket is Some {
                    let x = ticket->Some_0;
                    let next = before.take(i + 1);
                    if next.contains(x) && !before.take(i as int).contains(x) {
                        let k = choose|k: int| 0 <= k < next.len() && next[k] == x;
                        if k < i {
                            assert(before.take(i as int)[k] == x);
                        }
                        assert(t == x);
                    }
                    if before.take(i as int).contains(x) {
                        let k = choose|k: int| 0 <= k < i && before.take(i as int)[k] == x;
                        assert(before.take(i + 1)[k] == x);
                    }
                    if t == x {
                        assert(before.take(i + 1)[i as int] == x);
                    }
                }
            }
            i = i + 1;
        }
        assert(before.take(before.len() as int) =~= before);
        proof {
            lemma_without_in_order(before, ticket, self.issued);
        }
        self.waiting = kept;
        proof {
            use_type_invariant(&*self);
        }
        was
    }

    /// How many requests are in line.
    pub fn len(&self) -> (n: usize)
        ensures
            n == self.line().len(),
    {
        self.waiting.len()
    }

    /// Records that the catalog was swapped, so a request that waited
    /// through it can tell.
    pub fn note_reload(&mut self)
        requires
            old(self).reload_count() < u64::MAX,
        ensures
            final(self).reload_count() == old(self).reload_count() + 1,
            final(self).line() == old(self).line(),
            final(self).last_issued() == old(self).last_issued(),
            final(self).wf(),
    {
        proof {
            use_type_invariant(&*self);
        }
        self.reloads = self.reloads + 1;
        proof {
            use_type_invariant(&*self);
        }
    }

    /// How often the catalog has been swapped.
    pub fn reloads(&self) -> (n: u64)
        ensures
            n == self.reload_count(),
    {
        self.reloads
    }
}

impl Default for Queue {
    fn default() -> (queue: Queue)
        ensures
            queue.wf(),
            queue.line() == Seq::<u64>::empty(),
            queue.last_issued() == 0,
            queue.reload_count() == 0,
    {
        Queue::new()
    }
}

} // verus!

verus! {

proof fn lemma_without_first(line: Seq<u64>)
    requires
        line.len() >= 1,
        forall|k: int| 1 <= k < line.len() ==> #[trigger] line[k] != line[0],
    ensures
        without(line, Some(line[0])) == line.drop_first(),
    decreases line.len(),
{
    if line.len() == 1 {
        assert(without(line.drop_last(), Some(line[0])) =~= Seq::<u64>::empty());
        assert(line.drop_first() =~= Seq::<u64>::empty());
    } else {
        let rest = line.drop_last();
        assert(rest[0] == line[0]);
        assert forall|k: int| 1 <= k < rest.len() implies #[trigger] rest[k] != rest[0] by {
            assert(rest[k] == line[k]);
        }
        lemma_without_first(rest);
        assert(line.last() == line[line.len() - 1]);
        assert(line.drop_first() =~= rest.drop_first().push(line.last()));
    }
}

/// When the request at the head of the line leaves, the one behind it is
/// next: the line keeps its order, and nobody else loses a place.
pub proof fn law_leaving_hands_the_room_on(line: Seq<u64>)
    requires
        line.len() >= 1,
        forall|a: int, b: int| 0 <= a < b < line.len() ==> line[a] < line[b],
    ensures
        without(line, Some(line[0])) == line.drop_first(),
        line.len() >= 2 ==> without(line, Some(line[0]))[0] == line[1],
{
    assert forall|k: int| 1 <= k < line.len() implies #[trigger] line[k] != line[0] by {
        assert(line[0] < line[k]);
    }
    lemma_without_first(line);
}

} // verus!

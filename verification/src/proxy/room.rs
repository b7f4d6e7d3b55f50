//! Making room for a model, and waiting in turn when the room is held: the
//! decisions, step by step.
//!
//! A request that wants a model which is not running looks at the room: is
//! the catalog it arrived under still serving, has another request started
//! this very entry, does the model file exist, and what does admission say?
//! Each look ends in a child to use, a start, a failure, or a wait until a
//! model is let go. The caller holds the locks, unloads what a look names,
//! and sleeps between looks; what each look comes to is decided here.
//!
//! Two refusals that look alike and are not. A model larger than the whole
//! budget will never fit, however long anybody waits, and is refused at
//! once. A model whose room is held by something still answering will fit
//! as soon as that answer ends, and is told to wait, or to retry.

use vstd::prelude::*;

use crate::admission::Decision;
use crate::launch::failure::Failure;
use crate::proxy::queue::{without, Queue};
use crate::text::{decimal, joined, push_decimal, push_joined, push_str, views};

verus! {

/// What one look at the room came to, before anything was unloaded.
#[derive(Debug, Clone, PartialEq, Eq)]
pub enum Look {
    /// There is room now.
    Made,
    /// There is room once these are unloaded, in this order.
    Unload(Vec<String>),
    /// The room is held, by the reader or the earlier request this says.
    Held(String),
    /// The entry will not fit however long anybody waits.
    Refused(Failure),
}

/// Why a request that may not take room yet is held.
pub open spec fn in_line_text(id: Seq<char>) -> Seq<char> {
    "'"@ + id + "' is in line behind a request that asked for room first"@
}

/// One look at the room, from what admission decided.
pub fn look(id: &str, decision: Decision, may_take: bool) -> (looked: Look)
    ensures
        match decision {
            Decision::Fits => looked == Look::Made,
            Decision::Unload(ids) => if may_take {
                looked == Look::Unload(ids)
            } else {
                looked matches Look::Held(m) && m@ == in_line_text(id@)
            },
            Decision::Blocked(m) => looked matches Look::Held(h) && h@ == m@,
            Decision::Refuse(m) => looked matches Look::Refused(Failure::Refused(r)) && r@ == m@,
        },
{
    match decision {
        Decision::Fits => Look::Made,
        Decision::Unload(ids) => if may_take {
            Look::Unload(ids)
        } else {
            let mut m = String::new();
            push_str(&mut m, "'");
            push_str(&mut m, id);
            push_str(&mut m, "' is in line behind a request that asked for room first");
            Look::Held(m)
        },
        Decision::Blocked(m) => Look::Held(m),
        Decision::Refuse(m) => Look::Refused(Failure::Refused(m)),
    }
}

/// The line said before models are unloaded to make room for another.
pub open spec fn unloading_text(id: Seq<char>, ids: Seq<Seq<char>>) -> Seq<char> {
    id + ": unloading "@ + joined(ids, ", "@) + " to make room"@
}

/// The line said before models are unloaded to make room for another.
pub fn unloading_line(id: &str, ids: &Vec<String>) -> (line: String)
    ensures
        line@ == unloading_text(id@, views(ids@)),
{
    let mut line = String::new();
    push_str(&mut line, id);
    push_str(&mut line, ": unloading ");
    push_joined(&mut line, ids, ", ");
    push_str(&mut line, " to make room");
    line
}

/// Why the room is held when a model it was to take gained a reader between
/// the decision and the taking.
pub open spec fn reached_first_text(id: Seq<char>, blocker: Seq<char>) -> Seq<char> {
    "'"@ + id + "' needs room held by '"@ + blocker + "', which a request reached first"@
}

/// Why the room is held when a model it was to take gained a reader first.
pub fn reached_first(id: &str, blocker: &str) -> (held: String)
    ensures
        held@ == reached_first_text(id@, blocker@),
{
    let mut held = String::new();
    push_str(&mut held, "'");
    push_str(&mut held, id);
    push_str(&mut held, "' needs room held by '");
    push_str(&mut held, blocker);
    push_str(&mut held, "', which a request reached first");
    held
}

/// What a request is told when the catalog was reloaded while it waited.
pub open spec fn reloaded_text(id: Seq<char>) -> Seq<char> {
    "the catalog was reloaded while '"@ + id
        + "' waited for room; ask again, and it is decided under the catalog now serving"@
}

/// What a request is told when a reload dropped its entry before it was
/// admitted.
pub open spec fn dropped_text(id: Seq<char>) -> Seq<char> {
    "the catalog was reloaded before '"@ + id
        + "' was admitted; ask again, and it is decided under the catalog now serving"@
}

/// The refusal for a request whose entry a reload dropped before it was
/// admitted: asked again, it is decided under the catalog now serving.
pub fn dropped_before_admitted(id: &str) -> (failure: Failure)
    ensures
        failure matches Failure::Contended(m) && m@ == dropped_text(id@),
{
    let mut m = String::new();
    push_str(&mut m, "the catalog was reloaded before '");
    push_str(&mut m, id);
    push_str(&mut m, "' was admitted; ask again, and it is decided under the catalog now serving");
    Failure::Contended(m)
}

/// The refusal a caller sees when the wait ran out: what was holding the
/// room, and how long it waited, or, with no wait at all, how to get one.
/// Contended rather than refused, since what held the room will finish and
/// a retry can succeed.
pub open spec fn refused_text(id: Seq<char>, held: Seq<char>, waited_secs: u64) -> Seq<char> {
    if waited_secs == 0 {
        held + "; this may succeed on a retry, or set MAESTRO_ADMISSION_WAIT_SECONDS to wait for the room"@
    } else {
        held + "; '"@ + id + "' waited "@ + decimal(waited_secs as nat) + "s and the room did not free up"@
    }
}

/// The refusal a caller sees when the wait ran out with the room held.
pub fn refused(id: &str, held: &str, waited_secs: u64) -> (failure: Failure)
    ensures
        failure matches Failure::Contended(m) && m@ == refused_text(id@, held@, waited_secs),
{
    let mut m = String::new();
    push_str(&mut m, held);
    if waited_secs == 0 {
        push_str(&mut m, "; this may succeed on a retry, or set MAESTRO_ADMISSION_WAIT_SECONDS to wait for the room");
    } else {
        push_str(&mut m, "; '");
        push_str(&mut m, id);
        push_str(&mut m, "' waited ");
        push_decimal(&mut m, waited_secs as u128);
        push_str(&mut m, "s and the room did not free up");
    }
    Failure::Contended(m)
}

/// What a look at the room came to once anything it named was unloaded.
#[derive(Debug, Clone, PartialEq, Eq)]
pub enum Room {
    /// There is room now.
    Made,
    /// The room is held, as this says.
    Held(String),
}

/// Where a request goes after one look at the room.
#[derive(Debug, Clone, PartialEq, Eq)]
pub enum Next {
    /// Another request started this entry meanwhile: use its child.
    Running,
    /// The room is made: start the child.
    Start,
    /// The request is answered with this failure.
    Fail(Failure),
    /// Take a place in line, and look again once a model is let go.
    Wait,
}

/// What is settled before admission is asked: a reload since the request
/// arrived ends its wait, a child another request started is used, and a
/// model file that is not there fails the request before anything is
/// unloaded for it. `None` when admission has to be asked.
pub fn before_look(
    id: &str,
    arrived_under: u64,
    reloads: u64,
    running: bool,
    model_file: Option<Failure>,
) -> (next: Option<Next>)
    ensures
        reloads != arrived_under ==> (next matches Some(Next::Fail(Failure::Contended(m))) && m@ == reloaded_text(id@)),
        reloads == arrived_under && running ==> next == Some(Next::Running),
        reloads == arrived_under && !running ==> match model_file {
            Some(f) => next == Some(Next::Fail(f)),
            None => next is None,
        },
{
    if reloads != arrived_under {
        let mut m = String::new();
        push_str(&mut m, "the catalog was reloaded while '");
        push_str(&mut m, id);
        push_str(&mut m, "' waited for room; ask again, and it is decided under the catalog now serving");
        return Some(Next::Fail(Failure::Contended(m)));
    }
    if running {
        return Some(Next::Running);
    }
    match model_file {
        Some(f) => Some(Next::Fail(f)),
        None => None,
    }
}

/// Where a request goes once admission was asked and anything it named was
/// unloaded: room made is a start, a refusal is final, and a held room is a
/// wait until the deadline, after which the caller is told what held it.
pub fn after_look(id: &str, looked: Result<Room, Failure>, past_deadline: bool, waited_secs: u64) -> (next: Next)
    ensures
        match looked {
            Ok(Room::Made) => next == Next::Start,
            Err(f) => next == Next::Fail(f),
            Ok(Room::Held(held)) => if past_deadline {
                next matches Next::Fail(Failure::Contended(m)) && m@ == refused_text(id@, held@, waited_secs)
            } else {
                next == Next::Wait
            },
        },
{
    match looked {
        Ok(Room::Made) => Next::Start,
        Err(f) => Next::Fail(f),
        Ok(Room::Held(held)) => if past_deadline {
            Next::Fail(refused(id, held.as_str(), waited_secs))
        } else {
            Next::Wait
        },
    }
}

/// What a request does with its place in line once a look has decided where
/// it goes: a wait takes a place, keeping one it already has, and anything
/// else leaves the line -- on every way out of the wait, so nobody is left
/// in line behind a request that has gone. Says whether to wake those in
/// line, which leaving does when the request was in it, so the next may
/// look again.
pub fn settle(queue: &mut Queue, ticket: &mut Option<u64>, next: &Next) -> (ring: bool)
    requires
        old(queue).last_issued() < u64::MAX,
    ensures
        final(queue).wf(),
        final(queue).reload_count() == old(queue).reload_count(),
        *next is Wait ==> !ring && (old(ticket).is_some() ==> *final(ticket) == *old(ticket) && final(queue).line()
            == old(queue).line()) && (old(ticket).is_none() ==> *final(ticket) == Some(final(queue).last_issued())
            && final(queue).line() == old(queue).line().push(final(queue).last_issued())),
        !(*next is Wait) ==> *final(ticket) == *old(ticket) && final(queue).line() == without(
            old(queue).line(),
            *old(ticket),
        ) && ring == (*old(ticket) is Some && old(queue).line().contains((*old(ticket))->Some_0)),
{
    match next {
        Next::Wait => {
            queue.join(ticket);
            false
        },
        _ => queue.leave(*ticket),
    }
}

/// A request that has gone is in line no longer: once its ticket is taken
/// out, the line does not hold it.
pub proof fn law_a_request_that_goes_leaves_the_line(line: Seq<u64>, ticket: u64)
    ensures
        !without(line, Some(ticket)).contains(ticket),
    decreases line.len(),
{
    if line.len() > 0 {
        law_a_request_that_goes_leaves_the_line(line.drop_last(), ticket);
        let rest = without(line.drop_last(), Some(ticket));
        if line.last() != ticket {
            let w = rest.push(line.last());
            if w.contains(ticket) {
                let k = choose|k: int| 0 <= k < w.len() && w[k] == ticket;
                assert(rest[k] == ticket);
            }
        }
    }
}

/// The opening of one round of the wait, with the request's place in line
/// dealt with: a reload since the request arrived, a child another request
/// started, or a missing model file ends the wait there, and a request
/// whose wait ends leaves the line, waking those in it when it was there.
/// `None`, with the line untouched, when admission has to be asked.
pub fn open_round(
    queue: &mut Queue,
    ticket: &mut Option<u64>,
    id: &str,
    arrived_under: u64,
    running: bool,
    model_file: Option<Failure>,
) -> (opened: (Option<Next>, bool))
    ensures
        final(queue).reload_count() == old(queue).reload_count(),
        final(queue).last_issued() == old(queue).last_issued(),
        *final(ticket) == *old(ticket),
        old(queue).reload_count() != arrived_under ==> (opened.0 matches Some(Next::Fail(Failure::Contended(m)))
            && m@ == reloaded_text(id@)),
        old(queue).reload_count() == arrived_under && running ==> opened.0 == Some(Next::Running),
        old(queue).reload_count() == arrived_under && !running ==> match model_file {
            Some(f) => opened.0 == Some(Next::Fail(f)),
            None => opened.0 is None,
        },
        opened.0 is Some ==> final(queue).line() == without(old(queue).line(), *old(ticket)) && opened.1 == (
        *old(ticket) is Some && old(queue).line().contains((*old(ticket))->Some_0)),
        opened.0 is Some && *old(ticket) is Some ==> !final(queue).line().contains((*old(ticket))->Some_0),
        opened.0 is None ==> final(queue).line() == old(queue).line() && !opened.1,
{
    let next = before_look(id, arrived_under, queue.reloads(), running, model_file);
    match next {
        Some(n) => {
            let ring = queue.leave(*ticket);
            proof {
                if let Some(t) = *old(ticket) {
                    law_a_request_that_goes_leaves_the_line(old(queue).line(), t);
                }
            }
            (Some(n), ring)
        },
        None => (None, false),
    }
}

/// The close of one round of the wait, once admission was asked and what it
/// named was unloaded: room made is a start, a refusal is final, and a held
/// room is a wait, until the deadline; a wait takes a place in line, keeping
/// one the request has, and every other end leaves the line, waking those
/// in it when the request was there.
pub fn close_round(
    queue: &mut Queue,
    ticket: &mut Option<u64>,
    id: &str,
    looked: Result<Room, Failure>,
    past_deadline: bool,
    waited_secs: u64,
) -> (closed: (Next, bool))
    requires
        old(queue).last_issued() < u64::MAX,
    ensures
        final(queue).reload_count() == old(queue).reload_count(),
        match looked {
            Ok(Room::Made) => closed.0 == Next::Start,
            Err(f) => closed.0 == Next::Fail(f),
            Ok(Room::Held(held)) => if past_deadline {
                closed.0 matches Next::Fail(Failure::Contended(m)) && m@ == refused_text(id@, held@, waited_secs)
            } else {
                closed.0 == Next::Wait
            },
        },
        closed.0 is Wait ==> !closed.1 && (old(ticket).is_some() ==> *final(ticket) == *old(ticket)
            && final(queue).line() == old(queue).line()) && (old(ticket).is_none() ==> *final(ticket) == Some(
            final(queue).last_issued(),
        ) && final(queue).line() == old(queue).line().push(final(queue).last_issued())),
        !(closed.0 is Wait) ==> *final(ticket) == *old(ticket) && final(queue).line() == without(
            old(queue).line(),
            *old(ticket),
        ) && closed.1 == (*old(ticket) is Some && old(queue).line().contains((*old(ticket))->Some_0)),
        !(closed.0 is Wait) && *old(ticket) is Some ==> !final(queue).line().contains((*old(ticket))->Some_0),
{
    let next = after_look(id, looked, past_deadline, waited_secs);
    let ring = settle(queue, ticket, &next);
    proof {
        if !(next is Wait) {
            if let Some(t) = *old(ticket) {
                law_a_request_that_goes_leaves_the_line(old(queue).line(), t);
            }
        }
    }
    (next, ring)
}

} // verus!

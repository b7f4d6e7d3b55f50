use maestro_model_router::proxy::Queue;
use maestro_model_router::launch::Failure;
use maestro_model_router::proxy::room::{close_round, open_round, settle, Next, Room};

#[test]
fn queue_an_empty_line_lets_anyone_take_room() {
    assert!(Queue::default().may_take(None));
}

#[test]
fn queue_only_the_oldest_in_line_may_take_room() {
    let mut queue = Queue::default();
    let (mut first, mut second) = (None, None);
    queue.join(&mut first);
    queue.join(&mut second);

    assert!(queue.may_take(first), "the oldest may");
    assert!(!queue.may_take(second), "a later one may not");
    assert!(!queue.may_take(None), "nor one not yet in line");
}

#[test]
fn queue_joining_twice_keeps_one_place_and_leaving_hands_it_on() {
    let mut queue = Queue::default();
    let (mut first, mut second) = (None, None);
    queue.join(&mut first);
    queue.join(&mut first);
    queue.join(&mut second);
    assert_ne!(first, second, "each request its own place");

    assert!(queue.leave(first), "the oldest was in line");
    assert!(queue.may_take(second), "and the next is now first");
    assert!(!queue.leave(first), "and is not in it twice");
    assert!(!queue.leave(None), "a request never in line leaves nothing");
}

#[test]
fn room_an_empty_line_lets_anyone_take_room() {
    assert!(Queue::default().may_take(None));
}

#[test]
fn room_only_the_oldest_in_line_may_take_room() {
    let mut queue = Queue::default();
    let (mut first, mut second) = (None, None);
    queue.join(&mut first);
    queue.join(&mut second);

    assert!(queue.may_take(first), "the oldest may");
    assert!(!queue.may_take(second), "a later one may not");
    assert!(!queue.may_take(None), "nor one not yet in line");
}

#[test]
fn room_joining_twice_keeps_one_place_and_leaving_hands_it_on() {
    let mut queue = Queue::default();
    let (mut first, mut second) = (None, None);
    queue.join(&mut first);
    queue.join(&mut first);
    queue.join(&mut second);
    assert_ne!(first, second, "each request its own place");

    assert!(queue.leave(first), "the oldest was in line");
    assert!(queue.may_take(second), "and the next is now first");
    assert!(!queue.leave(first), "and is not in it twice");
    assert!(!queue.leave(None), "a request never in line leaves nothing");
}

#[test]
fn the_line_counts_who_waits() {
    let mut queue = Queue::default();
    let (mut a, mut b) = (None, None);
    queue.join(&mut a);
    queue.join(&mut b);
    assert_eq!(queue.len(), 2);
    queue.leave(a);
    assert_eq!(queue.len(), 1);
}

#[test]
fn a_reload_is_counted_and_leaves_the_line_as_it_was() {
    let mut queue = Queue::new();
    let mut ticket = None;
    queue.join(&mut ticket);
    queue.note_reload();
    assert_eq!(queue.reloads(), 1);
    assert_eq!(queue.len(), 1);
    assert!(queue.may_take(ticket));
}

#[test]
fn every_way_out_of_the_wait_leaves_the_line_and_wakes_the_next() {
    let mut queue = Queue::new();
    let (mut first, mut second) = (None, None);
    assert!(!settle(&mut queue, &mut first, &Next::Wait), "a wait wakes nobody");
    assert!(!settle(&mut queue, &mut first, &Next::Wait), "and keeps its place");
    assert!(!settle(&mut queue, &mut second, &Next::Wait));
    assert_eq!(queue.len(), 2);
    assert!(!queue.may_take(second));

    assert!(settle(&mut queue, &mut first, &Next::Start), "the oldest goes, and the line is rung");
    assert_eq!(queue.len(), 1);
    assert!(queue.may_take(second), "the next is now first");
    assert!(settle(&mut queue, &mut second, &Next::Running));
    assert_eq!(queue.len(), 0);

    let mut never = None;
    assert!(!settle(&mut queue, &mut never, &Next::Start), "a request never in line wakes nobody");
}

#[test]
fn a_reload_ends_the_wait_and_the_request_leaves_the_line() {
    let mut queue = Queue::new();
    let (mut first, mut second) = (None, None);
    let arrived_under = queue.reloads();
    let (next, ring) = close_round(&mut queue, &mut first, "a", Ok(Room::Held("busy".to_owned())), false, 0);
    assert_eq!((next, ring), (Next::Wait, false));
    let _ = close_round(&mut queue, &mut second, "b", Ok(Room::Held("busy".to_owned())), false, 0);
    assert_eq!(queue.len(), 2);

    let (opened, _) = open_round(&mut queue, &mut first, "a", arrived_under, false, None);
    assert_eq!(opened, None, "nothing settled yet: admission is asked");
    assert_eq!(queue.len(), 2, "and the line is untouched");

    queue.note_reload();
    let (opened, ring) = open_round(&mut queue, &mut first, "a", arrived_under, true, None);
    match opened {
        Some(Next::Fail(Failure::Contended(m))) => assert!(m.contains("reloaded"), "{m}"),
        other => panic!("a reload ends the wait: {other:?}"),
    }
    assert!(ring, "it was in line, so the next is woken");
    assert!(queue.may_take(second), "and the next is first");
}

#[test]
fn a_missing_model_file_ends_the_wait_before_admission_is_asked() {
    let mut queue = Queue::new();
    let mut ticket = None;
    let missing = Failure::Unavailable("no model file".to_owned());
    let (opened, ring) = open_round(&mut queue, &mut ticket, "a", 0, false, Some(missing.clone()));
    assert_eq!(opened, Some(Next::Fail(missing)));
    assert!(!ring, "never in line, so nobody is woken");
}

#[test]
fn a_refusal_is_final_and_a_held_room_past_the_deadline_is_contended() {
    let mut queue = Queue::new();
    let mut ticket = None;
    let _ = close_round(&mut queue, &mut ticket, "a", Ok(Room::Held("busy".to_owned())), false, 0);
    let refused = Failure::Refused("larger than the budget".to_owned());
    let (next, ring) = close_round(&mut queue, &mut ticket, "a", Err(refused.clone()), false, 0);
    assert_eq!(next, Next::Fail(refused));
    assert!(ring);
    assert_eq!(queue.len(), 0);

    let mut late = None;
    let (next, _) = close_round(&mut queue, &mut late, "a", Ok(Room::Held("'b' is busy".to_owned())), true, 0);
    match next {
        Next::Fail(Failure::Contended(m)) => assert!(m.contains("MAESTRO_ADMISSION_WAIT_SECONDS"), "{m}"),
        other => panic!("contended, never refused: {other:?}"),
    }
    assert_eq!(queue.len(), 0, "a request that waited not at all never joined");
}

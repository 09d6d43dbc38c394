//! The event bus: a first-in, first-out cascade. One pass takes the event at
//! the front of the queue, hands it to every handler, and puts what the
//! handlers answer at the back, until the queue is empty. The handlers are the
//! caller's; this module orders what they return.

use vstd::prelude::*;

verus! {

/// The contents of each list, in the order of the lists.
pub open spec fn contents<E>(lists: Seq<Vec<E>>) -> Seq<Seq<E>> {
    Seq::new(lists.len(), |i: int| lists[i]@)
}

/// The follow-ups of one dispatch in the order in which they are queued: those
/// of each panel in registration order, then those of the runtime, each
/// handler's own in the order in which it returned them.
pub open spec fn gathered<E>(panels: Seq<Seq<E>>, runtime: Seq<E>) -> Seq<E> {
    panels.flatten() + runtime
}

/// The event that is delivered next from `pending`, if any.
pub open spec fn front<E>(pending: Seq<E>) -> Option<E> {
    if pending.len() > 0 {
        Some(pending[0])
    } else {
        None
    }
}

/// What stays queued once the front of `pending` has been taken.
pub open spec fn rest<E>(pending: Seq<E>) -> Seq<E> {
    if pending.len() > 0 {
        pending.skip(1)
    } else {
        pending
    }
}

/// Completes the dispatch of one event: gathers what the panels, in
/// registration order, and then the runtime returned for it.
pub fn dispatch_event<E>(
    panel_responses: Vec<Vec<E>>,
    runtime_responses: Vec<E>,
) -> (responses: Vec<E>)
    ensures
        responses@ == gathered(contents(panel_responses@), runtime_responses@),
{
    let ghost panels = contents(panel_responses@);
    let mut lists = panel_responses;
    let mut last = runtime_responses;
    let mut responses: Vec<E> = Vec::new();
    let mut i: usize = 0;
    while i < lists.len()
        invariant
            i <= lists.len(),
            lists.len() == panels.len(),
            forall|j: int| i <= j < lists.len() ==> lists@[j]@ == panels[j],
            responses@ == panels.take(i as int).flatten(),
        decreases lists.len() - i,
    {
        proof {
            assert(panels.take(i as int + 1) == panels.take(i as int).push(panels[i as int]));
            panels.take(i as int).lemma_flatten_push(panels[i as int]);
        }
        responses.append(&mut lists[i]);
        i += 1;
    }
    assert(panels.take(i as int) == panels);
    responses.append(&mut last);
    responses
}

/// One step of a resolution pass. Queues `responses`, the follow-ups of the
/// event delivered last, behind what is pending, and takes the next event from
/// the front. The pass is over when nothing is left to deliver: the queue is
/// then empty.
pub fn resolve_events<E>(queue: &mut Vec<E>, responses: Vec<E>) -> (next: Option<E>)
    ensures
        next == front(old(queue)@ + responses@),
        final(queue)@ == rest(old(queue)@ + responses@),
{
    let ghost pending = old(queue)@ + responses@;
    let mut arrivals = responses;
    queue.append(&mut arrivals);
    if queue.len() > 0 {
        let event = queue.remove(0);
        assert(queue@ == pending.skip(1));
        Some(event)
    } else {
        None
    }
}

/// What a bounded pass does next.
#[derive(Debug, PartialEq, Eq)]
pub enum Step<E> {
    /// The event to hand to every handler.
    Deliver(E),
    /// Nothing is pending: the pass is over.
    Quiescent,
    /// Events are pending, and the pass has made all the deliveries it was
    /// allowed.
    Exhausted,
}

/// The next step of a pass over `pending` that may make `budget` more
/// deliveries.
pub open spec fn bounded_step<E>(pending: Seq<E>, budget: usize) -> Step<E> {
    if pending.len() == 0 {
        Step::Quiescent
    } else if budget == 0 {
        Step::Exhausted
    } else {
        Step::Deliver(pending[0])
    }
}

/// One step of a resolution pass with an iteration cap. Like
/// `resolve_events`, but each delivery takes one from `budget`, and with the
/// budget spent nothing more is delivered: what is pending stays queued. A
/// pass that starts with a budget of `n` so makes at most `n` deliveries,
/// whatever the handlers answer.
pub fn resolve_events_within<E>(
    queue: &mut Vec<E>,
    responses: Vec<E>,
    budget: &mut usize,
) -> (step: Step<E>)
    ensures
        step == bounded_step(old(queue)@ + responses@, *old(budget)),
        step is Deliver ==> final(queue)@ == rest(old(queue)@ + responses@) && *final(budget)
            == *old(budget) - 1,
        !(step is Deliver) ==> final(queue)@ == old(queue)@ + responses@ && *final(budget)
            == *old(budget),
{
    let ghost pending = old(queue)@ + responses@;
    let mut arrivals = responses;
    queue.append(&mut arrivals);
    if queue.len() == 0 {
        Step::Quiescent
    } else if *budget == 0 {
        Step::Exhausted
    } else {
        let event = queue.remove(0);
        assert(queue@ == pending.skip(1));
        *budget = *budget - 1;
        Step::Deliver(event)
    }
}

/// Each handler's follow-ups stay together and in their own order, behind
/// those of every handler registered before it and ahead of those of every
/// handler registered after it; the runtime's come last.
pub proof fn lemma_gathered_in_registration_order<E>(
    panels: Seq<Seq<E>>,
    runtime: Seq<E>,
    i: int,
)
    requires
        0 <= i < panels.len(),
    ensures
        gathered(panels, runtime) == panels.take(i).flatten() + panels[i] + panels.skip(
            i + 1,
        ).flatten() + runtime,
{
    let before = panels.take(i);
    let after = panels.skip(i + 1);
    assert(panels == before.push(panels[i]) + after);
    vstd::seq_lib::lemma_flatten_concat(before.push(panels[i]), after);
    before.lemma_flatten_push(panels[i]);
}

/// While its budget lasts, a bounded pass steps as an unbounded one: it
/// delivers the front of what is pending, and is over when nothing is.
pub proof fn lemma_budget_keeps_the_order<E>(pending: Seq<E>, budget: usize)
    requires
        budget > 0,
    ensures
        bounded_step(pending, budget) == match front(pending) {
            Some(event) => Step::Deliver(event),
            None => Step::Quiescent,
        },
{
}

/// An event that every handler ignores yields no follow-ups: where each panel
/// and the runtime return nothing, nothing is queued.
pub proof fn lemma_ignored_event_yields_no_follow_ups<E>(panels: Seq<Seq<E>>)
    requires
        forall|i: int| 0 <= i < panels.len() ==> (#[trigger] panels[i]).len() == 0,
    ensures
        gathered(panels, Seq::empty()) == Seq::<E>::empty(),
    decreases panels.len(),
{
    if panels.len() > 0 {
        lemma_ignored_event_yields_no_follow_ups(panels.drop_first());
        assert(panels.drop_first().flatten() + Seq::<E>::empty()
            == panels.drop_first().flatten());
    } else {
        assert(panels.flatten() + Seq::<E>::empty() == panels.flatten());
    }
}

/// What is pending in a pass that began with `initial`, once `rounds.len()`
/// events have been delivered and the handlers answered the k-th of them with
/// `rounds[k]`. This is the queue as `resolve_events` sees it when it takes
/// its next event: what it held, with the last follow-ups behind.
pub open spec fn pending_after<E>(initial: Seq<E>, rounds: Seq<Seq<E>>) -> Seq<E>
    decreases rounds.len(),
{
    if rounds.len() == 0 {
        initial
    } else {
        rest(pending_after(initial, rounds.drop_last())) + rounds.last()
    }
}

/// One more round: the front of what was pending is delivered, and the
/// handlers' answer to it is queued behind the rest. This is the step that
/// `resolve_events` takes from one call to the next.
pub proof fn lemma_one_more_round<E>(initial: Seq<E>, rounds: Seq<Seq<E>>, answer: Seq<E>)
    ensures
        pending_after(initial, rounds.push(answer)) == rest(pending_after(initial, rounds))
            + answer,
{
    assert(rounds.push(answer).drop_last() == rounds);
}

/// Whether a pass over `initial` gets as far as `rounds` says: each of its
/// deliveries finds an event pending.
pub open spec fn deliverable<E>(initial: Seq<E>, rounds: Seq<Seq<E>>) -> bool {
    forall|k: int|
        0 <= k < rounds.len() ==> (#[trigger] pending_after(initial, rounds.take(k))).len() > 0
}

/// The events that such a pass delivers, in the order of delivery.
pub open spec fn delivered<E>(initial: Seq<E>, rounds: Seq<Seq<E>>) -> Seq<E> {
    Seq::new(rounds.len(), |k: int| pending_after(initial, rounds.take(k))[0])
}

/// A pass that gets as far as `rounds` also gets as far as any part of it.
proof fn lemma_deliverable_prefix<E>(initial: Seq<E>, rounds: Seq<Seq<E>>, n: int)
    requires
        deliverable(initial, rounds),
        0 <= n <= rounds.len(),
    ensures
        deliverable(initial, rounds.take(n)),
{
    assert forall|k: int| 0 <= k < n implies (#[trigger] pending_after(
        initial,
        rounds.take(n).take(k),
    )).len() > 0 by {
        assert(rounds.take(n).take(k) == rounds.take(k));
    }
}

/// The follow-ups of the first `n` rounds are the first of all follow-ups.
proof fn lemma_flatten_prefix<E>(rounds: Seq<Seq<E>>, n: int)
    requires
        0 <= n <= rounds.len(),
    ensures
        rounds.flatten() == rounds.take(n).flatten() + rounds.skip(n).flatten(),
{
    assert(rounds == rounds.take(n) + rounds.skip(n));
    vstd::seq_lib::lemma_flatten_concat(rounds.take(n), rounds.skip(n));
}

/// What is pending after `rounds.len()` deliveries is everything queued so
/// far, the initial events and then the follow-ups round by round, less the
/// `rounds.len()` events at its front.
pub proof fn lemma_pending_is_the_unserved_tail<E>(initial: Seq<E>, rounds: Seq<Seq<E>>)
    requires
        deliverable(initial, rounds),
    ensures
        rounds.len() <= initial.len() + rounds.flatten().len(),
        pending_after(initial, rounds) == (initial + rounds.flatten()).skip(rounds.len() as int),
    decreases rounds.len(),
{
    if rounds.len() == 0 {
        assert(rounds.flatten() == Seq::<E>::empty());
        assert(initial + Seq::<E>::empty() == initial);
        assert(initial.skip(0) == initial);
    } else {
        let n = rounds.len() as int;
        let earlier = rounds.drop_last();
        assert(earlier == rounds.take(n - 1));
        lemma_deliverable_prefix(initial, rounds, n - 1);
        lemma_pending_is_the_unserved_tail(initial, earlier);
        assert(rounds == earlier.push(rounds.last()));
        earlier.lemma_flatten_push(rounds.last());
        let queued = initial + earlier.flatten();
        assert(pending_after(initial, rounds.take(n - 1)).len() > 0);
        assert(queued.skip(n - 1).skip(1) == queued.skip(n));
        assert(queued.skip(n) + rounds.last() == (queued + rounds.last()).skip(n));
        assert(queued + rounds.last() == initial + rounds.flatten());
    }
}

/// A pass is over exactly when it has delivered as many events as were ever
/// queued: the initial ones and every follow-up.
pub proof fn lemma_pass_is_over_when_all_is_served<E>(initial: Seq<E>, rounds: Seq<Seq<E>>)
    requires
        deliverable(initial, rounds),
    ensures
        pending_after(initial, rounds).len() == initial.len() + rounds.flatten().len()
            - rounds.len(),
        front(pending_after(initial, rounds)) is None <==> rounds.len() == initial.len()
            + rounds.flatten().len(),
{
    lemma_pending_is_the_unserved_tail(initial, rounds);
}

/// First in, first out: a pass delivers events in the order in which they
/// were queued. The k-th event delivered is the k-th of the initial events
/// followed by the follow-ups round by round, so a follow-up is delivered only
/// after everything that was queued ahead of it.
pub proof fn lemma_first_in_first_out<E>(initial: Seq<E>, rounds: Seq<Seq<E>>)
    requires
        deliverable(initial, rounds),
    ensures
        rounds.len() <= initial.len() + rounds.flatten().len(),
        delivered(initial, rounds) == (initial + rounds.flatten()).take(rounds.len() as int),
{
    lemma_pending_is_the_unserved_tail(initial, rounds);
    let queued = initial + rounds.flatten();
    assert forall|k: int| 0 <= k < rounds.len() implies delivered(initial, rounds)[k]
        == queued[k] by {
        let served = rounds.take(k);
        lemma_deliverable_prefix(initial, rounds, k);
        lemma_pending_is_the_unserved_tail(initial, served);
        lemma_flatten_prefix(rounds, k);
        assert(pending_after(initial, served).len() > 0);
        assert(queued == (initial + served.flatten()) + rounds.skip(k).flatten());
    }
    assert(delivered(initial, rounds) =~= queued.take(rounds.len() as int));
}

/// A follow-up waits its turn: when two events are pending and the handlers
/// answer the first with one follow-up and the second with none, the pass
/// delivers the first, the second, and only then the follow-up.
pub proof fn lemma_follow_up_waits_its_turn<E>(first: E, second: E, follow_up: E, later: Seq<E>)
    ensures
        deliverable(seq![first, second], seq![seq![follow_up], Seq::empty(), later]),
        delivered(seq![first, second], seq![seq![follow_up], Seq::empty(), later]) == seq![
            first,
            second,
            follow_up,
        ],
{
    let initial = seq![first, second];
    let rounds = seq![seq![follow_up], Seq::<E>::empty(), later];
    let none = rounds.take(0);
    let one = rounds.take(1);
    let two = rounds.take(2);
    assert(pending_after(initial, none) == initial);
    assert(one.drop_last() == none);
    assert(pending_after(initial, one) == seq![second, follow_up]);
    assert(two.drop_last() == one);
    assert(pending_after(initial, two) == seq![follow_up]);
    assert(delivered(initial, rounds) =~= seq![first, second, follow_up]);
}

/// When no handler answers, a pass delivers the initial events in their
/// order, one per round, and is then over with nothing pending.
pub proof fn lemma_silent_pass_delivers_the_initial_events<E>(
    initial: Seq<E>,
    rounds: Seq<Seq<E>>,
)
    requires
        rounds.len() <= initial.len(),
        forall|k: int| 0 <= k < rounds.len() ==> (#[trigger] rounds[k]).len() == 0,
    ensures
        pending_after(initial, rounds) == initial.skip(rounds.len() as int),
        delivered(initial, rounds) == initial.take(rounds.len() as int),
        rounds.len() == initial.len() ==> front(pending_after(initial, rounds)) is None,
{
    lemma_silent_pending(initial, rounds);
    assert forall|k: int| 0 <= k < rounds.len() implies delivered(initial, rounds)[k]
        == initial[k] by {
        lemma_silent_pending(initial, rounds.take(k));
    }
    assert(delivered(initial, rounds) =~= initial.take(rounds.len() as int));
}

/// What is pending when no handler has answered: the initial events less
/// those delivered.
proof fn lemma_silent_pending<E>(initial: Seq<E>, rounds: Seq<Seq<E>>)
    requires
        rounds.len() <= initial.len(),
        forall|k: int| 0 <= k < rounds.len() ==> (#[trigger] rounds[k]).len() == 0,
    ensures
        pending_after(initial, rounds) == initial.skip(rounds.len() as int),
    decreases rounds.len(),
{
    if rounds.len() == 0 {
        assert(initial.skip(0) == initial);
    } else {
        let n = rounds.len() as int;
        lemma_silent_pending(initial, rounds.drop_last());
        assert(rounds.last().len() == 0);
        assert(initial.skip(n - 1).skip(1) + rounds.last() == initial.skip(n));
    }
}

} // verus!

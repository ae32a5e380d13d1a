//! The producer side of the pipeline and the pipeline as a whole.
//!
//! The producer reads raw lines in order and classifies each one, but
//! confirms an event only when the next line arrives (or the input ends
//! cleanly): the build tool does not mark a step's completion, so
//! completion is inferred from the arrival of the next line.  An input
//! error discards the one unconfirmed event and aborts the run.

use vstd::prelude::*;

use crate::nix::{Call, CopyCommand};
use crate::parser::{classify, Line, LineV};
use crate::queue::EventQueue;
use crate::worker::{dispatch, drain, event_calls, expected_calls, lemma_event_calls_len,
    lemma_expected_calls_concat, lemma_expected_calls_index, lemma_expected_calls_push,
    lemma_ops_ok_concat, line_views, ops_ok};
use crate::Error;

verus! {

/// The views of the input items: each is a line read, or the error that
/// ended reading.
pub open spec fn item_views(input: Seq<Result<String, Error>>) -> Seq<
    Result<Seq<char>, Seq<char>>,
> {
    input.map(
        |i: int, item: Result<String, Error>|
            match item {
                Ok(s) => Ok(s@),
                Err(e) => Err(e@),
            },
    )
}

/// The position of the first read error; the input's length when every
/// item was read cleanly.
pub open spec fn first_err(items: Seq<Result<Seq<char>, Seq<char>>>) -> int
    decreases items.len(),
{
    if items.len() == 0 {
        0
    } else if items[0] is Err {
        0
    } else {
        1 + first_err(items.drop_first())
    }
}

/// Whether every item of the input was read cleanly.
pub open spec fn input_clean(items: Seq<Result<Seq<char>, Seq<char>>>) -> bool {
    first_err(items) == items.len()
}

/// The first read error of an input that has one.
pub open spec fn input_error(items: Seq<Result<Seq<char>, Seq<char>>>) -> Seq<char> {
    items[first_err(items)]->Err_0
}

/// How many events get confirmed: all of them on clean input; one behind
/// the first error otherwise, since the event of the line before the
/// error is still waiting for its confirmation when the error arrives.
pub open spec fn confirmed_count(items: Seq<Result<Seq<char>, Seq<char>>>) -> int {
    if input_clean(items) {
        items.len() as int
    } else if first_err(items) > 0 {
        first_err(items) - 1
    } else {
        0
    }
}

/// The classifications of the first `n` lines of the input.
pub open spec fn classified_prefix(items: Seq<Result<Seq<char>, Seq<char>>>, n: int) -> Seq<
    LineV,
> {
    Seq::new(n as nat, |k: int| classify(items[k]->Ok_0))
}

/// The events the producer confirms, in order.
pub open spec fn confirmed_events(items: Seq<Result<Seq<char>, Seq<char>>>) -> Seq<LineV> {
    classified_prefix(items, confirmed_count(items))
}

/// The first error comes after any prefix of clean reads.
proof fn lemma_first_err_ge(items: Seq<Result<Seq<char>, Seq<char>>>, i: int)
    requires
        0 <= i <= items.len(),
        forall|j: int| 0 <= j < i ==> items[j] is Ok,
    ensures
        first_err(items) >= i,
    decreases i,
{
    lemma_first_err_le(items);
    if i > 0 {
        assert(items[0] is Ok);
        assert forall|j: int| 0 <= j < i - 1 implies items.drop_first()[j] is Ok by {
            assert(items[j + 1] is Ok);
        }
        lemma_first_err_ge(items.drop_first(), i - 1);
        assert(first_err(items) == 1 + first_err(items.drop_first())) by {
            reveal_with_fuel(first_err, 2);
        }
    }
}

/// The first error is exactly where a clean prefix meets an error.
proof fn lemma_first_err_at(items: Seq<Result<Seq<char>, Seq<char>>>, i: int)
    requires
        0 <= i < items.len(),
        forall|j: int| 0 <= j < i ==> items[j] is Ok,
        items[i] is Err,
    ensures
        first_err(items) == i,
        !input_clean(items),
        input_error(items) == items[i]->Err_0,
    decreases i,
{
    if i == 0 {
    } else {
        assert(items[0] is Ok);
        lemma_first_err_at(items.drop_first(), i - 1);
    }
    lemma_first_err_le(items);
}

/// The first error never lies past the input's end.
proof fn lemma_first_err_le(items: Seq<Result<Seq<char>, Seq<char>>>)
    ensures
        0 <= first_err(items) <= items.len(),
    decreases items.len(),
{
    if items.len() > 0 && !(items[0] is Err) {
        lemma_first_err_le(items.drop_first());
    }
}

/// One producer step: the arrival of a new line confirms whatever event
/// was pending, and the new line's own event becomes the pending one.
/// Outside loops reading a live stream drive the producer with this.
pub fn producer_step(pending: Option<Line>, line: &str) -> (r: (Option<Line>, Line))
    ensures
        r.0 == pending,
        r.1@ == classify(line@),
{
    let parsed = Line::parse(line);
    let event = parsed.unwrap();
    (pending, event)
}

/// The producer over a whole input: classify each line in order and
/// confirm each event when the next line arrives.  The confirmed events
/// are handed back in order; an input error discards the unconfirmed
/// event, confirms nothing further, and is handed back as the outcome.
pub fn process_stdin(input: Vec<Result<String, Error>>) -> (r: (Vec<Line>, Result<(), Error>))
    ensures
        line_views(r.0@) == confirmed_events(item_views(input@)),
        r.1 is Ok <==> input_clean(item_views(input@)),
        r.1 is Err ==> r.1->Err_0@ == input_error(item_views(input@)),
{
    let ghost items = item_views(input@);
    let mut events: Vec<Line> = Vec::new();
    let mut pending: Option<Line> = None;
    let mut i: usize = 0;
    while i < input.len()
        invariant
            items == item_views(input@),
            items.len() == input@.len(),
            0 <= i <= input@.len(),
            forall|j: int| 0 <= j < i ==> items[j] is Ok,
            i == 0 ==> pending is None && events@.len() == 0,
            i > 0 ==> pending is Some && pending->0@ == classify(items[i - 1]->Ok_0),
            i > 0 ==> line_views(events@) == classified_prefix(items, i - 1),
        decreases input@.len() - i,
    {
        match &input[i] {
            Err(e) => {
                proof {
                    lemma_first_err_at(items, i as int);
                    assert(line_views(events@) =~= confirmed_events(items));
                }
                return (events, Err(Error::new(e.message())));
            },
            Ok(s) => {
                let (prev, next) = producer_step(pending, s.as_str());
                pending = Some(next);
                match prev {
                    Some(confirmed) => {
                        let ghost before = events@;
                        events.push(confirmed);
                        proof {
                            assert forall|k: int|
                                0 <= k < i as int implies line_views(events@)[k]
                                == classified_prefix(items, i as int)[k] by {
                                if k < i as int - 1 {
                                    assert(line_views(before)[k] == classified_prefix(
                                        items,
                                        i as int - 1,
                                    )[k]);
                                    assert(events@[k] == before[k]);
                                } else {
                                    assert(events@[k] == confirmed);
                                }
                            }
                            assert(line_views(events@) =~= classified_prefix(items, i as int));
                        }
                    },
                    None => {},
                }
            },
        }
        i += 1;
    }
    proof {
        lemma_first_err_ge(items, items.len() as int);
        lemma_first_err_le(items);
        assert(input_clean(items));
    }
    match pending {
        Some(confirmed) => {
            let ghost before = events@;
            let ghost n = items.len() as int;
            events.push(confirmed);
            proof {
                assert forall|k: int|
                    0 <= k < n implies line_views(events@)[k] == classified_prefix(items, n)[k] by {
                    if k < n - 1 {
                        assert(line_views(before)[k] == classified_prefix(items, n - 1)[k]);
                        assert(events@[k] == before[k]);
                    } else {
                        assert(events@[k] == confirmed);
                    }
                }
                assert(line_views(events@) =~= confirmed_events(items));
            }
            (events, Ok(()))
        },
        None => {
            proof {
                assert(line_views(events@) =~= confirmed_events(items));
            }
            (events, Ok(()))
        },
    }
}


/// Lookahead delay: two cleanly read lines confirm both their events, in
/// order.
pub proof fn lookahead_two_good(l1: Seq<char>, l2: Seq<char>)
    ensures
        input_clean(seq![Ok(l1), Ok(l2)]),
        confirmed_events(seq![Ok(l1), Ok(l2)]) =~= seq![classify(l1), classify(l2)],
{
    let items: Seq<Result<Seq<char>, Seq<char>>> = seq![Ok(l1), Ok(l2)];
    assert(items.drop_first() =~= seq![Ok::<Seq<char>, Seq<char>>(l2)]);
    assert(items.drop_first().drop_first() =~= Seq::<Result<Seq<char>, Seq<char>>>::empty());
    assert(first_err(items) == 2) by {
        reveal_with_fuel(first_err, 4);
    }
}

/// Lookahead delay: one cleanly read line followed by a read error
/// confirms nothing; the error propagates.
pub proof fn lookahead_one_then_err(l1: Seq<char>, e: Seq<char>)
    ensures
        !input_clean(seq![Ok(l1), Err(e)]),
        confirmed_events(seq![Ok(l1), Err(e)]) =~= Seq::<LineV>::empty(),
        input_error(seq![Ok(l1), Err(e)]) == e,
{
    let items: Seq<Result<Seq<char>, Seq<char>>> = seq![Ok(l1), Err(e)];
    assert(items.drop_first() =~= seq![Err::<Seq<char>, Seq<char>>(e)]);
    assert(first_err(items) == 1) by {
        reveal_with_fuel(first_err, 3);
    }
}

/// Lookahead delay: two cleanly read lines followed by a read error
/// confirm exactly the first line's event; the second is never confirmed
/// and the error propagates.
pub proof fn lookahead_two_then_err(l1: Seq<char>, l2: Seq<char>, e: Seq<char>)
    ensures
        !input_clean(seq![Ok(l1), Ok(l2), Err(e)]),
        confirmed_events(seq![Ok(l1), Ok(l2), Err(e)]) =~= seq![classify(l1)],
        input_error(seq![Ok(l1), Ok(l2), Err(e)]) == e,
{
    let items: Seq<Result<Seq<char>, Seq<char>>> = seq![Ok(l1), Ok(l2), Err(e)];
    assert(items.drop_first() =~= seq![Ok::<Seq<char>, Seq<char>>(l2), Err::<Seq<char>, Seq<char>>(e)]);
    assert(items.drop_first().drop_first() =~= seq![Err::<Seq<char>, Seq<char>>(e)]);
    assert(first_err(items) == 2) by {
        reveal_with_fuel(first_err, 4);
    }
}

/// The events already handed to the worker when a read error arrives:
/// the confirmed events the bounded queue has already pushed out of its
/// window of `cap` buffered events.  Events still buffered, like the one
/// unconfirmed event, are discarded by the abort.
pub open spec fn processed_on_error(items: Seq<Result<Seq<char>, Seq<char>>>, cap: nat) -> Seq<
    LineV,
> {
    let conf = confirmed_events(items);
    conf.take(if conf.len() > cap {
        conf.len() - cap
    } else {
        0
    } as int)
}

/// How an aborted run relates the backend's log to the input: either the
/// read error surfaced after the events already pushed out of the queue's
/// window, or some event's single operation failed right after being asked.
pub open spec fn aborted_done(items: Seq<Result<Seq<char>, Seq<char>>>, cap: nat) -> Seq<
    LineV,
> {
    if input_clean(items) {
        confirmed_events(items)
    } else {
        processed_on_error(items, cap)
    }
}

pub open spec fn aborted_calls<B: CopyCommand>(
    items: Seq<Result<Seq<char>, Seq<char>>>,
    cap: nat,
    skip_cached: bool,
    b0: B,
    after: Seq<Call>,
    err: Seq<char>,
) -> bool {
    ||| (!input_clean(items) && after == b0.calls() + expected_calls(
        aborted_done(items, cap),
        skip_cached,
        b0.dest(),
    ) && ops_ok(b0, expected_calls(aborted_done(items, cap), skip_cached, b0.dest())) && err
        == input_error(items))
    ||| (exists|j: int|
        0 <= j < aborted_done(items, cap).len() && #[trigger] event_calls(
            aborted_done(items, cap)[j],
            skip_cached,
            b0.dest(),
        ).len() == 1 && !b0.op_ok(
            event_calls(aborted_done(items, cap)[j], skip_cached, b0.dest())[0],
        ) && err == b0.op_err(
            event_calls(aborted_done(items, cap)[j], skip_cached, b0.dest())[0],
        ) && ops_ok(
            b0,
            expected_calls(aborted_done(items, cap).take(j), skip_cached, b0.dest()),
        ) && after == b0.calls() + expected_calls(
            aborted_done(items, cap).take(j + 1),
            skip_cached,
            b0.dest(),
        ))
}

/// A refused operation at position `j` of the processed events is one way
/// a run aborts.
proof fn lemma_aborted_at<B: CopyCommand>(
    items: Seq<Result<Seq<char>, Seq<char>>>,
    cap: nat,
    skip_cached: bool,
    b0: B,
    after: Seq<Call>,
    err: Seq<char>,
    j: int,
)
    requires
        0 <= j < aborted_done(items, cap).len(),
        event_calls(aborted_done(items, cap)[j], skip_cached, b0.dest()).len() == 1,
        !b0.op_ok(event_calls(aborted_done(items, cap)[j], skip_cached, b0.dest())[0]),
        err == b0.op_err(event_calls(aborted_done(items, cap)[j], skip_cached, b0.dest())[0]),
        ops_ok(b0, expected_calls(aborted_done(items, cap).take(j), skip_cached, b0.dest())),
        after == b0.calls() + expected_calls(
            aborted_done(items, cap).take(j + 1),
            skip_cached,
            b0.dest(),
        ),
    ensures
        aborted_calls(items, cap, skip_cached, b0, after, err),
{
    assert(event_calls(aborted_done(items, cap)[j], skip_cached, b0.dest()).len() == 1);
}

/// A shorter classified prefix is a prefix of a longer one.
proof fn lemma_cp_take(items: Seq<Result<Seq<char>, Seq<char>>>, m: int, n: int)
    requires
        0 <= m <= n,
    ensures
        classified_prefix(items, n).take(m) =~= classified_prefix(items, m),
{
}

/// Make room or make progress: process the oldest buffered event.
fn step_worker<B: CopyCommand>(queue: &mut EventQueue, backend: &mut B, skip_cached: bool) -> (r:
    Result<(), Error>)
    requires
        old(queue)@.len() > 0,
    ensures
        final(queue)@ == old(queue)@.drop_first(),
        final(queue).cap() == old(queue).cap(),
        final(queue).wf() || !old(queue).wf(),
        final(backend).dest() == old(backend).dest(),
        final(backend).calls() == old(backend).calls() + event_calls(
            old(queue)@[0]@,
            skip_cached,
            old(backend).dest(),
        ),
        forall|c: Call| final(backend).op_ok(c) == old(backend).op_ok(c),
        forall|c: Call| final(backend).op_err(c) == old(backend).op_err(c),
        r is Ok <==> (event_calls(old(queue)@[0]@, skip_cached, old(backend).dest()).len() == 0
            || old(backend).op_ok(
            event_calls(old(queue)@[0]@, skip_cached, old(backend).dest())[0],
        )),
        r is Err ==> event_calls(old(queue)@[0]@, skip_cached, old(backend).dest()).len() == 1
            && r->Err_0@ == old(backend).op_err(
            event_calls(old(queue)@[0]@, skip_cached, old(backend).dest())[0],
        ),
{
    let oldest = queue.dequeue();
    let r = dispatch(oldest, backend, skip_cached);
    proof {
        lemma_event_calls_len(oldest@, skip_cached, old(backend).dest());
    }
    r
}

/// The whole pipeline, one cooperative schedule of it: the producer
/// classifies and confirms lines as `process_stdin` does, the confirmed
/// events pass through a bounded FIFO queue, and the worker processes
/// them strictly in confirmation order, asking the backend for at most
/// one operation at a time.  When the queue is full the oldest event is
/// processed before the next one is accepted (the producer's
/// backpressure); on clean exhaustion the producer stops confirming and
/// the worker drains every buffered event before the run completes:
/// no confirmed event is ever dropped.
///
/// A run completes exactly when every line is read cleanly and the
/// backend lets every confirmed operation succeed; it then asked exactly
/// the confirmed events' operations, in order.  A read error aborts the
/// run with that error after the events already pushed out of the
/// queue's window; a refused operation aborts it right after that
/// operation, with the backend's error.
#[verifier::rlimit(60)]
pub fn run<B: CopyCommand>(
    input: Vec<Result<String, Error>>,
    backend: &mut B,
    skip_cached: bool,
    capacity: usize,
) -> (r: Result<(), Error>)
    requires
        capacity >= 1,
    ensures
        final(backend).dest() == old(backend).dest(),
        forall|c: Call| final(backend).op_ok(c) == old(backend).op_ok(c),
        forall|c: Call| final(backend).op_err(c) == old(backend).op_err(c),
        r is Ok <==> input_clean(item_views(input@)) && ops_ok(
            *old(backend),
            expected_calls(
                confirmed_events(item_views(input@)),
                skip_cached,
                old(backend).dest(),
            ),
        ),
        r is Ok ==> final(backend).calls() == old(backend).calls() + expected_calls(
            confirmed_events(item_views(input@)),
            skip_cached,
            old(backend).dest(),
        ),
        r is Err ==> aborted_calls(
            item_views(input@),
            capacity as nat,
            skip_cached,
            *old(backend),
            final(backend).calls(),
            r->Err_0@,
        ),
{
    let ghost items = item_views(input@);
    let ghost dest = old(backend).dest();
    let mut queue = EventQueue::new(capacity);
    let mut pending: Option<Line> = None;
    let ghost mut c: int = 0;
    let ghost mut p: int = 0;
    let mut i: usize = 0;
    while i < input.len()
        invariant
            items == item_views(input@),
            items.len() == input@.len(),
            0 <= i <= input@.len(),
            capacity >= 1,
            forall|j: int| 0 <= j < i ==> items[j] is Ok,
            i == 0 ==> pending is None && c == 0,
            i > 0 ==> pending is Some && pending->0@ == classify(items[i - 1]->Ok_0) && c == i
                - 1,
            0 <= p <= c <= items.len(),
            p == if c > capacity {
                c - capacity
            } else {
                0
            },
            line_views(queue@) == classified_prefix(items, c).skip(p),
            queue@.len() == c - p,
            queue.cap() == capacity as nat,
            queue.wf(),
            dest == old(backend).dest(),
            backend.dest() == dest,
            forall|op: Call| backend.op_ok(op) == old(backend).op_ok(op),
            forall|op: Call| backend.op_err(op) == old(backend).op_err(op),
            backend.calls() == old(backend).calls() + expected_calls(
                classified_prefix(items, c).take(p),
                skip_cached,
                dest,
            ),
            ops_ok(
                *old(backend),
                expected_calls(classified_prefix(items, c).take(p), skip_cached, dest),
            ),
        decreases input@.len() - i,
    {
        match &input[i] {
            Err(e) => {
                proof {
                    lemma_first_err_at(items, i as int);
                    assert(confirmed_count(items) == c);
                    assert(confirmed_events(items) =~= classified_prefix(items, c));
                    assert(processed_on_error(items, capacity as nat) =~= classified_prefix(
                        items,
                        c,
                    ).take(p));
                    assert(aborted_calls(
                        items,
                        capacity as nat,
                        skip_cached,
                        *old(backend),
                        backend.calls(),
                        e@,
                    ));
                }
                return Err(Error::new(e.message()));
            },
            Ok(s) => {
                let (prev, next) = producer_step(pending, s.as_str());
                pending = Some(next);
                match prev {
                    Some(confirmed) => {
                        if queue.is_full() {
                            let ghost q_before = queue@;
                            let step = step_worker(&mut queue, backend, skip_cached);
                            proof {
                                assert(q_before[0]@ == line_views(q_before)[0]);
                                assert(q_before[0]@ == classified_prefix(items, c)[p]);
                                assert forall|k: int|
                                    0 <= k < queue@.len() implies line_views(queue@)[k]
                                    == classified_prefix(items, c).skip(p + 1)[k] by {
                                    assert(queue@[k] == q_before[k + 1]);
                                    assert(line_views(q_before)[k + 1] == classified_prefix(
                                        items,
                                        c,
                                    ).skip(p)[k + 1]);
                                }
                                assert(line_views(queue@) =~= classified_prefix(items, c).skip(
                                    p + 1,
                                ));
                                lemma_expected_calls_push(
                                    classified_prefix(items, c).take(p),
                                    classified_prefix(items, c)[p],
                                    skip_cached,
                                    dest,
                                );
                                assert(classified_prefix(items, c).take(p).push(
                                    classified_prefix(items, c)[p],
                                ) =~= classified_prefix(items, c).take(p + 1));
                                assert(backend.calls() == old(backend).calls() + expected_calls(
                                    classified_prefix(items, c).take(p + 1),
                                    skip_cached,
                                    dest,
                                ));
                            }
                            match step {
                                Ok(_) => {
                                    proof {
                                        lemma_event_calls_len(
                                            classified_prefix(items, c)[p],
                                            skip_cached,
                                            dest,
                                        );
                                        lemma_ops_ok_concat(
                                            *old(backend),
                                            expected_calls(
                                                classified_prefix(items, c).take(p),
                                                skip_cached,
                                                dest,
                                            ),
                                            event_calls(
                                                classified_prefix(items, c)[p],
                                                skip_cached,
                                                dest,
                                            ),
                                        );
                                        assert(ops_ok(
                                            *old(backend),
                                            event_calls(
                                                classified_prefix(items, c)[p],
                                                skip_cached,
                                                dest,
                                            ),
                                        ));
                                        assert(expected_calls(
                                            classified_prefix(items, c).take(p + 1),
                                            skip_cached,
                                            dest,
                                        ) =~= expected_calls(
                                            classified_prefix(items, c).take(p),
                                            skip_cached,
                                            dest,
                                        ) + event_calls(
                                            classified_prefix(items, c)[p],
                                            skip_cached,
                                            dest,
                                        ));
                                    }
                                },
                                Err(e) => {
                                    proof {
                                        assert(items[i as int] is Ok);
                                        lemma_first_err_ge(items, i as int + 1);
                                        lemma_first_err_le(items);
                                        let count = confirmed_count(items);
                                        assert(count >= i as int);
                                        let done = aborted_done(items, capacity as nat);
                                        assert(c == i as int - 1);
                                        assert(p == c - capacity);
                                        assert(p < done.len());
                                        lemma_event_calls_len(
                                            classified_prefix(items, c)[p],
                                            skip_cached,
                                            dest,
                                        );
                                        assert(done[p] == classified_prefix(items, c)[p]);
                                        assert(done.take(p + 1) =~= classified_prefix(
                                            items,
                                            c,
                                        ).take(p + 1));
                                        assert(event_calls(done[p], skip_cached, dest).len() == 1);
                                        assert(backend.calls() == old(backend).calls()
                                            + expected_calls(done.take(p + 1), skip_cached, dest));
                                        assert(!old(backend).op_ok(
                                            event_calls(done[p], skip_cached, dest)[0],
                                        ));
                                        assert(e@ == old(backend).op_err(
                                            event_calls(done[p], skip_cached, dest)[0],
                                        ));
                                        assert(done.take(p) =~= classified_prefix(items, c).take(
                                            p,
                                        ));
                                        if input_clean(items) {
                                            lemma_expected_calls_index(
                                                confirmed_events(items),
                                                p,
                                                skip_cached,
                                                dest,
                                            );
                                            assert(!ops_ok(
                                                *old(backend),
                                                expected_calls(
                                                    confirmed_events(items),
                                                    skip_cached,
                                                    dest,
                                                ),
                                            ));
                                        }
                                        lemma_aborted_at(
                                            items,
                                            capacity as nat,
                                            skip_cached,
                                            *old(backend),
                                            backend.calls(),
                                            e@,
                                            p,
                                        );
                                    }
                                    return Err(e);
                                },
                            }
                            proof {
                                p = p + 1;
                            }
                        }
                        let ghost q_before = queue@;
                        queue.enqueue(confirmed);
                        proof {
                            c = c + 1;
                            assert forall|k: int|
                                0 <= k < queue@.len() implies line_views(queue@)[k]
                                == classified_prefix(items, c).skip(p)[k] by {
                                if k < queue@.len() - 1 {
                                    assert(queue@[k] == q_before[k]);
                                    assert(line_views(q_before)[k] == classified_prefix(
                                        items,
                                        c - 1,
                                    ).skip(p)[k]);
                                } else {
                                    assert(queue@[k] == confirmed);
                                }
                            }
                            assert(line_views(queue@) =~= classified_prefix(items, c).skip(p));
                            lemma_cp_take(items, p, c - 1);
                            lemma_cp_take(items, p, c);
                            assert(classified_prefix(items, c).take(p) =~= classified_prefix(
                                items,
                                c - 1,
                            ).take(p));
                        }
                    },
                    None => {},
                }
            },
        }
        i += 1;
    }
    proof {
        lemma_first_err_ge(items, items.len() as int);
        lemma_first_err_le(items);
        assert(input_clean(items));
        assert(confirmed_count(items) == items.len());
    }
    let ghost q_final = queue@;
    let ghost b_pre = *backend;
    let dr = drain(&mut queue, backend, skip_cached);
    match dr {
        Ok(_) => {
            proof {
                lemma_expected_calls_concat(
                    classified_prefix(items, c).take(p),
                    classified_prefix(items, c).skip(p),
                    skip_cached,
                    dest,
                );
                assert(classified_prefix(items, c).take(p) + classified_prefix(items, c).skip(p)
                    =~= classified_prefix(items, c));
                assert(backend.calls() == old(backend).calls() + expected_calls(
                    classified_prefix(items, c),
                    skip_cached,
                    dest,
                ));
                let skipped = expected_calls(
                    classified_prefix(items, c).skip(p),
                    skip_cached,
                    dest,
                );
                assert forall|jx: int| 0 <= jx < skipped.len() implies old(backend).op_ok(
                    skipped[jx],
                ) by {
                    assert(b_pre.op_ok(skipped[jx]));
                }
                lemma_ops_ok_concat(
                    *old(backend),
                    expected_calls(classified_prefix(items, c).take(p), skip_cached, dest),
                    skipped,
                );
                assert(ops_ok(
                    *old(backend),
                    expected_calls(classified_prefix(items, c), skip_cached, dest),
                ));
            }
        },
        Err(e) => {
            proof {
                let views = line_views(q_final);
                let j1 = choose|j1: int|
                    0 <= j1 < views.len() && event_calls(views[j1], skip_cached, dest).len() == 1
                        && !b_pre.op_ok(event_calls(views[j1], skip_cached, dest)[0]) && e@
                        == b_pre.op_err(event_calls(views[j1], skip_cached, dest)[0]) && ops_ok(
                        b_pre,
                        expected_calls(views.take(j1), skip_cached, dest),
                    ) && backend.calls() == (old(backend).calls() + expected_calls(
                        classified_prefix(items, c).take(p),
                        skip_cached,
                        dest,
                    )) + expected_calls(views.take(j1 + 1), skip_cached, dest);
                let j = p + j1;
                lemma_expected_calls_concat(
                    classified_prefix(items, c).take(p),
                    views.take(j1 + 1),
                    skip_cached,
                    dest,
                );
                assert(classified_prefix(items, c).take(p) + views.take(j1 + 1)
                    =~= classified_prefix(items, c).take(j + 1));
                let done = aborted_done(items, capacity as nat);
                assert(done == confirmed_events(items));
                assert(done.take(j + 1) =~= classified_prefix(items, c).take(j + 1));
                assert(done[j] == views[j1]);
                assert(0 <= j < done.len());
                assert(event_calls(done[j], skip_cached, dest).len() == 1);
                assert(backend.calls() == old(backend).calls() + expected_calls(
                    done.take(j + 1),
                    skip_cached,
                    dest,
                ));
                assert(!old(backend).op_ok(event_calls(done[j], skip_cached, dest)[0]));
                assert(e@ == old(backend).op_err(event_calls(done[j], skip_cached, dest)[0]));
                let early = expected_calls(views.take(j1), skip_cached, dest);
                assert forall|jx: int| 0 <= jx < early.len() implies old(backend).op_ok(
                    early[jx],
                ) by {
                    assert(b_pre.op_ok(early[jx]));
                }
                lemma_expected_calls_concat(
                    classified_prefix(items, c).take(p),
                    views.take(j1),
                    skip_cached,
                    dest,
                );
                assert(classified_prefix(items, c).take(p) + views.take(j1)
                    =~= classified_prefix(items, c).take(j));
                lemma_ops_ok_concat(
                    *old(backend),
                    expected_calls(classified_prefix(items, c).take(p), skip_cached, dest),
                    early,
                );
                assert(done.take(j) =~= classified_prefix(items, c).take(j));
                assert(ops_ok(
                    *old(backend),
                    expected_calls(done.take(j), skip_cached, dest),
                ));
                lemma_expected_calls_index(confirmed_events(items), j, skip_cached, dest);
                assert(!ops_ok(
                    *old(backend),
                    expected_calls(confirmed_events(items), skip_cached, dest),
                ));
                lemma_aborted_at(
                    items,
                    capacity as nat,
                    skip_cached,
                    *old(backend),
                    backend.calls(),
                    e@,
                    j,
                );
            }
            return Err(e);
        },
    }
    match pending {
        Some(confirmed) => {
            let ghost b_mid = *backend;
            let step = dispatch(confirmed, backend, skip_cached);
            proof {
                lemma_expected_calls_push(
                    classified_prefix(items, c),
                    confirmed@,
                    skip_cached,
                    dest,
                );
                assert(classified_prefix(items, c).push(confirmed@) =~= confirmed_events(items));
                assert(backend.calls() == old(backend).calls() + expected_calls(
                    confirmed_events(items),
                    skip_cached,
                    dest,
                ));
                lemma_event_calls_len(confirmed@, skip_cached, dest);
            }
            match step {
                Ok(_) => {
                    proof {
                        let last = event_calls(confirmed@, skip_cached, dest);
                        assert forall|jx: int| 0 <= jx < last.len() implies old(backend).op_ok(
                            last[jx],
                        ) by {
                            assert(b_mid.op_ok(last[0]));
                        }
                        lemma_ops_ok_concat(
                            *old(backend),
                            expected_calls(classified_prefix(items, c), skip_cached, dest),
                            last,
                        );
                        assert(ops_ok(
                            *old(backend),
                            expected_calls(confirmed_events(items), skip_cached, dest),
                        ));
                    }
                    Ok(())
                },
                Err(e) => {
                    proof {
                        let done = aborted_done(items, capacity as nat);
                        assert(done == confirmed_events(items));
                        let j = c;
                        assert(done[j] == confirmed@);
                        assert(done.take(j + 1) =~= done);
                        assert(event_calls(done[j], skip_cached, dest).len() == 1);
                        assert(backend.calls() == old(backend).calls() + expected_calls(
                            done.take(j + 1),
                            skip_cached,
                            dest,
                        ));
                        assert(!old(backend).op_ok(event_calls(done[j], skip_cached, dest)[0]));
                        assert(e@ == old(backend).op_err(
                            event_calls(done[j], skip_cached, dest)[0],
                        ));
                        assert(done.take(j) =~= classified_prefix(items, c));
                        assert(ops_ok(
                            *old(backend),
                            expected_calls(done.take(j), skip_cached, dest),
                        ));
                        lemma_expected_calls_index(confirmed_events(items), j, skip_cached, dest);
                        assert(!ops_ok(
                            *old(backend),
                            expected_calls(confirmed_events(items), skip_cached, dest),
                        ));
                        lemma_aborted_at(
                            items,
                            capacity as nat,
                            skip_cached,
                            *old(backend),
                            backend.calls(),
                            e@,
                            j,
                        );
                    }
                    Err(e)
                },
            }
        },
        None => {
            proof {
                assert(c == 0 && items.len() == 0);
                assert(confirmed_events(items) =~= classified_prefix(items, c));
            }
            Ok(())
        },
    }
}

} // verus!

//! The single consumer of the event queue: it processes events strictly
//! one at a time, in FIFO order, and asks the backend for at most one
//! operation per event.

use vstd::prelude::*;

use crate::nix::{Call, CallRecord, CopyCommand};
use crate::parser::{Line, LineV};
use crate::queue::EventQueue;
use crate::{DrvFile, Error, StorePath};

verus! {

/// The views of a sequence of classified lines.
pub open spec fn line_views(lines: Seq<Line>) -> Seq<LineV> {
    lines.map(|i: int, l: Line| l@)
}

/// The operations one event asks of the backend: none for an
/// informational line; one copy for a fetched path, unless origin dedup
/// applies because the path came from the destination itself; one
/// derivation-output copy for a built derivation, unconditionally.
pub open spec fn event_calls(e: LineV, skip_cached: bool, dest: Seq<char>) -> Seq<Call> {
    match e {
        LineV::Info(_) => Seq::<Call>::empty(),
        LineV::Copied(_, path, cache) => {
            if skip_cached && cache == dest {
                Seq::<Call>::empty()
            } else {
                seq![Call::CopyStorePath(path)]
            }
        },
        LineV::Built(_, drv) => seq![Call::CopyDrvOutput(drv)],
    }
}

/// The operations a sequence of events asks of the backend, in order.
pub open spec fn expected_calls(events: Seq<LineV>, skip_cached: bool, dest: Seq<char>) -> Seq<
    Call,
>
    decreases events.len(),
{
    if events.len() == 0 {
        Seq::<Call>::empty()
    } else {
        event_calls(events[0], skip_cached, dest) + expected_calls(
            events.drop_first(),
            skip_cached,
            dest,
        )
    }
}

/// Splitting a sequence of events splits their operations accordingly.
pub proof fn lemma_expected_calls_concat(a: Seq<LineV>, b: Seq<LineV>, skip_cached: bool, dest: Seq<char>)
    ensures
        expected_calls(a + b, skip_cached, dest) == expected_calls(a, skip_cached, dest)
            + expected_calls(b, skip_cached, dest),
    decreases a.len(),
{
    if a.len() == 0 {
        assert(a + b =~= b);
        assert(expected_calls(a, skip_cached, dest) + expected_calls(b, skip_cached, dest)
            =~= expected_calls(b, skip_cached, dest));
    } else {
        lemma_expected_calls_concat(a.drop_first(), b, skip_cached, dest);
        assert((a + b).drop_first() =~= a.drop_first() + b);
        assert(expected_calls(a + b, skip_cached, dest) =~= expected_calls(a, skip_cached, dest)
            + expected_calls(b, skip_cached, dest));
    }
}

/// One more event asks its own operations after those before it.
pub proof fn lemma_expected_calls_push(events: Seq<LineV>, e: LineV, skip_cached: bool, dest: Seq<char>)
    ensures
        expected_calls(events.push(e), skip_cached, dest) == expected_calls(
            events,
            skip_cached,
            dest,
        ) + event_calls(e, skip_cached, dest),
{
    assert(events.push(e) =~= events + seq![e]);
    lemma_expected_calls_concat(events, seq![e], skip_cached, dest);
    assert(seq![e].drop_first() =~= Seq::<LineV>::empty());
    assert(expected_calls(seq![e], skip_cached, dest) =~= event_calls(e, skip_cached, dest)) by {
        reveal_with_fuel(expected_calls, 3);
        assert(seq![e][0] == e);
    }
}

/// An event asks for at most one operation.
pub proof fn lemma_event_calls_len(e: LineV, skip_cached: bool, dest: Seq<char>)
    ensures
        event_calls(e, skip_cached, dest).len() <= 1,
{
}

/// Whether the backend lets every one of the given operations succeed.
pub open spec fn ops_ok<B: CopyCommand>(backend: B, ops: Seq<Call>) -> bool {
    forall|j: int| 0 <= j < ops.len() ==> backend.op_ok(ops[j])
}

/// Success over a concatenation is success over both parts.
pub proof fn lemma_ops_ok_concat<B: CopyCommand>(backend: B, a: Seq<Call>, b: Seq<Call>)
    ensures
        ops_ok(backend, a + b) <==> ops_ok(backend, a) && ops_ok(backend, b),
{
    if ops_ok(backend, a + b) {
        assert forall|j: int| 0 <= j < a.len() implies backend.op_ok(a[j]) by {
            assert((a + b)[j] == a[j]);
        }
        assert forall|j: int| 0 <= j < b.len() implies backend.op_ok(b[j]) by {
            assert((a + b)[a.len() + j] == b[j]);
        }
    }
    if ops_ok(backend, a) && ops_ok(backend, b) {
        assert forall|j: int| 0 <= j < (a + b).len() implies backend.op_ok((a + b)[j]) by {
            if j < a.len() {
                assert((a + b)[j] == a[j]);
            } else {
                assert((a + b)[j] == b[j - a.len()]);
            }
        }
    }
}

/// Where a single event's one operation sits among those of the whole
/// sequence.
pub proof fn lemma_expected_calls_index(events: Seq<LineV>, j: int, skip_cached: bool, dest: Seq<char>)
    requires
        0 <= j < events.len(),
        event_calls(events[j], skip_cached, dest).len() == 1,
    ensures
        ({
            let k = expected_calls(events.take(j), skip_cached, dest).len() as int;
            &&& 0 <= k < expected_calls(events, skip_cached, dest).len()
            &&& expected_calls(events, skip_cached, dest)[k] == event_calls(
                events[j],
                skip_cached,
                dest,
            )[0]
        }),
{
    assert(events =~= events.take(j + 1) + events.skip(j + 1));
    lemma_expected_calls_concat(events.take(j + 1), events.skip(j + 1), skip_cached, dest);
    assert(events.take(j + 1) =~= events.take(j).push(events[j]));
    lemma_expected_calls_push(events.take(j), events[j], skip_cached, dest);
    let k = expected_calls(events.take(j), skip_cached, dest).len();
    assert(expected_calls(events.take(j + 1), skip_cached, dest)[k as int] == event_calls(
        events[j],
        skip_cached,
        dest,
    )[0]);
}

/// Drain guarantee: what a completed run asks of the backend is exactly
/// each event's own operations, laid out in confirmation order — the
/// concatenation of the per-event operations, whatever the queue's
/// capacity was.
pub proof fn drain_guarantee(events: Seq<LineV>, skip_cached: bool, dest: Seq<char>)
    ensures
        expected_calls(events, skip_cached, dest) == events.map_values(
            |e: LineV| event_calls(e, skip_cached, dest),
        ).flatten(),
    decreases events.len(),
{
    let per_event = |e: LineV| event_calls(e, skip_cached, dest);
    if events.len() == 0 {
        assert(events.map_values(per_event) =~= Seq::<Seq<Call>>::empty());
        assert(expected_calls(events, skip_cached, dest) =~= events.map_values(
            per_event,
        ).flatten());
    } else {
        drain_guarantee(events.drop_first(), skip_cached, dest);
        assert(events.map_values(per_event).drop_first() =~= events.drop_first().map_values(
            per_event,
        ));
        assert(events.map_values(per_event)[0] == per_event(events[0]));
        assert(expected_calls(events, skip_cached, dest) =~= events.map_values(
            per_event,
        ).flatten());
    }
}

/// Origin dedup: a fetched path whose origin cache is the destination
/// itself asks for no copy when dedup is enabled; any other origin asks
/// for exactly one copy of that path.
pub proof fn dedup_law(raw: Seq<char>, path: Seq<char>, cache: Seq<char>, skip_cached: bool, dest: Seq<char>)
    ensures
        skip_cached && cache == dest ==> event_calls(
            LineV::Copied(raw, path, cache),
            skip_cached,
            dest,
        ) =~= Seq::<Call>::empty(),
        cache != dest ==> event_calls(LineV::Copied(raw, path, cache), skip_cached, dest)
            =~= seq![Call::CopyStorePath(path)],
{
}

/// A built derivation asks the backend for exactly one derivation-output
/// operation, whatever the dedup setting; within the backend, a
/// successful resolution leads to exactly one copy of the resolved path
/// and a failed one to none (see `nix::copy_resolved`).
pub proof fn built_resolution_law(raw: Seq<char>, drv: Seq<char>, skip_cached: bool, dest: Seq<char>)
    ensures
        event_calls(LineV::Built(raw, drv), skip_cached, dest) =~= seq![Call::CopyDrvOutput(drv)],
{
}

/// The operation one event plans for the backend, if any: the decision
/// the dispatcher (and any outside loop driving a real backend) acts on.
pub fn plan_event(event: &Line, skip_cached: bool, dest: &String) -> (r: Option<CallRecord>)
    ensures
        (match r {
            None => event_calls(event@, skip_cached, dest@).len() == 0,
            Some(op) => event_calls(event@, skip_cached, dest@) == seq![op@],
        }),
{
    match event {
        Line::Info(_) => None,
        Line::Copied(_, path, cache) => {
            if skip_cached && cache.matches(dest) {
                None
            } else {
                Some(CallRecord::CopyStorePath(StorePath::from_text(path.as_str().to_owned())))
            }
        },
        Line::Built(_, drv) => Some(
            CallRecord::CopyDrvOutput(DrvFile::from_text(drv.as_str().to_owned())),
        ),
    }
}

/// Process one event: nothing for an informational line, a copy for a
/// fetched path unless origin dedup applies, the derivation-output
/// operation for a built derivation.  The backend's log grows by exactly
/// the event's operations; the result is success exactly when the event
/// asks nothing or the backend lets its one operation succeed, and a
/// failure carries the backend's own error.
pub fn dispatch<B: CopyCommand>(event: Line, backend: &mut B, skip_cached: bool) -> (r: Result<
    (),
    Error,
>)
    ensures
        final(backend).dest() == old(backend).dest(),
        final(backend).calls() == old(backend).calls() + event_calls(
            event@,
            skip_cached,
            old(backend).dest(),
        ),
        forall|c: Call| final(backend).op_ok(c) == old(backend).op_ok(c),
        forall|c: Call| final(backend).op_err(c) == old(backend).op_err(c),
        r is Ok <==> (event_calls(event@, skip_cached, old(backend).dest()).len() == 0 || old(
            backend,
        ).op_ok(event_calls(event@, skip_cached, old(backend).dest())[0])),
        r is Err ==> r->Err_0@ == old(backend).op_err(
            event_calls(event@, skip_cached, old(backend).dest())[0],
        ),
{
    let dest = backend.to();
    match plan_event(&event, skip_cached, &dest) {
        None => {
            proof {
                assert(backend.calls() =~= old(backend).calls() + event_calls(
                    event@,
                    skip_cached,
                    old(backend).dest(),
                ));
            }
            Ok(())
        },
        Some(CallRecord::CopyStorePath(path)) => {
            let r = backend.store_path(&path);
            proof {
                assert(event_calls(event@, skip_cached, old(backend).dest())[0]
                    == Call::CopyStorePath(path@));
                assert(backend.calls() =~= old(backend).calls() + event_calls(
                    event@,
                    skip_cached,
                    old(backend).dest(),
                ));
            }
            r
        },
        Some(CallRecord::CopyDrvOutput(drv)) => {
            let r = backend.drv_output(&drv);
            proof {
                assert(event_calls(event@, skip_cached, old(backend).dest())[0]
                    == Call::CopyDrvOutput(drv@));
                assert(backend.calls() =~= old(backend).calls() + event_calls(
                    event@,
                    skip_cached,
                    old(backend).dest(),
                ));
            }
            r
        },
    }
}

/// Drain the queue completely: process every buffered event strictly in
/// FIFO order, stopping at the first failure.  On success the queue is
/// empty and the backend was asked exactly the buffered events'
/// operations, in order; success comes exactly when the backend lets
/// every buffered operation succeed.  On failure the events before the
/// failing one were processed, the failing event's single operation was
/// asked and refused, its error is handed back, and the rest stay
/// buffered.
pub fn drain<B: CopyCommand>(queue: &mut EventQueue, backend: &mut B, skip_cached: bool) -> (r:
    Result<(), Error>)
    ensures
        final(backend).dest() == old(backend).dest(),
        final(queue).cap() == old(queue).cap(),
        forall|c: Call| final(backend).op_ok(c) == old(backend).op_ok(c),
        forall|c: Call| final(backend).op_err(c) == old(backend).op_err(c),
        r is Ok <==> ops_ok(
            *old(backend),
            expected_calls(line_views(old(queue)@), skip_cached, old(backend).dest()),
        ),
        r is Ok ==> final(queue)@.len() == 0 && final(backend).calls() == old(backend).calls()
            + expected_calls(line_views(old(queue)@), skip_cached, old(backend).dest()),
        r is Err ==> exists|j: int|
            0 <= j < old(queue)@.len() && event_calls(
                line_views(old(queue)@)[j],
                skip_cached,
                old(backend).dest(),
            ).len() == 1 && !old(backend).op_ok(
                event_calls(line_views(old(queue)@)[j], skip_cached, old(backend).dest())[0],
            ) && r->Err_0@ == old(backend).op_err(
                event_calls(line_views(old(queue)@)[j], skip_cached, old(backend).dest())[0],
            ) && ops_ok(
                *old(backend),
                expected_calls(line_views(old(queue)@).take(j), skip_cached, old(backend).dest()),
            ) && final(backend).calls() == old(backend).calls() + expected_calls(
                line_views(old(queue)@).take(j + 1),
                skip_cached,
                old(backend).dest(),
            ) && final(queue)@ == old(queue)@.skip(j + 1),
{
    let ghost evs = line_views(old(queue)@);
    let ghost dest = old(backend).dest();
    let ghost mut p: int = 0;
    loop
        invariant
            0 <= p <= evs.len(),
            evs == line_views(old(queue)@),
            evs.len() == old(queue)@.len(),
            dest == old(backend).dest(),
            backend.dest() == dest,
            forall|c: Call| backend.op_ok(c) == old(backend).op_ok(c),
            forall|c: Call| backend.op_err(c) == old(backend).op_err(c),
            queue@ == old(queue)@.skip(p),
            queue.cap() == old(queue).cap(),
            backend.calls() == old(backend).calls() + expected_calls(
                evs.take(p),
                skip_cached,
                dest,
            ),
            ops_ok(*old(backend), expected_calls(evs.take(p), skip_cached, dest)),
        decreases evs.len() - p,
    {
        if queue.is_empty() {
            proof {
                assert(evs.take(p) =~= evs);
            }
            return Ok(());
        }
        let event = queue.dequeue();
        proof {
            assert(event == old(queue)@[p]);
            assert(event@ == evs[p]);
            assert(queue@ =~= old(queue)@.skip(p + 1));
        }
        let ghost backend_pre = *backend;
        let step = dispatch(event, backend, skip_cached);
        proof {
            lemma_expected_calls_push(evs.take(p), evs[p], skip_cached, dest);
            assert(evs.take(p).push(evs[p]) =~= evs.take(p + 1));
            assert(backend.calls() =~= old(backend).calls() + expected_calls(
                evs.take(p + 1),
                skip_cached,
                dest,
            ));
        }
        match step {
            Ok(_) => {
                proof {
                    lemma_event_calls_len(evs[p], skip_cached, dest);
                    lemma_ops_ok_concat(
                        *old(backend),
                        expected_calls(evs.take(p), skip_cached, dest),
                        event_calls(evs[p], skip_cached, dest),
                    );
                    assert(ops_ok(*old(backend), event_calls(evs[p], skip_cached, dest)));
                    assert(expected_calls(evs.take(p + 1), skip_cached, dest)
                        =~= expected_calls(evs.take(p), skip_cached, dest) + event_calls(
                        evs[p],
                        skip_cached,
                        dest,
                    ));
                }
            },
            Err(e) => {
                proof {
                    lemma_event_calls_len(evs[p], skip_cached, dest);
                    assert(event_calls(evs[p], skip_cached, dest).len() == 1);
                    assert(!old(backend).op_ok(event_calls(evs[p], skip_cached, dest)[0]));
                    lemma_expected_calls_index(evs, p, skip_cached, dest);
                    assert(!ops_ok(*old(backend), expected_calls(evs, skip_cached, dest)));
                }
                return Err(e);
            },
        }
        proof {
            p = p + 1;
        }
    }
}

} // verus!

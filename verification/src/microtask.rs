//! The decisions of draining the job queues: the order of the phases
//! (pending promise hook events, destroy hooks, `process.nextTick`
//! callbacks, `setImmediate` callbacks, one microtask, and again), when the
//! drain stops, and how each kind of job settles the promise it serves.
//! Running callbacks, hooks and promise operations is the runtime's part.

use vstd::prelude::*;

verus! {

/// Which callback of a promise reaction runs.
#[derive(Clone, Copy, Debug, PartialEq, Eq, Structural)]
pub enum ReactionType {
    Fulfill,
    Reject,
    FinallyFulfill,
    FinallyReject,
}

pub open spec fn is_finally(kind: ReactionType) -> bool {
    kind == ReactionType::FinallyFulfill || kind == ReactionType::FinallyReject
}

/// The argument a reaction handler is called with: the settled value, but
/// nothing (`undefined`) for a `finally` handler.
pub fn reaction_call_argument(kind: ReactionType, argument: i64, undefined: i64) -> (r: i64)
    ensures
        r == if is_finally(kind) {
            undefined
        } else {
            argument
        },
{
    match kind {
        ReactionType::FinallyFulfill | ReactionType::FinallyReject => undefined,
        _ => argument,
    }
}

/// What a promise reaction does to the promise it derives.
#[derive(Clone, Copy, Debug, PartialEq, Eq, Structural)]
pub enum ReactionAction {
    /// A combinator or `finally` await handled the reaction itself.
    Nothing,
    /// Resolve the derived promise with the handler's result.
    Resolve { value: i64 },
    /// The handler threw: reject with the reason its exception carries.
    RejectWithException { exception: i64 },
    /// A `finally` handler returned: pass the original outcome through,
    /// after the handler's result settles.
    SettleFinally { result: i64 },
    /// The handler could not be called: reject with a `TypeError`.
    RejectHandlerFailed,
    /// No callable handler: the settlement passes through unchanged.
    PassThrough,
}

/// The reaction outcome. `handled_internally`: a combinator or a `finally`
/// await took the reaction; `handler_callable`: the handler is callable;
/// `call_result`: what calling it returned (`None` when the call failed);
/// `result_is_exception`: whether that result is a thrown exception.
pub open spec fn spec_reaction_outcome(
    kind: ReactionType,
    handled_internally: bool,
    handler_callable: bool,
    call_result: Option<i64>,
    result_is_exception: bool,
) -> ReactionAction {
    if handled_internally {
        ReactionAction::Nothing
    } else if !handler_callable {
        ReactionAction::PassThrough
    } else {
        match call_result {
            None => ReactionAction::RejectHandlerFailed,
            Some(result) => if is_finally(kind) {
                ReactionAction::SettleFinally { result }
            } else if result_is_exception {
                ReactionAction::RejectWithException { exception: result }
            } else {
                ReactionAction::Resolve { value: result }
            },
        }
    }
}

/// What a promise reaction does once its handler ran.
pub fn reaction_outcome(
    kind: ReactionType,
    handled_internally: bool,
    handler_callable: bool,
    call_result: Option<i64>,
    result_is_exception: bool,
) -> (r: ReactionAction)
    ensures
        r == spec_reaction_outcome(kind, handled_internally, handler_callable, call_result, result_is_exception),
{
    if handled_internally {
        return ReactionAction::Nothing;
    }
    if !handler_callable {
        return ReactionAction::PassThrough;
    }
    match call_result {
        None => ReactionAction::RejectHandlerFailed,
        Some(result) => match kind {
            ReactionType::FinallyFulfill | ReactionType::FinallyReject => ReactionAction::SettleFinally { result },
            _ => {
                if result_is_exception {
                    ReactionAction::RejectWithException { exception: result }
                } else {
                    ReactionAction::Resolve { value: result }
                }
            },
        },
    }
}

/// How a job that calls a user callback settles its promise.
#[derive(Clone, Copy, Debug, PartialEq, Eq, Structural)]
pub enum SettleAction {
    /// Leave the promise as it is.
    Nothing,
    /// Resolve the promise with a promise the callback returned.
    ResolveWith { value: i64 },
    /// Fulfill the promise with `value`.
    Fulfill { value: i64 },
    /// Reject with the reason of the exception the callback threw.
    RejectWithException { exception: i64 },
    /// The callback could not be called: reject with a `TypeError`.
    RejectCallbackFailed,
}

/// How a reaction settles the promise it derives, by what its handler did:
/// a combinator or `finally` await that took it leaves the promise alone;
/// without a callable handler the settlement passes through; a call that
/// failed rejects; an `onFulfilled` or `onRejected` handler resolves the
/// promise with what it returned, or rejects with what it threw; a
/// `finally` handler passes the original outcome on after its result. The
/// handler is called with the settled value, a `finally` handler with
/// `undefined`.
pub proof fn law_reaction_follows_the_handler(
    kind: ReactionType,
    handler_callable: bool,
    call_result: Option<i64>,
    result: i64,
    result_is_exception: bool,
    argument: i64,
    undefined: i64,
)
    ensures
        spec_reaction_outcome(kind, true, handler_callable, call_result, result_is_exception)
            == ReactionAction::Nothing,
        spec_reaction_outcome(kind, false, false, call_result, result_is_exception) == ReactionAction::PassThrough,
        spec_reaction_outcome(kind, false, true, None, result_is_exception) == ReactionAction::RejectHandlerFailed,
        (kind == ReactionType::Fulfill || kind == ReactionType::Reject) ==> spec_reaction_outcome(
            kind,
            false,
            true,
            Some(result),
            false,
        ) == (ReactionAction::Resolve { value: result }),
        (kind == ReactionType::Fulfill || kind == ReactionType::Reject) ==> spec_reaction_outcome(
            kind,
            false,
            true,
            Some(result),
            true,
        ) == (ReactionAction::RejectWithException { exception: result }),
        (kind == ReactionType::FinallyFulfill || kind == ReactionType::FinallyReject) ==> spec_reaction_outcome(
            kind,
            false,
            true,
            Some(result),
            result_is_exception,
        ) == (ReactionAction::SettleFinally { result }),
        is_finally(kind) <==> (kind == ReactionType::FinallyFulfill || kind == ReactionType::FinallyReject),
{
}

/// A stream write adopts a promise its callback returned, fulfills with
/// `undefined` after any other result, and rejects when the call failed; a
/// thenable job rejects with what `then` threw, rejects when the call
/// failed, and otherwise leaves the promise to the resolving functions.
pub proof fn law_callback_jobs_settle_by_result(v: i64, undefined: i64, flag: bool)
    ensures
        spec_stream_write_outcome(Some(v), true, undefined) == (SettleAction::ResolveWith { value: v }),
        spec_stream_write_outcome(Some(v), false, undefined) == (SettleAction::Fulfill { value: undefined }),
        spec_stream_write_outcome(None, flag, undefined) == SettleAction::RejectCallbackFailed,
        spec_thenable_outcome(Some(v), true) == (SettleAction::RejectWithException { exception: v }),
        spec_thenable_outcome(Some(v), false) == SettleAction::Nothing,
        spec_thenable_outcome(None, flag) == SettleAction::RejectCallbackFailed,
{
}

/// A stream write or transform: a returned promise is adopted, any other
/// result fulfills with `undefined`, a failed call rejects.
pub open spec fn spec_stream_write_outcome(call_result: Option<i64>, result_is_promise: bool, undefined: i64) -> SettleAction {
    match call_result {
        None => SettleAction::RejectCallbackFailed,
        Some(v) => if result_is_promise {
            SettleAction::ResolveWith { value: v }
        } else {
            SettleAction::Fulfill { value: undefined }
        },
    }
}

/// How a stream transform or sink write settles its write promise.
pub fn stream_write_outcome(call_result: Option<i64>, result_is_promise: bool, undefined: i64) -> (r: SettleAction)
    ensures
        r == spec_stream_write_outcome(call_result, result_is_promise, undefined),
{
    match call_result {
        None => SettleAction::RejectCallbackFailed,
        Some(v) => {
            if result_is_promise {
                SettleAction::ResolveWith { value: v }
            } else {
                SettleAction::Fulfill { value: undefined }
            }
        },
    }
}

/// Resolving a promise with a thenable: a `then` that threw rejects with
/// the reason, a failed call rejects with a `TypeError`, and otherwise the
/// resolving functions handed to `then` settle the promise later.
pub open spec fn spec_thenable_outcome(call_result: Option<i64>, result_is_exception: bool) -> SettleAction {
    match call_result {
        None => SettleAction::RejectCallbackFailed,
        Some(v) => if result_is_exception {
            SettleAction::RejectWithException { exception: v }
        } else {
            SettleAction::Nothing
        },
    }
}

/// How a `PromiseResolveThenable` job settles its promise.
pub fn thenable_outcome(call_result: Option<i64>, result_is_exception: bool) -> (r: SettleAction)
    ensures
        r == spec_thenable_outcome(call_result, result_is_exception),
{
    match call_result {
        None => SettleAction::RejectCallbackFailed,
        Some(v) => {
            if result_is_exception {
                SettleAction::RejectWithException { exception: v }
            } else {
                SettleAction::Nothing
            }
        },
    }
}

/// A stream flush or sink close succeeded: there was no callback, or the
/// call returned.
pub fn close_callback_succeeded(callback_present: bool, call_returned: bool) -> (r: bool)
    ensures
        r == (!callback_present || call_returned),
{
    !callback_present || call_returned
}

/// A phase of draining the job queues.
#[derive(Clone, Copy, Debug, PartialEq, Eq, Structural)]
pub enum DrainPhase {
    /// Emit the promise hook events that are pending.
    PromiseEvents,
    /// Run the destroy hooks that are queued.
    DestroyQueue,
    /// Run the next `process.nextTick` callback.
    NextTick,
    /// Run the `setImmediate` callbacks.
    Immediates,
    /// Run the next microtask.
    Microtask,
    /// Recycle finished continuations and report unhandled rejections.
    Finish,
    /// The drain is over.
    Done,
}

/// What the runtime reports after running a phase: a hook asked to stop
/// (`stopped`), the phase's queue was empty (`empty`), a process exit is
/// pending (`exit_pending`), and a stream flush failed (`flush_failed`).
#[derive(Clone, Copy, Debug, PartialEq, Eq, Structural)]
pub struct PhaseReport {
    pub stopped: bool,
    pub empty: bool,
    pub exit_pending: bool,
    pub flush_failed: bool,
}

/// The phase after `phase` reported `rep`. Hook events and destroy hooks
/// come first; `nextTick` callbacks run one by one until their queue is
/// empty; then the immediates; then one microtask, after which everything
/// starts again. A hook that asks to stop ends the drain, and so does a
/// pending process exit after each `nextTick` callback, after the
/// immediates and after each microtask (except a failed stream flush,
/// which goes straight back to the start). An empty microtask queue ends
/// the drain with the final bookkeeping.
pub open spec fn spec_next_phase(phase: DrainPhase, rep: PhaseReport) -> DrainPhase {
    match phase {
        DrainPhase::PromiseEvents => if rep.stopped {
            DrainPhase::Done
        } else {
            DrainPhase::DestroyQueue
        },
        DrainPhase::DestroyQueue => if rep.stopped {
            DrainPhase::Done
        } else {
            DrainPhase::NextTick
        },
        DrainPhase::NextTick => if rep.empty {
            DrainPhase::Immediates
        } else if rep.stopped || rep.exit_pending {
            DrainPhase::Done
        } else {
            DrainPhase::NextTick
        },
        DrainPhase::Immediates => if rep.exit_pending {
            DrainPhase::Done
        } else {
            DrainPhase::Microtask
        },
        DrainPhase::Microtask => if rep.empty {
            DrainPhase::Finish
        } else if rep.stopped {
            DrainPhase::Done
        } else if rep.flush_failed {
            DrainPhase::PromiseEvents
        } else if rep.exit_pending {
            DrainPhase::Done
        } else {
            DrainPhase::PromiseEvents
        },
        DrainPhase::Finish => DrainPhase::Done,
        DrainPhase::Done => DrainPhase::Done,
    }
}

/// The next phase of draining the job queues.
pub fn next_phase(phase: DrainPhase, rep: PhaseReport) -> (r: DrainPhase)
    ensures
        r == spec_next_phase(phase, rep),
{
    match phase {
        DrainPhase::PromiseEvents => {
            if rep.stopped {
                DrainPhase::Done
            } else {
                DrainPhase::DestroyQueue
            }
        },
        DrainPhase::DestroyQueue => {
            if rep.stopped {
                DrainPhase::Done
            } else {
                DrainPhase::NextTick
            }
        },
        DrainPhase::NextTick => {
            if rep.empty {
                DrainPhase::Immediates
            } else if rep.stopped || rep.exit_pending {
                DrainPhase::Done
            } else {
                DrainPhase::NextTick
            }
        },
        DrainPhase::Immediates => {
            if rep.exit_pending {
                DrainPhase::Done
            } else {
                DrainPhase::Microtask
            }
        },
        DrainPhase::Microtask => {
            if rep.empty {
                DrainPhase::Finish
            } else if rep.stopped {
                DrainPhase::Done
            } else if rep.flush_failed {
                DrainPhase::PromiseEvents
            } else if rep.exit_pending {
                DrainPhase::Done
            } else {
                DrainPhase::PromiseEvents
            }
        },
        DrainPhase::Finish => DrainPhase::Done,
        DrainPhase::Done => DrainPhase::Done,
    }
}

/// A microtask runs only right after the immediates, the immediates only
/// once the `nextTick` queue reported empty, and a finished drain stays
/// finished.
pub proof fn law_next_tick_queue_drains_before_microtasks(phase: DrainPhase, rep: PhaseReport)
    ensures
        spec_next_phase(phase, rep) == DrainPhase::Microtask ==> phase == DrainPhase::Immediates && !rep.exit_pending,
        spec_next_phase(phase, rep) == DrainPhase::Immediates ==> phase == DrainPhase::NextTick && rep.empty,
        phase == DrainPhase::Done ==> spec_next_phase(phase, rep) == DrainPhase::Done,
{
}

/// A pending unhandled rejection as the promise table shows it: whether the
/// handle names a promise, whether it got a handler, and its rejection
/// reason (`None` when it is not rejected).
#[derive(Clone, Copy, Debug, PartialEq, Eq, Structural)]
pub struct PendingRejection {
    pub is_promise: bool,
    pub handled: bool,
    pub rejected_reason: Option<i64>,
}

/// Whether a pending entry is still an unhandled rejection.
pub open spec fn still_unhandled(e: Option<PendingRejection>) -> bool {
    match e {
        Some(p) => p.is_promise && !p.handled && p.rejected_reason is Some,
        None => false,
    }
}

/// The reasons to report, in order: those of the pending entries (`None`
/// when the handle is not in the table) that are still unhandled
/// rejections.
pub open spec fn spec_unhandled_reasons(pending: Seq<Option<PendingRejection>>) -> Seq<i64>
    decreases pending.len(),
{
    if pending.len() == 0 {
        Seq::empty()
    } else {
        let prev = spec_unhandled_reasons(pending.drop_last());
        if still_unhandled(pending.last()) {
            prev.push(pending.last().unwrap().rejected_reason.unwrap())
        } else {
            prev
        }
    }
}

/// The rejection reasons to report as unhandled at the end of a drain.
pub fn unhandled_reasons(pending: &Vec<Option<PendingRejection>>) -> (r: Vec<i64>)
    ensures
        r@ == spec_unhandled_reasons(pending@),
{
    let mut out: Vec<i64> = Vec::new();
    let mut i: usize = 0;
    while i < pending.len()
        invariant
            i <= pending@.len(),
            out@ == spec_unhandled_reasons(pending@.take(i as int)),
        decreases pending@.len() - i,
    {
        proof {
            assert(pending@.take(i + 1).drop_last() =~= pending@.take(i as int));
            assert(pending@.take(i + 1).last() == pending@[i as int]);
        }
        match pending[i] {
            Some(p) => {
                if p.is_promise && !p.handled {
                    match p.rejected_reason {
                        Some(reason) => out.push(reason),
                        None => {},
                    }
                }
            },
            None => {},
        }
        i += 1;
    }
    proof {
        assert(pending@.take(pending@.len() as int) =~= pending@);
    }
    out
}

/// The unhandled rejections reported at the end of a drain, entry by entry:
/// a promise that is rejected with `reason` and still has no handler adds
/// `reason`; a handled promise, a promise that is not rejected, a handle
/// that is no promise and a handle no longer in the table add nothing.
pub proof fn law_reported_rejections(pending: Seq<Option<PendingRejection>>, p: PendingRejection, reason: i64)
    ensures
        spec_unhandled_reasons(Seq::empty()) == Seq::<i64>::empty(),
        spec_unhandled_reasons(
            pending.push(Some(PendingRejection { is_promise: true, handled: false, rejected_reason: Some(reason) })),
        ) == spec_unhandled_reasons(pending).push(reason),
        p.handled || !p.is_promise || p.rejected_reason is None ==> spec_unhandled_reasons(pending.push(Some(p)))
            == spec_unhandled_reasons(pending),
        spec_unhandled_reasons(pending.push(None)) == spec_unhandled_reasons(pending),
{
    assert(pending.push(Some(p)).drop_last() =~= pending);
    assert(pending.push(None).drop_last() =~= pending);
    assert(pending.push(
        Some(PendingRejection { is_promise: true, handled: false, rejected_reason: Some(reason) }),
    ).drop_last() =~= pending);
}

/// The drain's steps: a hook that asks to stop ends the drain at the hook
/// events and destroy hooks, which otherwise lead to the `nextTick`
/// callbacks; those run one by one while any are left, and a pending exit
/// or a stop ends the drain between them; after the microtask queue comes
/// back empty only the final bookkeeping remains, and after a microtask
/// ran the drain starts over unless it was asked to stop or to exit.
pub proof fn law_drain_steps(rep: PhaseReport)
    ensures
        rep.stopped ==> spec_next_phase(DrainPhase::PromiseEvents, rep) == DrainPhase::Done
            && spec_next_phase(DrainPhase::DestroyQueue, rep) == DrainPhase::Done,
        !rep.stopped ==> spec_next_phase(DrainPhase::PromiseEvents, rep) == DrainPhase::DestroyQueue
            && spec_next_phase(DrainPhase::DestroyQueue, rep) == DrainPhase::NextTick,
        !rep.empty && !rep.stopped && !rep.exit_pending ==> spec_next_phase(DrainPhase::NextTick, rep)
            == DrainPhase::NextTick,
        !rep.empty && (rep.stopped || rep.exit_pending) ==> spec_next_phase(DrainPhase::NextTick, rep)
            == DrainPhase::Done,
        rep.empty ==> spec_next_phase(DrainPhase::Microtask, rep) == DrainPhase::Finish,
        !rep.empty && rep.stopped ==> spec_next_phase(DrainPhase::Microtask, rep) == DrainPhase::Done,
        !rep.empty && !rep.stopped && !rep.exit_pending ==> spec_next_phase(DrainPhase::Microtask, rep)
            == DrainPhase::PromiseEvents,
        rep.exit_pending ==> spec_next_phase(DrainPhase::Immediates, rep) == DrainPhase::Done,
        spec_next_phase(DrainPhase::Finish, rep) == DrainPhase::Done,
{
}

} // verus!

use vstd::prelude::*;

verus! {

/// `trace` is a run of `step`: each state comes from the one before it by a
/// call of `step` numbered by its position.
pub open spec fn is_step_run<S, F: Fn(usize, S) -> S>(step: F, trace: Seq<S>) -> bool {
    forall|k: int|
        0 <= k < trace.len() - 1 ==> #[trigger] step.ensures((k as usize, trace[k]), trace[k + 1])
}

/// `trace` is a run of the shrink loop: each state comes from the one before
/// it by one call of `shrink`, and `done` refused every state but the last.
pub open spec fn is_shrink_run<S, C: Fn(&S) -> bool, D: Fn(S) -> S>(
    done: C,
    shrink: D,
    trace: Seq<S>,
) -> bool {
    forall|k: int|
        0 <= k < trace.len() - 1 ==> {
            &&& #[trigger] shrink.ensures((trace[k],), trace[k + 1])
            &&& done.ensures((&trace[k],), false)
        }
}

/// Applies `step` exactly `steps` times, calls numbered `0, 1, ...`, each to
/// the state the call before it produced, starting from `start`. There is no
/// early exit: this drives a fixed-length gradient descent whose step number
/// selects the learning rate.
pub fn run_steps<S, F: Fn(usize, S) -> S>(start: S, steps: usize, step: F) -> (r: S)
    requires
        forall|k: usize, s: S| k < steps ==> step.requires((k, s)),
    ensures
        exists|trace: Seq<S>|
            {
                &&& trace.len() == steps + 1
                &&& trace[0] == start
                &&& trace[steps as int] == r
                &&& is_step_run(step, trace)
            },
{
    let ghost mut trace: Seq<S> = seq![start];
    let mut state = start;
    let mut k: usize = 0;
    while k < steps
        invariant
            k <= steps,
            forall|k: usize, s: S| k < steps ==> step.requires((k, s)),
            trace.len() == k + 1,
            trace[0] == start,
            trace[k as int] == state,
            is_step_run(step, trace),
        decreases steps - k,
    {
        let next = step(k, state);
        proof {
            let old_trace = trace;
            trace = trace.push(next);
            assert forall|i: int| 0 <= i < trace.len() - 1 implies #[trigger] step.ensures(
                (i as usize, trace[i]),
                trace[i + 1],
            ) by {
                if i < k {
                    assert(trace[i] == old_trace[i]);
                    assert(trace[i + 1] == old_trace[i + 1]);
                }
            }
        }
        state = next;
        k = k + 1;
    }
    state
}

/// Checks `done` and shrinks while it refuses, at most `max_rounds` times.
/// Returns the last state, the number of shrinks made, and whether `done`
/// accepted that state. Without an acceptance the result is the state after
/// `max_rounds` shrinks, which `done` refused too.
pub fn shrink_until<S, C: Fn(&S) -> bool, D: Fn(S) -> S>(
    start: S,
    max_rounds: usize,
    done: C,
    shrink: D,
) -> (r: (S, usize, bool))
    requires
        forall|s: S| done.requires((&s,)),
        forall|s: S| shrink.requires((s,)),
    ensures
        r.1 <= max_rounds,
        r.2 ==> done.ensures((&r.0,), true),
        !r.2 ==> r.1 == max_rounds && done.ensures((&r.0,), false),
        exists|trace: Seq<S>|
            {
                &&& trace.len() == r.1 + 1
                &&& trace[0] == start
                &&& trace[r.1 as int] == r.0
                &&& is_shrink_run(done, shrink, trace)
            },
{
    let ghost mut trace: Seq<S> = seq![start];
    let mut state = start;
    let mut rounds: usize = 0;
    loop
        invariant
            rounds <= max_rounds,
            forall|s: S| done.requires((&s,)),
            forall|s: S| shrink.requires((s,)),
            trace.len() == rounds + 1,
            trace[0] == start,
            trace[rounds as int] == state,
            is_shrink_run(done, shrink, trace),
        decreases max_rounds - rounds,
    {
        if done(&state) {
            return (state, rounds, true);
        }
        if rounds == max_rounds {
            return (state, rounds, false);
        }
        let next = shrink(state);
        proof {
            let old_trace = trace;
            trace = trace.push(next);
            assert forall|i: int| 0 <= i < trace.len() - 1 implies {
                &&& #[trigger] shrink.ensures((trace[i],), trace[i + 1])
                &&& done.ensures((&trace[i],), false)
            } by {
                if i < rounds {
                    assert(trace[i] == old_trace[i]);
                    assert(trace[i + 1] == old_trace[i + 1]);
                }
            }
        }
        state = next;
        rounds = rounds + 1;
    }
}

} // verus!

//! The accept-or-reject loop of damped least squares.

use vstd::prelude::*;

verus! {

/// What one damped step comes to.
#[derive(Debug)]
pub enum LmStep<T, E> {
    /// The damped system could not be solved.
    Failed(E),
    /// The step does not lower the cost.
    Worse,
    /// The step lowers the cost.
    Better {
        /// The state after the step.
        state: T,
        /// The cost went down by less than the tolerance.
        small: bool,
    },
}

/// What the loop comes to.
#[derive(Debug)]
pub enum LmOutcome<T, E> {
    /// The system could not be solved at the largest damping.
    Failed(E),
    /// The best state that was found.
    Finished {
        state: T,
        /// How many steps were tried.
        iterations: usize,
        /// The last step was a small one.
        converged: bool,
    },
}

/// What the loop asks. `Y` is what the system is laid out by, and `L` is the damping.
pub struct LmKernel<S, R, W> {
    /// Tries a step from a state with a damping.
    pub step: S,
    /// More damping, and whether it is beyond the largest.
    pub raise: R,
    /// Less damping.
    pub lower: W,
}

/// `LmKernel` answers every question.
pub open spec fn can_step<Y, T, L, E, S, R, W>(kernel: LmKernel<S, R, W>, layout: Y) -> bool where
    S: Fn(&Y, &T, &L) -> LmStep<T, E>,
    R: Fn(&L) -> (L, bool),
    W: Fn(&L) -> L,
 {
    &&& forall|state: &T, lambda: &L| call_requires(kernel.step, (&layout, state, lambda))
    &&& forall|lambda: &L| call_requires(kernel.raise, (lambda,))
    &&& forall|lambda: &L| call_requires(kernel.lower, (lambda,))
}

/// What follows a step: another one, or the end.
pub enum LmNext<T, L, E> {
    Go(T, L),
    End(LmOutcome<T, E>),
}

/// `next` is what follows a step from here, with `done` steps tried before.
///
/// A step that lowers the cost is taken, and the damping lowered; a small one is the last.
/// Any other step is not taken, and the damping raised; where that goes beyond the largest
/// damping the loop ends, with the state so far, or with the failure if the step failed.
pub open spec fn is_next<Y, T, L, E, S, R, W>(
    kernel: LmKernel<S, R, W>,
    layout: Y,
    state: T,
    lambda: L,
    done: nat,
    next: LmNext<T, L, E>,
) -> bool where
    S: Fn(&Y, &T, &L) -> LmStep<T, E>,
    R: Fn(&L) -> (L, bool),
    W: Fn(&L) -> L,
 {
    exists|step: LmStep<T, E>|
        {
            &&& #[trigger] call_ensures(kernel.step, (&layout, &state, &lambda), step)
            &&& match step {
                LmStep::Better { state: better, small } => exists|less: L|
                    {
                        &&& #[trigger] call_ensures(kernel.lower, (&lambda,), less)
                        &&& next == if small {
                            LmNext::End(
                                LmOutcome::<T, E>::Finished {
                                    state: better,
                                    iterations: (done + 1) as usize,
                                    converged: true,
                                },
                            )
                        } else {
                            LmNext::Go(better, less)
                        }
                    },
                _ => exists|more: L, beyond: bool|
                    {
                        &&& #[trigger] call_ensures(kernel.raise, (&lambda,), (more, beyond))
                        &&& next == if !beyond {
                            LmNext::Go(state, more)
                        } else if let LmStep::Failed(error) = step {
                            LmNext::End(LmOutcome::<T, E>::Failed(error))
                        } else {
                            LmNext::End(
                                LmOutcome::<T, E>::Finished {
                                    state,
                                    iterations: (done + 1) as usize,
                                    converged: false,
                                },
                            )
                        }
                    },
            }
        }
}

/// `outcome` is what the loop comes to from here, with `done` steps tried and `left` to go.
pub open spec fn lm_from<Y, T, L, E, S, R, W>(
    kernel: LmKernel<S, R, W>,
    layout: Y,
    state: T,
    lambda: L,
    done: nat,
    left: nat,
    outcome: LmOutcome<T, E>,
) -> bool where
    S: Fn(&Y, &T, &L) -> LmStep<T, E>,
    R: Fn(&L) -> (L, bool),
    W: Fn(&L) -> L,

    decreases left,
{
    if left == 0 {
        outcome == LmOutcome::<T, E>::Finished {
            state,
            iterations: done as usize,
            converged: false,
        }
    } else {
        exists|next: LmNext<T, L, E>|
            {
                &&& #[trigger] is_next(kernel, layout, state, lambda, done, next)
                &&& match next {
                    LmNext::End(end) => outcome == end,
                    LmNext::Go(state, lambda) => lm_from(
                        kernel,
                        layout,
                        state,
                        lambda,
                        done + 1,
                        (left - 1) as nat,
                        outcome,
                    ),
                }
            }
    }
}

/// Tries a step, and takes it or not.
fn advance<Y, T, L, E, S, R, W>(
    kernel: &LmKernel<S, R, W>,
    layout: &Y,
    state: T,
    lambda: L,
    done: usize,
) -> (next: LmNext<T, L, E>) where
    S: Fn(&Y, &T, &L) -> LmStep<T, E>,
    R: Fn(&L) -> (L, bool),
    W: Fn(&L) -> L,

    requires
        can_step::<Y, T, L, E, S, R, W>(*kernel, *layout),
        done < usize::MAX,
    ensures
        is_next(*kernel, *layout, state, lambda, done as nat, next),
{
    let step = (kernel.step)(layout, &state, &lambda);
    let ghost said = step;
    match step {
        LmStep::Better { state: better, small } => {
            let less = (kernel.lower)(&lambda);
            assert(call_ensures(kernel.step, (layout, &state, &lambda), said));
            if small {
                LmNext::End(
                    LmOutcome::Finished { state: better, iterations: done + 1, converged: true },
                )
            } else {
                LmNext::Go(better, less)
            }
        },
        LmStep::Failed(error) => {
            let (more, beyond) = (kernel.raise)(&lambda);
            assert(call_ensures(kernel.step, (layout, &state, &lambda), said));
            if beyond {
                LmNext::End(LmOutcome::Failed(error))
            } else {
                LmNext::Go(state, more)
            }
        },
        LmStep::Worse => {
            let (more, beyond) = (kernel.raise)(&lambda);
            assert(call_ensures(kernel.step, (layout, &state, &lambda), said));
            if beyond {
                LmNext::End(
                    LmOutcome::Finished { state, iterations: done + 1, converged: false },
                )
            } else {
                LmNext::Go(state, more)
            }
        },
    }
}

/// Runs the loop for at most `max_iterations` steps.
pub fn levenberg_marquardt<Y, T, L, E, S, R, W>(
    kernel: &LmKernel<S, R, W>,
    layout: &Y,
    start: T,
    initial_lambda: L,
    max_iterations: usize,
) -> (outcome: LmOutcome<T, E>) where
    S: Fn(&Y, &T, &L) -> LmStep<T, E>,
    R: Fn(&L) -> (L, bool),
    W: Fn(&L) -> L,

    requires
        can_step::<Y, T, L, E, S, R, W>(*kernel, *layout),
    ensures
        lm_from(
            *kernel,
            *layout,
            start,
            initial_lambda,
            0,
            max_iterations as nat,
            outcome,
        ),
{
    let mut state = start;
    let mut lambda = initial_lambda;
    let mut done: usize = 0;
    while done < max_iterations
        invariant
            done <= max_iterations,
            can_step::<Y, T, L, E, S, R, W>(*kernel, *layout),
            forall|outcome: LmOutcome<T, E>| #[trigger]
                lm_from(
                    *kernel,
                    *layout,
                    state,
                    lambda,
                    done as nat,
                    (max_iterations - done) as nat,
                    outcome,
                ) ==> lm_from(
                    *kernel,
                    *layout,
                    start,
                    initial_lambda,
                    0,
                    max_iterations as nat,
                    outcome,
                ),
        decreases max_iterations - done,
    {
        let ghost state1 = state;
        let ghost lambda1 = lambda;
        let ghost left = (max_iterations - done) as nat;
        let next = advance(kernel, layout, state, lambda, done);
        assert(is_next(*kernel, *layout, state1, lambda1, done as nat, next));
        match next {
            LmNext::End(outcome) => {
                assert(lm_from(
                    *kernel,
                    *layout,
                    state1,
                    lambda1,
                    done as nat,
                    left,
                    outcome,
                ));
                return outcome;
            },
            LmNext::Go(state2, lambda2) => {
                state = state2;
                lambda = lambda2;
            },
        }
        done += 1;
        assert forall|outcome: LmOutcome<T, E>| #[trigger]
            lm_from(
                *kernel,
                *layout,
                state,
                lambda,
                done as nat,
                (max_iterations - done) as nat,
                outcome,
            ) implies lm_from(
            *kernel,
            *layout,
            start,
            initial_lambda,
            0,
            max_iterations as nat,
            outcome,
        ) by {
            assert((left - 1) as nat == (max_iterations - done) as nat);
            assert(lm_from(
                *kernel,
                *layout,
                state1,
                lambda1,
                (done - 1) as nat,
                left,
                outcome,
            ));
        }
    }
    let outcome = LmOutcome::Finished { state, iterations: done, converged: false };
    assert(lm_from(
        *kernel,
        *layout,
        state,
        lambda,
        done as nat,
        (max_iterations - done) as nat,
        outcome,
    ));
    outcome
}

/// The loop tries at most as many steps as it may, and has tried one where it converged or
/// failed.
pub proof fn lemma_lm_iterations<Y, T, L, E, S, R, W>(
    kernel: LmKernel<S, R, W>,
    layout: Y,
    state: T,
    lambda: L,
    done: nat,
    left: nat,
    outcome: LmOutcome<T, E>,
) where
    S: Fn(&Y, &T, &L) -> LmStep<T, E>,
    R: Fn(&L) -> (L, bool),
    W: Fn(&L) -> L,

    requires
        lm_from(kernel, layout, state, lambda, done, left, outcome),
        done + left <= usize::MAX,
    ensures
        match outcome {
            LmOutcome::Failed(_) => left > 0,
            LmOutcome::Finished { iterations, converged, .. } => {
                &&& done <= iterations <= done + left
                &&& converged ==> iterations > done
                &&& left > 0 ==> iterations > done
            },
        },
    decreases left,
{
    if left > 0 {
        let next = choose|next: LmNext<T, L, E>|
            {
                &&& #[trigger] is_next(kernel, layout, state, lambda, done, next)
                &&& match next {
                    LmNext::End(end) => outcome == end,
                    LmNext::Go(state, lambda) => lm_from(
                        kernel,
                        layout,
                        state,
                        lambda,
                        done + 1,
                        (left - 1) as nat,
                        outcome,
                    ),
                }
            };
        if let LmNext::Go(state2, lambda2) = next {
            lemma_lm_iterations(
                kernel,
                layout,
                state2,
                lambda2,
                done + 1,
                (left - 1) as nat,
                outcome,
            );
        }
    }
}

/// Where no step lowers the cost, the state that the loop ends with is the one it started
/// from.
pub proof fn lemma_lm_keeps_state<Y, T, L, E, S, R, W>(
    kernel: LmKernel<S, R, W>,
    layout: Y,
    state: T,
    lambda: L,
    done: nat,
    left: nat,
    outcome: LmOutcome<T, E>,
) where
    S: Fn(&Y, &T, &L) -> LmStep<T, E>,
    R: Fn(&L) -> (L, bool),
    W: Fn(&L) -> L,

    requires
        lm_from(kernel, layout, state, lambda, done, left, outcome),
        forall|lambda: L, step: LmStep<T, E>| #[trigger]
            call_ensures(kernel.step, (&layout, &state, &lambda), step) ==> !(step is Better),
    ensures
        match outcome {
            LmOutcome::Failed(_) => true,
            LmOutcome::Finished { state: last, converged, .. } => last == state && !converged,
        },
    decreases left,
{
    if left > 0 {
        let next = choose|next: LmNext<T, L, E>|
            {
                &&& #[trigger] is_next(kernel, layout, state, lambda, done, next)
                &&& match next {
                    LmNext::End(end) => outcome == end,
                    LmNext::Go(state, lambda) => lm_from(
                        kernel,
                        layout,
                        state,
                        lambda,
                        done + 1,
                        (left - 1) as nat,
                        outcome,
                    ),
                }
            };
        if let LmNext::Go(state2, lambda2) = next {
            lemma_lm_keeps_state(
                kernel,
                layout,
                state2,
                lambda2,
                done + 1,
                (left - 1) as nat,
                outcome,
            );
        }
    }
}

/// A step that lowers the cost by more than the tolerance is taken: the loop goes on from the
/// state that it leads to, with less damping, one step fewer to go.
pub proof fn lemma_lm_takes_a_better_step<Y, T, L, E, S, R, W>(
    kernel: LmKernel<S, R, W>,
    layout: Y,
    state: T,
    lambda: L,
    done: nat,
    left: nat,
    outcome: LmOutcome<T, E>,
    better: T,
) where
    S: Fn(&Y, &T, &L) -> LmStep<T, E>,
    R: Fn(&L) -> (L, bool),
    W: Fn(&L) -> L,

    requires
        lm_from(kernel, layout, state, lambda, done, left, outcome),
        left > 0,
        forall|step: LmStep<T, E>| #[trigger]
            call_ensures(kernel.step, (&layout, &state, &lambda), step) ==> step == (
            LmStep::<T, E>::Better { state: better, small: false }),
    ensures
        exists|less: L|
            {
                &&& #[trigger] call_ensures(kernel.lower, (&lambda,), less)
                &&& lm_from(kernel, layout, better, less, done + 1, (left - 1) as nat, outcome)
            },
{
    let next = choose|next: LmNext<T, L, E>|
        {
            &&& #[trigger] is_next(kernel, layout, state, lambda, done, next)
            &&& match next {
                LmNext::End(end) => outcome == end,
                LmNext::Go(state, lambda) => lm_from(
                    kernel,
                    layout,
                    state,
                    lambda,
                    done + 1,
                    (left - 1) as nat,
                    outcome,
                ),
            }
        };
}

/// A step that lowers the cost by less than the tolerance is taken, and is the last: the loop has
/// converged at the state that it leads to.
pub proof fn lemma_lm_ends_with_a_small_step<Y, T, L, E, S, R, W>(
    kernel: LmKernel<S, R, W>,
    layout: Y,
    state: T,
    lambda: L,
    done: nat,
    left: nat,
    outcome: LmOutcome<T, E>,
    better: T,
) where
    S: Fn(&Y, &T, &L) -> LmStep<T, E>,
    R: Fn(&L) -> (L, bool),
    W: Fn(&L) -> L,

    requires
        lm_from(kernel, layout, state, lambda, done, left, outcome),
        left > 0,
        done + left <= usize::MAX,
        forall|step: LmStep<T, E>| #[trigger]
            call_ensures(kernel.step, (&layout, &state, &lambda), step) ==> step == (
            LmStep::<T, E>::Better { state: better, small: true }),
    ensures
        outcome matches LmOutcome::Finished { state: last, iterations, converged } && last == better
            && iterations == done + 1 && converged,
{
    let next = choose|next: LmNext<T, L, E>|
        {
            &&& #[trigger] is_next(kernel, layout, state, lambda, done, next)
            &&& match next {
                LmNext::End(end) => outcome == end,
                LmNext::Go(state, lambda) => lm_from(
                    kernel,
                    layout,
                    state,
                    lambda,
                    done + 1,
                    (left - 1) as nat,
                    outcome,
                ),
            }
        };
}

/// A step that does not lower the cost, or that fails, is not taken: the loop goes on from the
/// same state with more damping, or ends where that is beyond the largest. It then ends with
/// the failure where the step failed, else with the same state, and has not converged.
pub proof fn lemma_lm_leaves_a_worse_step<Y, T, L, E, S, R, W>(
    kernel: LmKernel<S, R, W>,
    layout: Y,
    state: T,
    lambda: L,
    done: nat,
    left: nat,
    outcome: LmOutcome<T, E>,
    said: LmStep<T, E>,
) where
    S: Fn(&Y, &T, &L) -> LmStep<T, E>,
    R: Fn(&L) -> (L, bool),
    W: Fn(&L) -> L,

    requires
        lm_from(kernel, layout, state, lambda, done, left, outcome),
        left > 0,
        done + left <= usize::MAX,
        !(said is Better),
        forall|step: LmStep<T, E>| #[trigger]
            call_ensures(kernel.step, (&layout, &state, &lambda), step) ==> step == said,
    ensures
        exists|more: L, beyond: bool|
            {
                &&& #[trigger] call_ensures(kernel.raise, (&lambda,), (more, beyond))
                &&& if beyond {
                    match said {
                        LmStep::Failed(error) => outcome == LmOutcome::<T, E>::Failed(error),
                        _ => outcome matches LmOutcome::Finished {
                            state: last,
                            iterations,
                            converged,
                        } && last == state && iterations == done + 1 && !converged,
                    }
                } else {
                    lm_from(kernel, layout, state, more, done + 1, (left - 1) as nat, outcome)
                }
            },
{
    let next = choose|next: LmNext<T, L, E>|
        {
            &&& #[trigger] is_next(kernel, layout, state, lambda, done, next)
            &&& match next {
                LmNext::End(end) => outcome == end,
                LmNext::Go(state, lambda) => lm_from(
                    kernel,
                    layout,
                    state,
                    lambda,
                    done + 1,
                    (left - 1) as nat,
                    outcome,
                ),
            }
        };
}

/// The cost never rises: where every step that is said to be better leads to a lower cost, the
/// loop ends at the state that it started from or at one of a lower cost.
pub proof fn lemma_lm_cost_never_rises<Y, T, L, E, S, R, W>(
    kernel: LmKernel<S, R, W>,
    layout: Y,
    state: T,
    lambda: L,
    done: nat,
    left: nat,
    outcome: LmOutcome<T, E>,
    cost: spec_fn(T) -> int,
) where
    S: Fn(&Y, &T, &L) -> LmStep<T, E>,
    R: Fn(&L) -> (L, bool),
    W: Fn(&L) -> L,

    requires
        lm_from(kernel, layout, state, lambda, done, left, outcome),
        forall|from: T, damping: L, step: LmStep<T, E>|
            {
                &&& #[trigger] call_ensures(kernel.step, (&layout, &from, &damping), step)
                &&& step is Better
            } ==> cost(step->state) < cost(from),
    ensures
        outcome matches LmOutcome::Finished { state: last, .. } ==> last == state || cost(last)
            < cost(state),
    decreases left,
{
    if left > 0 {
        let next = choose|next: LmNext<T, L, E>|
            {
                &&& #[trigger] is_next(kernel, layout, state, lambda, done, next)
                &&& match next {
                    LmNext::End(end) => outcome == end,
                    LmNext::Go(state, lambda) => lm_from(
                        kernel,
                        layout,
                        state,
                        lambda,
                        done + 1,
                        (left - 1) as nat,
                        outcome,
                    ),
                }
            };
        if let LmNext::Go(state2, lambda2) = next {
            lemma_lm_cost_never_rises(
                kernel,
                layout,
                state2,
                lambda2,
                done + 1,
                (left - 1) as nat,
                outcome,
                cost,
            );
        }
    }
}

/// Where the loop has converged its last step was one that lowers the cost by less than the
/// tolerance, and led to the state that it ends with.
pub proof fn lemma_lm_converges_by_a_small_step<Y, T, L, E, S, R, W>(
    kernel: LmKernel<S, R, W>,
    layout: Y,
    state: T,
    lambda: L,
    done: nat,
    left: nat,
    outcome: LmOutcome<T, E>,
) where
    S: Fn(&Y, &T, &L) -> LmStep<T, E>,
    R: Fn(&L) -> (L, bool),
    W: Fn(&L) -> L,

    requires
        lm_from(kernel, layout, state, lambda, done, left, outcome),
    ensures
        outcome matches LmOutcome::Finished { state: last, converged, .. } ==> (converged
            ==> exists|from: T, damping: L| #[trigger]
            call_ensures(
                kernel.step,
                (&layout, &from, &damping),
                (LmStep::<T, E>::Better { state: last, small: true }),
            )),
    decreases left,
{
    if left > 0 {
        let next = choose|next: LmNext<T, L, E>|
            {
                &&& #[trigger] is_next(kernel, layout, state, lambda, done, next)
                &&& match next {
                    LmNext::End(end) => outcome == end,
                    LmNext::Go(state, lambda) => lm_from(
                        kernel,
                        layout,
                        state,
                        lambda,
                        done + 1,
                        (left - 1) as nat,
                        outcome,
                    ),
                }
            };
        if let LmNext::Go(state2, lambda2) = next {
            lemma_lm_converges_by_a_small_step(
                kernel,
                layout,
                state2,
                lambda2,
                done + 1,
                (left - 1) as nat,
                outcome,
            );
        }
        if let LmNext::End(end) = next {
            let step = choose|step: LmStep<T, E>|
                {
                    &&& #[trigger] call_ensures(kernel.step, (&layout, &state, &lambda), step)
                    &&& match step {
                        LmStep::Better { state: better, small } => small && next == LmNext::<
                            T,
                            L,
                            E,
                        >::End(
                            LmOutcome::<T, E>::Finished {
                                state: better,
                                iterations: (done + 1) as usize,
                                converged: true,
                            },
                        ),
                        _ => !(end is Finished && end->converged),
                    }
                };
            if step is Better {
                assert(step == (LmStep::<T, E>::Better { state: step->state, small: true }));
            }
        }
    }
}

/// Where the loop fails, a step failed with that failure at a damping beyond which there is
/// none.
pub proof fn lemma_lm_fails_at_the_largest_damping<Y, T, L, E, S, R, W>(
    kernel: LmKernel<S, R, W>,
    layout: Y,
    state: T,
    lambda: L,
    done: nat,
    left: nat,
    outcome: LmOutcome<T, E>,
) where
    S: Fn(&Y, &T, &L) -> LmStep<T, E>,
    R: Fn(&L) -> (L, bool),
    W: Fn(&L) -> L,

    requires
        lm_from(kernel, layout, state, lambda, done, left, outcome),
    ensures
        outcome matches LmOutcome::Failed(error) ==> exists|from: T, damping: L, more: L|
            {
                &&& #[trigger] call_ensures(
                    kernel.step,
                    (&layout, &from, &damping),
                    LmStep::<T, E>::Failed(error),
                )
                &&& #[trigger] call_ensures(kernel.raise, (&damping,), (more, true))
            },
    decreases left,
{
    if left > 0 {
        let next = choose|next: LmNext<T, L, E>|
            {
                &&& #[trigger] is_next(kernel, layout, state, lambda, done, next)
                &&& match next {
                    LmNext::End(end) => outcome == end,
                    LmNext::Go(state, lambda) => lm_from(
                        kernel,
                        layout,
                        state,
                        lambda,
                        done + 1,
                        (left - 1) as nat,
                        outcome,
                    ),
                }
            };
        if let LmNext::End(LmOutcome::Failed(error)) = next {
            let step = choose|step: LmStep<T, E>|
                {
                    &&& #[trigger] call_ensures(kernel.step, (&layout, &state, &lambda), step)
                    &&& !(step is Better)
                    &&& exists|more: L, beyond: bool|
                        {
                            &&& #[trigger] call_ensures(kernel.raise, (&lambda,), (more, beyond))
                            &&& beyond
                            &&& step == LmStep::<T, E>::Failed(error)
                        }
                };
            let (more, beyond) = choose|more: L, beyond: bool|
                {
                    &&& #[trigger] call_ensures(kernel.raise, (&lambda,), (more, beyond))
                    &&& beyond
                    &&& step == LmStep::<T, E>::Failed(error)
                };
            assert(call_ensures(
                kernel.step,
                (&layout, &state, &lambda),
                LmStep::<T, E>::Failed(error),
            ));
            assert(call_ensures(kernel.raise, (&lambda,), (more, true)));
        }
        if let LmNext::Go(state2, lambda2) = next {
            lemma_lm_fails_at_the_largest_damping(
                kernel,
                layout,
                state2,
                lambda2,
                done + 1,
                (left - 1) as nat,
                outcome,
            );
        }
    }
}

/// A loop that ends early without converging has come to the largest damping.
pub proof fn lemma_lm_gives_up_at_the_largest_damping<Y, T, L, E, S, R, W>(
    kernel: LmKernel<S, R, W>,
    layout: Y,
    state: T,
    lambda: L,
    done: nat,
    left: nat,
    outcome: LmOutcome<T, E>,
) where
    S: Fn(&Y, &T, &L) -> LmStep<T, E>,
    R: Fn(&L) -> (L, bool),
    W: Fn(&L) -> L,

    requires
        lm_from(kernel, layout, state, lambda, done, left, outcome),
        done + left <= usize::MAX,
    ensures
        outcome matches LmOutcome::Finished { iterations, converged, .. } ==> (!converged
            && iterations < done + left ==> exists|damping: L, more: L| #[trigger]
            call_ensures(kernel.raise, (&damping,), (more, true))),
    decreases left,
{
    if left > 0 {
        let next = choose|next: LmNext<T, L, E>|
            {
                &&& #[trigger] is_next(kernel, layout, state, lambda, done, next)
                &&& match next {
                    LmNext::End(end) => outcome == end,
                    LmNext::Go(state, lambda) => lm_from(
                        kernel,
                        layout,
                        state,
                        lambda,
                        done + 1,
                        (left - 1) as nat,
                        outcome,
                    ),
                }
            };
        if let LmNext::Go(state2, lambda2) = next {
            lemma_lm_gives_up_at_the_largest_damping(
                kernel,
                layout,
                state2,
                lambda2,
                done + 1,
                (left - 1) as nat,
                outcome,
            );
        }
    }
}

} // verus!

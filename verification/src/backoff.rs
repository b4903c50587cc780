//! Exponential reconnect backoff with a ceiling.
use crate::duration::{Duration, MAX_NANOS};
use vstd::arithmetic::power2::*;
use vstd::prelude::*;

verus! {

/// The smaller of two lengths.
pub open spec fn shorter(a: nat, b: nat) -> nat {
    if a <= b {
        a
    } else {
        b
    }
}

/// The delay that follows the delay `current` under the ceiling `max`.
pub open spec fn doubled(current: nat, max: nat) -> nat {
    shorter(2 * current, max)
}

/// The delay before an attempt that `earlier` delays went before since the last
/// reset. The ceiling caps the first delay too.
pub open spec fn delay_after(initial: nat, max: nat, earlier: nat) -> nat
    decreases earlier,
{
    if earlier == 0 {
        shorter(initial, max)
    } else {
        doubled(delay_after(initial, max, (earlier - 1) as nat), max)
    }
}

/// Tracks the delay between reconnect attempts: it doubles after each failure up
/// to a maximum, and resets to the initial delay after a successful connection.
/// No delay exceeds the maximum.
#[derive(Debug)]
pub struct Backoff {
    initial: Duration,
    max: Duration,
    current: Duration,
}

impl Backoff {
    /// The delay that a reset returns to, in nanoseconds.
    pub closed spec fn initial(self) -> nat {
        self.initial@
    }

    /// The ceiling, in nanoseconds.
    pub closed spec fn max(self) -> nat {
        self.max@
    }

    /// The delay that comes next, in nanoseconds.
    pub closed spec fn current(self) -> nat {
        self.current@
    }

    /// No delay lies above the ceiling.
    #[verifier::type_invariant]
    spec fn capped(self) -> bool {
        self.current@ <= self.max@ && self.initial@ <= self.max@
    }

    /// Create a backoff starting at `initial`, capped at `max`.
    #[must_use]
    pub fn new(initial: Duration, max: Duration) -> (backoff: Backoff)
        ensures
            backoff.initial() == shorter(initial@, max@),
            backoff.max() == max@,
            backoff.current() == shorter(initial@, max@),
            backoff.current() == delay_after(initial@, max@, 0),
            backoff.current() == due_after(initial@, max@, Seq::empty()),
    {
        let first = initial.min(max);
        Backoff { initial: first, max, current: first }
    }

    /// Whether the delay after an attempt can be doubled: the initial delay where
    /// the attempt was `clean`, else the current one.
    pub fn can_advance(&self, clean: bool) -> (fits: bool)
        ensures
            fits == (2 * (if clean {
                self.initial()
            } else {
                self.current()
            }) <= MAX_NANOS),
    {
        if clean {
            self.initial.can_double()
        } else {
            self.current.can_double()
        }
    }

    /// The delay to wait before the next attempt, then double it (up to `max`).
    pub fn next_delay(&mut self) -> (delay: Duration)
        requires
            2 * old(self).current() <= MAX_NANOS,
        ensures
            delay@ == old(self).current(),
            delay@ <= old(self).max(),
            final(self).current() == doubled(old(self).current(), old(self).max()),
            final(self).initial() == old(self).initial(),
            final(self).max() == old(self).max(),
    {
        proof {
            use_type_invariant(&*self);
        }
        let delay = self.current;
        self.current = self.current.double().min(self.max);
        delay
    }

    /// Reset to the initial delay after a successful connection.
    pub fn reset(&mut self)
        ensures
            final(self).current() == old(self).initial(),
            final(self).initial() == old(self).initial(),
            final(self).max() == old(self).max(),
    {
        proof {
            use_type_invariant(&*self);
        }
        self.current = self.initial;
    }

    /// The delay to wait once a connection attempt is over. `clean` says that the
    /// attempt reached the service and ended without an error; it resets the
    /// backoff first.
    pub fn delay_after_attempt(&mut self, clean: bool) -> (delay: Duration)
        requires
            clean ==> 2 * old(self).initial() <= MAX_NANOS,
            !clean ==> 2 * old(self).current() <= MAX_NANOS,
        ensures
            delay@ == if clean {
                old(self).initial()
            } else {
                old(self).current()
            },
            delay@ <= old(self).max(),
            final(self).current() == doubled(delay@, old(self).max()),
            final(self).initial() == old(self).initial(),
            final(self).max() == old(self).max(),
            forall|outcomes: Seq<bool>|
                old(self).current() == due_after(old(self).initial(), old(self).max(), outcomes)
                    ==> delay@ == #[trigger] delay_following(
                    old(self).initial(),
                    old(self).max(),
                    outcomes.push(clean),
                ) && final(self).current() == due_after(
                    old(self).initial(),
                    old(self).max(),
                    outcomes.push(clean),
                ),
    {
        proof {
            assert forall|outcomes: Seq<bool>| (#[trigger] outcomes.push(clean)).last() == clean
                && outcomes.push(clean).drop_last() == outcomes by {
                assert(outcomes.push(clean).drop_last() =~= outcomes);
            }
        }
        if clean {
            self.reset();
        }
        self.next_delay()
    }
}

impl Clone for Backoff {
    fn clone(&self) -> (copy: Backoff)
        ensures
            copy == *self,
    {
        proof {
            use_type_invariant(self);
        }
        Backoff { initial: self.initial, max: self.max, current: self.current }
    }
}

/// The delay that is due next once the attempts of `outcomes` are over, `true`
/// for a clean one, and each was followed by its delay.
pub open spec fn due_after(initial: nat, max: nat, outcomes: Seq<bool>) -> nat
    decreases outcomes.len(),
{
    if outcomes.len() == 0 {
        shorter(initial, max)
    } else if outcomes.last() {
        doubled(shorter(initial, max), max)
    } else {
        doubled(due_after(initial, max, outcomes.drop_last()), max)
    }
}

/// The delay that follows the last attempt of `outcomes`.
pub open spec fn delay_following(initial: nat, max: nat, outcomes: Seq<bool>) -> nat {
    if outcomes.last() {
        shorter(initial, max)
    } else {
        due_after(initial, max, outcomes.drop_last())
    }
}

/// The number of failures at the end of `outcomes`, after the last clean attempt.
pub open spec fn trailing_failures(outcomes: Seq<bool>) -> nat
    decreases outcomes.len(),
{
    if outcomes.len() == 0 || outcomes.last() {
        0
    } else {
        trailing_failures(outcomes.drop_last()) + 1
    }
}

/// The delay doubles with each attempt up to the ceiling: after `earlier` delays
/// it is the initial delay times two to the power of `earlier`, or the ceiling
/// where that is less.
pub proof fn law_delay_doubles_up_to_ceiling(initial: nat, max: nat, earlier: nat)
    ensures
        delay_after(initial, max, earlier) == shorter(initial * pow2(earlier), max),
    decreases earlier,
{
    if earlier > 0 {
        let before = (earlier - 1) as nat;
        law_delay_doubles_up_to_ceiling(initial, max, before);
        lemma_pow2_unfold(earlier);
        assert(initial * (2 * pow2(before)) == 2 * (initial * pow2(before))) by (nonlinear_arith);
    } else {
        lemma2_to64();
        assert(initial * pow2(0) == initial) by (nonlinear_arith)
            requires
                pow2(0) == 1,
        ;
    }
}

/// No delay exceeds the ceiling.
pub proof fn law_delay_within_ceiling(initial: nat, max: nat, earlier: nat)
    ensures
        delay_after(initial, max, earlier) <= max,
{
}

/// Delays never shrink between resets.
pub proof fn law_delay_never_shrinks(initial: nat, max: nat, earlier: nat, later: nat)
    requires
        earlier <= later,
    ensures
        delay_after(initial, max, earlier) <= delay_after(initial, max, later),
    decreases later,
{
    if earlier < later {
        law_delay_never_shrinks(initial, max, earlier, (later - 1) as nat);
        law_delay_within_ceiling(initial, max, (later - 1) as nat);
    }
}

/// A delay that is not zero reaches the ceiling and stays there.
pub proof fn law_delay_settles_at_ceiling(initial: nat, max: nat, earlier: nat)
    requires
        initial > 0,
        pow2(earlier) >= max,
    ensures
        delay_after(initial, max, earlier) == max,
{
    law_delay_doubles_up_to_ceiling(initial, max, earlier);
    assert(initial * pow2(earlier) >= pow2(earlier)) by (nonlinear_arith)
        requires
            initial > 0,
    ;
}

/// Doubling never overflows when twice the ceiling is a span.
pub proof fn law_delay_can_always_double(initial: nat, max: nat, earlier: nat)
    requires
        2 * max <= MAX_NANOS,
    ensures
        2 * delay_after(initial, max, earlier) <= MAX_NANOS,
{
}

/// A clean attempt is followed by the initial delay, or the ceiling where that is
/// less.
pub proof fn law_clean_attempt_resets(initial: nat, max: nat, outcomes: Seq<bool>)
    requires
        outcomes.len() > 0,
        outcomes.last(),
    ensures
        delay_following(initial, max, outcomes) == shorter(initial, max),
{
}

/// The delay after an attempt depends only on the failures since the last clean
/// attempt, or since the start.
pub proof fn law_delay_counts_failures(initial: nat, max: nat, outcomes: Seq<bool>)
    requires
        outcomes.len() > 0,
    ensures
        delay_following(initial, max, outcomes) == delay_after(
            initial,
            max,
            if trailing_failures(outcomes) == outcomes.len() {
                (outcomes.len() - 1) as nat
            } else {
                trailing_failures(outcomes)
            },
        ),
{
    if !outcomes.last() {
        lemma_due_counts_failures(initial, max, outcomes.drop_last());
    }
}

/// The delay that is due counts the delays since the last reset.
proof fn lemma_due_counts_failures(initial: nat, max: nat, outcomes: Seq<bool>)
    ensures
        due_after(initial, max, outcomes) == delay_after(
            initial,
            max,
            if trailing_failures(outcomes) == outcomes.len() {
                outcomes.len()
            } else {
                trailing_failures(outcomes) + 1
            },
        ),
        trailing_failures(outcomes) <= outcomes.len(),
    decreases outcomes.len(),
{
    if outcomes.len() > 0 && !outcomes.last() {
        lemma_due_counts_failures(initial, max, outcomes.drop_last());
    } else if outcomes.len() > 0 {
        reveal_with_fuel(delay_after, 2);
    }
}

/// The first delay is the initial delay, or the ceiling where that is less, whatever
/// came of the first attempt.
pub proof fn law_first_delay_is_the_initial(initial: nat, max: nat, clean: bool)
    ensures
        initial <= max ==> delay_following(initial, max, seq![clean]) == initial && delay_after(
            initial,
            max,
            0,
        ) == initial,
        initial > max ==> delay_following(initial, max, seq![clean]) == max && delay_after(
            initial,
            max,
            0,
        ) == max,
{
    assert(seq![clean].drop_last() =~= Seq::empty());
}

/// One more failure doubles the delay, up to the ceiling.
pub proof fn law_one_more_failure_doubles_the_delay(initial: nat, max: nat, outcomes: Seq<bool>)
    requires
        outcomes.len() > 0,
    ensures
        ({
            let delay = delay_following(initial, max, outcomes);
            let next = delay_following(initial, max, outcomes.push(false));
            &&& 2 * delay <= max ==> next == 2 * delay
            &&& 2 * delay > max ==> next == max
        }),
{
    assert(outcomes.push(false).drop_last() =~= outcomes);
}

/// One more delay since the last reset is twice the one before, up to the ceiling.
pub proof fn law_one_more_delay_doubles(initial: nat, max: nat, earlier: nat)
    ensures
        ({
            let delay = delay_after(initial, max, earlier);
            let next = delay_after(initial, max, earlier + 1);
            &&& 2 * delay <= max ==> next == 2 * delay
            &&& 2 * delay > max ==> next == max
        }),
{
}

/// A clean attempt is followed by the first delay again, whatever came before.
pub proof fn law_a_clean_attempt_starts_over(initial: nat, max: nat, outcomes: Seq<bool>)
    ensures
        delay_following(initial, max, outcomes.push(true)) == delay_following(
            initial,
            max,
            seq![true],
        ),
        initial <= max ==> delay_following(initial, max, outcomes.push(true)) == initial,
{
}

} // verus!

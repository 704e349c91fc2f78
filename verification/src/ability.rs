//! The dash ability: its cooldown and the icon that shows it.

use vstd::prelude::*;

verus! {

/// A fraction that stands for the whole: fractions are counted in ten-thousandths.
pub const FULL: u32 = 10_000;

/// Length of the dash cooldown, in nanoseconds.
pub const COOLDOWN_TIME: u64 = 1_000_000_000;

/// Atlas frame of the dash icon when the dash is ready.
pub const READY_FRAME: usize = 55;

/// Atlas frame of the dash icon when a countdown has only begun.
pub const FIRST_COOLING_FRAME: usize = 56;

/// What a cooldown is: `None` while no countdown was ever started, else the
/// time elapsed of the countdown and its total, in nanoseconds.
pub type Countdown = Option<(nat, nat)>;

/// The dash can be used: no countdown is there, or it has run out.
pub open spec fn is_available(state: Countdown) -> bool {
    match state {
        None => true,
        Some((elapsed, total)) => elapsed >= total,
    }
}

/// The part of the countdown that has elapsed, in ten-thousandths rounded
/// down; the whole where no countdown is there or it has no length.
pub open spec fn fraction_elapsed(state: Countdown) -> nat {
    match state {
        None => FULL as nat,
        Some((elapsed, total)) => if total == 0 {
            FULL as nat
        } else {
            ((elapsed * FULL) / (total as int)) as nat
        },
    }
}

/// The state after the dash is used: a countdown of `duration` starts where
/// none was there, a countdown that has run out starts again from zero, and
/// one that still runs is left alone.
pub open spec fn after_consume(state: Countdown, duration: nat) -> Countdown {
    match state {
        None => Some((0nat, duration)),
        Some((elapsed, total)) => if elapsed >= total {
            Some((0nat, total))
        } else {
            state
        },
    }
}

/// The state after `delta` nanoseconds: a countdown moves on, but never past
/// its total.
pub open spec fn after_tick(state: Countdown, delta: nat) -> Countdown {
    match state {
        None => None,
        Some((elapsed, total)) => if elapsed + delta >= total {
            Some((total, total))
        } else {
            Some((elapsed + delta, total))
        },
    }
}

/// `state` is a state of a cooldown of length `duration`: a countdown, where
/// there is one, has that length and has not run past it.
pub open spec fn countdown_of(state: Countdown, duration: nat) -> bool {
    match state {
        None => true,
        Some((elapsed, total)) => elapsed <= total && total == duration,
    }
}

/// The frame that shows a running countdown of which `fraction`
/// ten-thousandths have elapsed.
pub open spec fn cooling_frame(fraction: nat) -> nat {
    if fraction < 1250 {
        56
    } else if fraction < 2500 {
        57
    } else if fraction < 3750 {
        58
    } else if fraction < 5000 {
        59
    } else if fraction < 6125 {
        60
    } else if fraction < 7500 {
        61
    } else if fraction < 8750 {
        62
    } else if fraction < 10000 {
        63
    } else {
        55
    }
}

/// The frame of the dash icon: the ready frame whenever the dash is
/// available, whatever fraction is stored, else the frame of the fraction.
pub open spec fn dash_icon_frame(state: Countdown) -> nat {
    if is_available(state) {
        READY_FRAME as nat
    } else {
        cooling_frame(fraction_elapsed(state))
    }
}

/// Cooldown of the dash ability.
#[derive(Clone, Copy, Debug)]
pub struct DashAbilityCooldown {
    elapsed: Option<u64>,
    duration: u64,
}

impl DashAbilityCooldown {
    /// The cooldown's state.
    pub closed spec fn view(&self) -> Countdown {
        match self.elapsed {
            None => None,
            Some(elapsed) => Some((elapsed as nat, self.duration as nat)),
        }
    }

    /// The length of the countdowns that this cooldown starts.
    pub closed spec fn duration(&self) -> nat {
        self.duration as nat
    }

    /// A countdown, where there is one, has the configured length and has not
    /// run past it.
    #[verifier::type_invariant]
    pub open spec fn valid(&self) -> bool {
        countdown_of(self@, self.duration())
    }

    /// A cooldown of `duration` nanoseconds, ready.
    pub fn with_duration(duration: u64) -> (c: Self)
        ensures
            c@ == None::<(nat, nat)>,
            c.duration() == duration,
    {
        DashAbilityCooldown { elapsed: None, duration }
    }

    /// Whether the dash can be used.
    pub fn available(&self) -> (ready: bool)
        ensures
            ready == is_available(self@),
    {
        match self.elapsed {
            Some(elapsed) => elapsed >= self.duration,
            None => true,
        }
    }

    /// Uses the dash: starts the countdown, or starts it again where it has
    /// run out. A countdown that still runs is not touched.
    pub fn consume(&mut self)
        ensures
            final(self)@ == after_consume(old(self)@, old(self).duration()),
            final(self).duration() == old(self).duration(),
    {
        proof {
            use_type_invariant(&*self);
        }
        match self.elapsed {
            Some(elapsed) => {
                if elapsed >= self.duration {
                    self.elapsed = Some(0);
                }
            },
            None => {
                self.elapsed = Some(0);
            },
        }
    }

    /// The part of the countdown that has elapsed, in ten-thousandths.
    pub fn percentage(&self) -> (fraction: u32)
        ensures
            fraction == fraction_elapsed(self@),
            fraction <= FULL,
    {
        proof {
            use_type_invariant(self);
        }
        match self.elapsed {
            Some(elapsed) => {
                if self.duration == 0 {
                    FULL
                } else {
                    let scaled: u128 = elapsed as u128 * FULL as u128;
                    let total: u128 = self.duration as u128;
                    proof {
                        assert(scaled <= total * 10000) by (nonlinear_arith)
                            requires
                                scaled == elapsed * 10000,
                                elapsed <= total,
                        ;
                        vstd::arithmetic::div_mod::lemma_div_is_ordered(
                            scaled as int,
                            total * 10000,
                            total as int,
                        );
                        vstd::arithmetic::div_mod::lemma_div_multiples_vanish(
                            10000,
                            total as int,
                        );
                        assert(total * 10000 == 10000 * total) by (nonlinear_arith);
                    }
                    (scaled / total) as u32
                }
            },
            None => FULL,
        }
    }

    /// Moves a countdown on by `delta` nanoseconds. Without a countdown
    /// nothing changes.
    pub fn tick(&mut self, delta: u64)
        ensures
            final(self)@ == after_tick(old(self)@, delta as nat),
            final(self).duration() == old(self).duration(),
    {
        proof {
            use_type_invariant(&*self);
        }
        match self.elapsed {
            Some(elapsed) => {
                if delta >= self.duration - elapsed {
                    self.elapsed = Some(self.duration);
                } else {
                    self.elapsed = Some(elapsed + delta);
                }
            },
            None => {},
        }
    }
}

impl Default for DashAbilityCooldown {
    /// The dash cooldown of the game: one second, ready.
    fn default() -> (c: Self)
        ensures
            c@ == None::<(nat, nat)>,
            c.duration() == COOLDOWN_TIME,
    {
        DashAbilityCooldown { elapsed: None, duration: COOLDOWN_TIME }
    }
}

/// The icon that shows the dash cooldown: a frame of the ability atlas.
#[derive(Clone, Copy, Debug, PartialEq, Eq, Structural)]
pub struct DashCooldownIcon {
    pub index: usize,
}

/// The frame that shows a running countdown of which `fraction`
/// ten-thousandths have elapsed.
pub fn cooling_frame_for(fraction: u32) -> (frame: usize)
    ensures
        frame == cooling_frame(fraction as nat),
{
    if fraction < 1250 {
        56
    } else if fraction < 2500 {
        57
    } else if fraction < 3750 {
        58
    } else if fraction < 5000 {
        59
    } else if fraction < 6125 {
        60
    } else if fraction < 7500 {
        61
    } else if fraction < 8750 {
        62
    } else if fraction < 10000 {
        63
    } else {
        55
    }
}

/// Sets the dash icon to the frame that shows the cooldown.
pub fn update_ability_ui(icon: &mut DashCooldownIcon, dash_cooldown: &DashAbilityCooldown)
    ensures
        final(icon).index == dash_icon_frame(dash_cooldown@),
        is_available(dash_cooldown@) ==> final(icon).index == READY_FRAME,
{
    if dash_cooldown.available() {
        icon.index = READY_FRAME;
    } else {
        let percentage: u32 = dash_cooldown.percentage();
        icon.index = cooling_frame_for(percentage);
    }
}

/// Using the dash twice in a row is using it once: a countdown that was
/// just started is not started again.
pub proof fn lemma_consume_does_not_stack(state: Countdown, duration: nat)
    requires
        countdown_of(state, duration),
    ensures
        after_consume(after_consume(state, duration), duration) == after_consume(
            state,
            duration,
        ),
        countdown_of(after_consume(state, duration), duration),
{
}

/// Two ticks in a row are one tick of their sum.
pub proof fn lemma_ticks_add_up(state: Countdown, first: nat, second: nat)
    ensures
        after_tick(after_tick(state, first), second) == after_tick(state, first + second),
{
}

/// After the dash is used, a tick of the cooldown's whole length makes the
/// dash available again with the whole fraction elapsed.
pub proof fn lemma_full_tick_makes_available(state: Countdown, duration: nat)
    requires
        duration > 0,
        countdown_of(state, duration),
    ensures
        is_available(after_tick(after_consume(state, duration), duration)),
        fraction_elapsed(after_tick(after_consume(state, duration), duration)) == FULL,
{
    vstd::arithmetic::div_mod::lemma_div_multiples_vanish(FULL as int, duration as int);
    assert(duration * FULL == FULL * duration) by (nonlinear_arith);
}

/// After an available dash is used, a tick of `delta` nanoseconds, more than
/// none and less than the cooldown's length, leaves the dash unavailable and
/// less than the whole fraction elapsed; the fraction is above zero once
/// `delta` is a ten-thousandth of the length.
pub proof fn lemma_partial_tick_keeps_cooling(state: Countdown, duration: nat, delta: nat)
    requires
        is_available(state),
        countdown_of(state, duration),
        0 < delta < duration,
    ensures
        !is_available(after_tick(after_consume(state, duration), delta)),
        fraction_elapsed(after_tick(after_consume(state, duration), delta)) < FULL,
        delta * FULL >= duration ==> fraction_elapsed(
            after_tick(after_consume(state, duration), delta),
        ) > 0,
{
    let after = after_tick(after_consume(state, duration), delta);
    assert(after == Some((delta, duration)));
    assert(delta * FULL < duration * FULL) by (nonlinear_arith)
        requires
            delta < duration,
    ;
    vstd::arithmetic::div_mod::lemma_div_by_multiple_is_strongly_ordered(
        delta * FULL,
        duration * FULL,
        FULL as int,
        duration as int,
    );
    vstd::arithmetic::div_mod::lemma_div_multiples_vanish(FULL as int, duration as int);
    assert(duration * FULL == FULL * duration) by (nonlinear_arith);
    if delta * FULL >= duration {
        vstd::arithmetic::div_mod::lemma_div_is_ordered(
            duration as int,
            delta * FULL,
            duration as int,
        );
        vstd::arithmetic::div_mod::lemma_div_by_self(duration as int);
    }
}

/// After an available dash is used, a tick of half the cooldown's length
/// leaves the dash unavailable, with a fraction elapsed above zero and below
/// the whole.
pub proof fn lemma_half_tick_keeps_cooling(state: Countdown, duration: nat)
    requires
        is_available(state),
        countdown_of(state, duration),
        duration >= 2,
    ensures
        !is_available(after_tick(after_consume(state, duration), duration / 2)),
        0 < fraction_elapsed(after_tick(after_consume(state, duration), duration / 2)) < FULL,
{
    let half: nat = duration / 2;
    assert(half * FULL >= duration) by (nonlinear_arith)
        requires
            half == duration / 2,
            duration >= 2,
    ;
    lemma_partial_tick_keeps_cooling(state, duration, half);
}

} // verus!

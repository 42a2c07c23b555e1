//! Frame-stepped transition state machines: a boolean toggle transition that
//! restarts on every signal change, and the stepped volume counter that
//! queues unit steps toward the latest target instead of restarting.

use vstd::prelude::*;

verus! {

/// Transition between two boolean states over `len` discrete frames.
/// `step == len` means settled; a signal change observed while settled or
/// mid-flight re-enters the transition at step 0 with fresh endpoints.
pub struct ToggleTransition {
    /// Signal value seen by the last observation, if any.
    pub prev: Option<bool>,
    /// State the current transition leaves.
    pub from: bool,
    /// State the current transition enters.
    pub to: bool,
    /// Frames of the current transition already shown, clamped to `len`.
    pub step: u8,
    /// Frames a full transition takes.
    pub len: u8,
}

/// The state after one observation of the signal: a change against the
/// previously observed value restarts the transition at step 0.
pub open spec fn spec_toggle_observe(st: ToggleTransition, now: bool) -> ToggleTransition {
    if st.prev is Some && st.prev.unwrap() != now {
        ToggleTransition {
            prev: Some(now),
            from: st.prev.unwrap(),
            to: now,
            step: 0,
            len: st.len,
        }
    } else {
        ToggleTransition { prev: Some(now), from: st.from, to: st.to, step: st.step, len: st.len }
    }
}

/// The state after one drawn frame: an active transition advances one step.
pub open spec fn spec_toggle_advance(st: ToggleTransition) -> ToggleTransition {
    if st.step < st.len {
        ToggleTransition {
            prev: st.prev,
            from: st.from,
            to: st.to,
            step: (st.step + 1) as u8,
            len: st.len,
        }
    } else {
        st
    }
}

/// One render tick: observe the signal, then advance.
pub open spec fn spec_toggle_tick(st: ToggleTransition, now: bool) -> ToggleTransition {
    spec_toggle_advance(spec_toggle_observe(st, now))
}

/// `n` render ticks under a constant signal.
pub open spec fn spec_toggle_run(st: ToggleTransition, now: bool, n: nat) -> ToggleTransition
    decreases n,
{
    if n == 0 {
        st
    } else {
        spec_toggle_run(spec_toggle_tick(st, now), now, (n - 1) as nat)
    }
}

impl ToggleTransition {
    pub open spec fn wf(&self) -> bool {
        self.step <= self.len
    }

    /// A transition is active while it still has frames to show.
    pub open spec fn spec_active(&self) -> bool {
        self.step < self.len
    }

    /// Fresh state: no signal observed yet, and an initial `len`-frame
    /// settle-in transition between identical states.
    pub fn new(len: u8) -> (r: ToggleTransition)
        ensures
            r.wf(),
            r.prev is None,
            r.from == false,
            r.to == false,
            r.step == 0,
            r.len == len,
    {
        ToggleTransition { prev: None, from: false, to: false, step: 0, len }
    }

    pub fn is_active(&self) -> (r: bool)
        ensures
            r == self.spec_active(),
    {
        self.step < self.len
    }

    /// Records one observation of the driving signal; a change restarts the
    /// transition with `from` the old value and `to` the new one.
    pub fn observe(&mut self, now: bool)
        requires
            old(self).wf(),
        ensures
            final(self).wf(),
            *final(self) == spec_toggle_observe(*old(self), now),
    {
        if let Some(prev) = self.prev {
            if prev != now {
                self.from = prev;
                self.to = now;
                self.step = 0;
            }
        }
        self.prev = Some(now);
    }

    /// Advances an active transition by one drawn frame.
    pub fn advance(&mut self)
        requires
            old(self).wf(),
        ensures
            final(self).wf(),
            *final(self) == spec_toggle_advance(*old(self)),
    {
        if self.step < self.len {
            self.step = self.step + 1;
        }
    }
}

/// Under a signal already observed once, the step count grows by one per
/// tick until the transition settles.
proof fn lemma_toggle_run_step(st: ToggleTransition, now: bool, n: nat)
    requires
        st.wf(),
        st.prev == Some(now),
    ensures
        spec_toggle_run(st, now, n).wf(),
        spec_toggle_run(st, now, n).len == st.len,
        spec_toggle_run(st, now, n).prev == Some(now),
        spec_toggle_run(st, now, n).step >= vstd::math::min(st.step + n, st.len as int),
    decreases n,
{
    if n > 0 {
        let st1 = spec_toggle_tick(st, now);
        lemma_toggle_run_step(st1, now, (n - 1) as nat);
    }
}

/// Toggle transition termination: after `len` consecutive ticks that all
/// observe the same signal value, the transition is settled (no longer
/// active), and the value it last observed is that signal, so the consumer
/// draws the signal's static bitmap.
pub proof fn lemma_toggle_settles(st: ToggleTransition, now: bool, n: nat)
    requires
        st.wf(),
        n >= st.len,
        n >= 1,
    ensures
        !spec_toggle_run(st, now, n).spec_active(),
        spec_toggle_run(st, now, n).prev == Some(now),
        spec_toggle_run(st, now, n).len == st.len,
{
    let st1 = spec_toggle_tick(st, now);
    lemma_toggle_run_step(st1, now, (n - 1) as nat);
}

/// Stepped counter transition for the volume readout. `display` is the last
/// fully settled value, `target` the latest observed one; while they differ,
/// the counter advances one unit at a time, each unit running its own
/// `len`-frame slide, at a speed that grows with the remaining distance.
pub struct VolumeRoll {
    /// Last fully settled value, absent until the first observation.
    pub display: Option<i32>,
    /// Latest observed target value.
    pub target: i32,
    /// Value the current unit step leaves.
    pub step_from: i32,
    /// Value the current unit step enters; differs from `step_from` by at
    /// most one.
    pub step_to: i32,
    /// Frames of the current unit step already shown.
    pub step: u8,
    /// Frames one unit step takes.
    pub len: u8,
    /// Base units advanced per tick before the distance bonus.
    pub speed: u8,
}

impl VolumeRoll {
    pub open spec fn wf(&self) -> bool {
        &&& self.display is Some ==> 0 <= self.display.unwrap() <= 100
        &&& 0 <= self.target <= 100
        &&& 0 <= self.step_from <= 100
        &&& 0 <= self.step_to <= 100
        &&& -1 <= self.step_to - self.step_from <= 1
        &&& self.step <= self.len
        &&& self.len >= 1
        &&& 1 <= self.speed <= 3
    }

    /// Whether a unit-step slide is currently being drawn.
    pub open spec fn spec_animating(&self) -> bool {
        self.step < self.len && self.step_from != self.step_to
    }

    pub fn new(len: u8, speed: u8) -> (r: VolumeRoll)
        requires
            len >= 1,
            1 <= speed <= 3,
        ensures
            r.wf(),
            r.display is None,
            r.target == 0,
            r.step_from == 0,
            r.step_to == 0,
            r.step == len,
            r.len == len,
            r.speed == speed,
    {
        VolumeRoll { display: None, target: 0, step_from: 0, step_to: 0, step: len, len, speed }
    }

    pub fn is_animating(&self) -> (r: bool)
        ensures
            r == self.spec_animating(),
    {
        self.step < self.len && self.step_from != self.step_to
    }
}

/// The state after observing a new target value: the first observation
/// settles on it immediately; later ones update the target and, when the
/// counter is fully settled, seed the next unit step toward it.
pub open spec fn spec_roll_observe(st: VolumeRoll, now: int) -> VolumeRoll {
    if st.display is None {
        VolumeRoll {
            display: Some(now as i32),
            target: now as i32,
            step_from: now as i32,
            step_to: now as i32,
            step: st.len,
            len: st.len,
            speed: st.speed,
        }
    } else {
        let st1 = VolumeRoll { target: now as i32, ..st };
        if st1.step >= st1.len && st1.step_from == st1.step_to && st1.display.unwrap() != now {
            VolumeRoll {
                step_from: st1.display.unwrap(),
                step_to: (st1.display.unwrap() + (if now > st1.display.unwrap() {
                    1int
                } else {
                    -1int
                })) as i32,
                step: 0,
                ..st1
            }
        } else {
            st1
        }
    }
}

/// One unit of animation work: finish or re-seed a settled step, otherwise
/// advance the current slide one frame, settling and chaining into the next
/// unit step when it completes.
pub open spec fn spec_roll_step(st: VolumeRoll) -> VolumeRoll {
    if st.step_from == st.step_to || st.step >= st.len {
        let shown = if st.display is Some {
            st.display.unwrap() as int
        } else {
            st.target as int
        };
        if shown != st.target {
            VolumeRoll {
                step_from: shown as i32,
                step_to: (shown + (if st.target > shown {
                    1int
                } else {
                    -1int
                })) as i32,
                step: 0,
                ..st
            }
        } else {
            st
        }
    } else {
        let step2 = (st.step + 1) as u8;
        if step2 >= st.len {
            if st.step_to != st.target {
                VolumeRoll {
                    display: Some(st.step_to),
                    step_from: st.step_to,
                    step_to: (st.step_to + (if st.target > st.step_to {
                        1int
                    } else {
                        -1int
                    })) as i32,
                    step: 0,
                    ..st
                }
            } else {
                VolumeRoll { display: Some(st.step_to), step_from: st.step_to, step: step2, ..st }
            }
        } else {
            VolumeRoll { step: step2, ..st }
        }
    }
}

/// `n` units of animation work in sequence.
pub open spec fn spec_roll_step_n(st: VolumeRoll, n: nat) -> VolumeRoll
    decreases n,
{
    if n == 0 {
        st
    } else {
        spec_roll_step_n(spec_roll_step(st), (n - 1) as nat)
    }
}

/// Units advanced this tick: the base speed plus a bonus that grows with the
/// remaining distance to the target (0 for distance 0-2, 1 for 3-8, 2
/// beyond), clamped to at most 3 so large jumps catch up without teleporting.
pub open spec fn spec_roll_speed(st: VolumeRoll) -> int {
    let shown = if st.display is Some {
        st.display.unwrap() as int
    } else {
        st.target as int
    };
    let distance = if st.target >= shown {
        st.target - shown
    } else {
        shown - st.target
    };
    let bonus: int = if distance <= 2 {
        0
    } else if distance <= 8 {
        1
    } else {
        2
    };
    let sp = st.speed + bonus;
    if sp < 1 {
        1
    } else if sp > 3 {
        3
    } else {
        sp
    }
}

impl VolumeRoll {
    /// Records the latest target value (clamped to 0..=100 by the caller).
    pub fn observe(&mut self, now: i32)
        requires
            old(self).wf(),
            0 <= now <= 100,
        ensures
            final(self).wf(),
            *final(self) == spec_roll_observe(*old(self), now as int),
    {
        if self.display.is_none() {
            self.display = Some(now);
            self.target = now;
            self.step_from = now;
            self.step_to = now;
            self.step = self.len;
            return ;
        }
        self.target = now;
        if self.step >= self.len && self.step_from == self.step_to {
            let shown = match self.display {
                Some(v) => v,
                None => now,
            };
            if shown != self.target {
                self.step_from = shown;
                self.step_to = shown + (if self.target > shown {
                    1
                } else {
                    -1
                });
                self.step = 0;
            }
        }
    }

    /// One unit of animation work.
    fn step_once(&mut self)
        requires
            old(self).wf(),
        ensures
            final(self).wf(),
            *final(self) == spec_roll_step(*old(self)),
    {
        if self.step_from == self.step_to || self.step >= self.len {
            let shown = match self.display {
                Some(v) => v,
                None => self.target,
            };
            if shown != self.target {
                self.step_from = shown;
                self.step_to = shown + (if self.target > shown {
                    1
                } else {
                    -1
                });
                self.step = 0;
            }
            return ;
        }
        self.step = self.step + 1;
        if self.step >= self.len {
            self.display = Some(self.step_to);
            if self.step_to != self.target {
                self.step_from = self.step_to;
                self.step_to = self.step_to + (if self.target > self.step_to {
                    1
                } else {
                    -1
                });
                self.step = 0;
            } else {
                self.step_from = self.step_to;
            }
        }
    }

    /// Advances the animation by this tick's unit budget: the base speed
    /// plus the distance bonus.
    pub fn advance(&mut self)
        requires
            old(self).wf(),
        ensures
            final(self).wf(),
            *final(self) == spec_roll_step_n(*old(self), spec_roll_speed(*old(self)) as nat),
    {
        let shown = match self.display {
            Some(v) => v,
            None => self.target,
        };
        let distance = if self.target >= shown {
            self.target - shown
        } else {
            shown - self.target
        };
        let bonus: i32 = if distance <= 2 {
            0
        } else if distance <= 8 {
            1
        } else {
            2
        };
        let mut sp = self.speed as i32 + bonus;
        if sp < 1 {
            sp = 1;
        }
        if sp > 3 {
            sp = 3;
        }
        let ghost st0 = *self;
        let mut i: i32 = 0;
        while i < sp
            invariant
                0 <= i <= sp,
                sp == spec_roll_speed(st0),
                self.wf(),
                *self == spec_roll_step_n(st0, i as nat),
            decreases sp - i,
        {
            proof {
                assert(spec_roll_step_n(st0, (i + 1) as nat) == spec_roll_step(
                    spec_roll_step_n(st0, i as nat),
                )) by {
                    lemma_roll_step_n_unfold(st0, i as nat);
                }
            }
            self.step_once();
            i = i + 1;
        }
    }
}

/// Running one more unit of animation work equals one unit applied after the
/// first `n`.
proof fn lemma_roll_step_n_unfold(st: VolumeRoll, n: nat)
    ensures
        spec_roll_step_n(st, n + 1) == spec_roll_step(spec_roll_step_n(st, n)),
    decreases n,
{
    assert(spec_roll_step_n(st, n + 1) == spec_roll_step_n(spec_roll_step(st), n));
    if n > 0 {
        lemma_roll_step_n_unfold(spec_roll_step(st), (n - 1) as nat);
    } else {
        assert(spec_roll_step_n(spec_roll_step(st), 0) == spec_roll_step(st));
        assert(spec_roll_step_n(st, 0) == st);
    }
}

} // verus!

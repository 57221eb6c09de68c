//! Time-based animation of a boolean toggle.
//!
//! An `Animated` value interpolates between a "false" pole and a "true"
//! pole. `transition` starts a timed move toward a new target (a no-op if
//! the target is already the settled value; a restart from the currently
//! interpolated position if one is in flight), and `animate` reports the
//! interpolation mapped onto a caller-supplied integer range. Time is an
//! explicit monotonic timestamp in milliseconds: every reported value is a
//! pure function of the stored fields and "now", so output is reproducible
//! and independent of call frequency.
use vstd::prelude::*;

verus! {

/// Progress and easing values live on the fixed-point grid `0 ..= SCALE`.
pub const SCALE: u64 = 10000;

/// Durations and delays are clamped to this many milliseconds.
pub const DUR_LIMIT: u64 = 0x10_0000_0000;

/// Timestamps handed to the engine stay below this bound, so that
/// `start + delay + duration` never leaves `u64`.
pub const TIME_LIMIT: u64 = 0x1000_0000_0000_0000;

/// Bound on the interpolation poles accepted by `animate`, so that
/// `(hi - lo) * SCALE` fits in `i64`.
pub const ANIM_LIMIT: i64 = 0x2000_0000_0000;

/// A fixed, enumerable set of pure, deterministic easing curves on the
/// fixed-point unit interval.
#[derive(Clone, Copy, Debug, PartialEq, Eq, Structural)]
pub enum Easing {
    /// The identity curve.
    Linear,
    /// `1 - (1 - t)^2`: decelerates toward the end.
    EaseOutQuad,
    /// A fixed-point rendering of `1 - 2^(-10 t)`: a fast start with a long
    /// exponential tail, pinned to 1 at t = 1.
    EaseOutExpo,
}

/// Powers of two used by the exponential ease-out curve.
pub open spec fn pow2_small(e: int) -> int {
    if e <= 0 {
        1
    } else if e == 1 {
        2
    } else if e == 2 {
        4
    } else if e == 3 {
        8
    } else if e == 4 {
        16
    } else if e == 5 {
        32
    } else if e == 6 {
        64
    } else if e == 7 {
        128
    } else if e == 8 {
        256
    } else if e == 9 {
        512
    } else {
        1024
    }
}

/// The chosen easing curve on the grid: maps `0 ..= SCALE` into itself with
/// the endpoints fixed.
pub open spec fn ease_spec(e: Easing, t: int) -> int {
    match e {
        Easing::Linear => t,
        Easing::EaseOutQuad => SCALE - (SCALE - t) * (SCALE - t) / (SCALE as int),
        Easing::EaseOutExpo => {
            if t == SCALE {
                SCALE as int
            } else {
                let k = 10 * t;
                let exp = k / (SCALE as int);
                let rem = k % (SCALE as int);
                let base = (SCALE as int) / pow2_small(exp);
                SCALE - base * (2 * SCALE - rem) / (2 * SCALE as int)
            }
        },
    }
}

/// Every easing curve stays on the grid and fixes both endpoints, so
/// boundary values of an animation are exact regardless of the curve.
pub proof fn lemma_ease_bounds(e: Easing, t: int)
    requires
        0 <= t <= SCALE,
    ensures
        0 <= ease_spec(e, t) <= SCALE,
        t == 0 ==> ease_spec(e, t) == 0,
        t == SCALE ==> ease_spec(e, t) == SCALE,
{
    match e {
        Easing::Linear => {
        },
        Easing::EaseOutQuad => {
            let s = SCALE as int;
            assert(0 <= (s - t) * (s - t) / s <= s) by (nonlinear_arith)
                requires
                    0 <= t <= s,
                    s == 10000,
            ;
            if t == SCALE {
                assert((s - t) * (s - t) / s == 0);
            }
            if t == 0 {
                assert((s - t) * (s - t) / s == s) by (nonlinear_arith)
                    requires
                        t == 0,
                        s == 10000,
                ;
            }
        },
        Easing::EaseOutExpo => {
            if t != SCALE {
                let s = SCALE as int;
                let k = 10 * t;
                let exp = k / s;
                let rem = k % s;
                assert(0 <= exp <= 9 && 0 <= rem < s) by (nonlinear_arith)
                    requires
                        k == 10 * t,
                        0 <= t < s,
                        s == 10000,
                        exp == k / s,
                        rem == k % s,
                ;
                let base = s / pow2_small(exp);
                assert(1 <= pow2_small(exp) <= 512);
                assert(0 <= base <= s) by (nonlinear_arith)
                    requires
                        base == s / pow2_small(exp),
                        1 <= pow2_small(exp) <= 512,
                        s == 10000,
                ;
                let val = base * (2 * s - rem) / (2 * s);
                assert(0 <= val <= s) by (nonlinear_arith)
                    requires
                        val == base * (2 * s - rem) / (2 * s),
                        0 <= base <= s,
                        0 <= rem < s,
                        s == 10000,
                ;
                if t == 0 {
                    assert(exp == 0 && rem == 0);
                    assert(base == s);
                    assert(val == s) by (nonlinear_arith)
                        requires
                            val == base * (2 * s - rem) / (2 * s),
                            base == s,
                            rem == 0,
                            s == 10000,
                    ;
                }
            }
        },
    }
}

fn pow2u(e: u64) -> (r: u64)
    requires
        e <= 9,
    ensures
        r as int == pow2_small(e as int),
        1 <= r <= 512,
{
    if e == 0 {
        1
    } else if e == 1 {
        2
    } else if e == 2 {
        4
    } else if e == 3 {
        8
    } else if e == 4 {
        16
    } else if e == 5 {
        32
    } else if e == 6 {
        64
    } else if e == 7 {
        128
    } else if e == 8 {
        256
    } else {
        512
    }
}

/// Apply the easing curve on the fixed-point grid.
fn ease(e: Easing, t: u64) -> (r: u64)
    requires
        t <= SCALE,
    ensures
        r as int == ease_spec(e, t as int),
        r <= SCALE,
{
    proof {
        lemma_ease_bounds(e, t as int);
    }
    match e {
        Easing::Linear => t,
        Easing::EaseOutQuad => {
            let d = SCALE - t;
            proof {
                assert(d * d <= SCALE * SCALE) by (nonlinear_arith)
                    requires
                        0 <= d <= SCALE,
                ;
            }
            SCALE - d * d / SCALE
        },
        Easing::EaseOutExpo => {
            if t == SCALE {
                SCALE
            } else {
                let k = 10 * t;
                let exp = k / SCALE;
                let rem = k % SCALE;
                proof {
                    assert(exp <= 9 && rem < SCALE) by (nonlinear_arith)
                        requires
                            k == 10 * t,
                            t < SCALE,
                            exp == k / SCALE,
                            rem == k % SCALE,
                            SCALE == 10000,
                    ;
                }
                let base = SCALE / pow2u(exp);
                proof {
                    assert(base <= SCALE && base * (2 * SCALE - rem) <= SCALE * (2 * SCALE)
                        && base * (2 * SCALE - rem) / (2 * SCALE) <= SCALE) by (nonlinear_arith)
                        requires
                            base == SCALE as int / pow2_small(exp as int),
                            1 <= pow2_small(exp as int) <= 512,
                            0 <= rem < SCALE,
                            SCALE == 10000,
                    ;
                }
                SCALE - base * (2 * SCALE - rem) / (2 * SCALE)
            }
        },
    }
}

/// A time-keyed interpolation between two targets of a boolean toggle.
///
/// `value` is the target the animation is settled at or heading to; `from`
/// is the grid position the current transition started from; `start` is the
/// timestamp of the transition in flight, or `None` while nothing was ever
/// triggered.
#[derive(Clone, Copy, Debug)]
pub struct Animated {
    pub value: bool,
    pub duration_ms: u64,
    pub delay_ms: u64,
    pub easing: Easing,
    pub from: u64,
    pub start: Option<u64>,
}

impl Animated {
    /// The stored fields stay on their grids and bounds.
    pub open spec fn wf(self) -> bool {
        &&& self.from <= SCALE
        &&& self.duration_ms <= DUR_LIMIT
        &&& self.delay_ms <= DUR_LIMIT
        &&& (self.start matches Option::Some(s) ==> s <= TIME_LIMIT)
    }

    pub fn new(value: bool) -> (a: Animated)
        ensures
            a == (Animated {
                value,
                duration_ms: 100u64,
                delay_ms: 0u64,
                easing: Easing::Linear,
                from: if value {
                    SCALE
                } else {
                    0u64
                },
                start: Option::<u64>::None,
            }),
            a.wf(),
    {
        Animated {
            value,
            duration_ms: 100,
            delay_ms: 0,
            easing: Easing::Linear,
            from: if value {
                SCALE
            } else {
                0
            },
            start: Option::None,
        }
    }

    /// Set the transition duration in milliseconds, clamped to `DUR_LIMIT`.
    pub fn duration(self, ms: u64) -> (a: Animated)
        ensures
            a == (Animated {
                duration_ms: if ms <= DUR_LIMIT {
                    ms
                } else {
                    DUR_LIMIT
                },
                ..self
            }),
    {
        Animated { duration_ms: if ms <= DUR_LIMIT { ms } else { DUR_LIMIT }, ..self }
    }

    /// Set the easing curve.
    pub fn easing(self, e: Easing) -> (a: Animated)
        ensures
            a == (Animated { easing: e, ..self }),
    {
        Animated { easing: e, ..self }
    }

    /// Set the start delay in milliseconds, clamped to `DUR_LIMIT`.
    pub fn delay(self, ms: u64) -> (a: Animated)
        ensures
            a == (Animated {
                delay_ms: if ms <= DUR_LIMIT {
                    ms
                } else {
                    DUR_LIMIT
                },
                ..self
            }),
    {
        Animated { delay_ms: if ms <= DUR_LIMIT { ms } else { DUR_LIMIT }, ..self }
    }

    /// The grid position (0 = fully "false", `SCALE` = fully "true") the
    /// animation reports at `now`: a pure function of the fields and `now`.
    pub open spec fn fraction_spec(self, now: int) -> int {
        match self.start {
            Option::None => if self.value {
                SCALE as int
            } else {
                0
            },
            Option::Some(s) => {
                let gate = s + self.delay_ms;
                let el = if now <= gate {
                    0
                } else if now - gate >= self.duration_ms {
                    self.duration_ms as int
                } else {
                    now - gate
                };
                let t = if self.duration_ms == 0 {
                    SCALE as int
                } else {
                    el * SCALE / (self.duration_ms as int)
                };
                let eased = ease_spec(self.easing, t);
                if self.value {
                    self.from + (SCALE - self.from) * eased / (SCALE as int)
                } else {
                    self.from - self.from * eased / (SCALE as int)
                }
            },
        }
    }

    /// Compute the current grid position.
    fn fraction_at(&self, now: u64) -> (r: u64)
        requires
            self.wf(),
        ensures
            r as int == self.fraction_spec(now as int),
            r <= SCALE,
    {
        match self.start {
            Option::None => if self.value {
                SCALE
            } else {
                0
            },
            Option::Some(s) => {
                let gate = s + self.delay_ms;
                let el: u64 = if now <= gate {
                    0
                } else if now - gate >= self.duration_ms {
                    self.duration_ms
                } else {
                    now - gate
                };
                let t: u64 = if self.duration_ms == 0 {
                    SCALE
                } else {
                    proof {
                        assert(el * SCALE <= self.duration_ms * SCALE && el * SCALE / (
                        self.duration_ms as int) <= SCALE) by (nonlinear_arith)
                            requires
                                0 <= el <= self.duration_ms,
                                1 <= self.duration_ms,
                                SCALE == 10000,
                        ;
                        assert(self.duration_ms * SCALE <= DUR_LIMIT * SCALE) by (nonlinear_arith)
                            requires
                                self.duration_ms <= DUR_LIMIT,
                                SCALE == 10000,
                        ;
                    }
                    el * SCALE / self.duration_ms
                };
                let eased = ease(self.easing, t);
                if self.value {
                    let room = SCALE - self.from;
                    proof {
                        assert(room * eased <= SCALE * SCALE && room * eased / (SCALE as int)
                            <= room) by (nonlinear_arith)
                            requires
                                0 <= room <= SCALE,
                                0 <= eased <= SCALE,
                                SCALE == 10000,
                        ;
                    }
                    self.from + room * eased / SCALE
                } else {
                    proof {
                        assert(self.from * eased <= SCALE * SCALE && self.from * eased / (
                        SCALE as int) <= self.from) by (nonlinear_arith)
                            requires
                                0 <= self.from <= SCALE,
                                0 <= eased <= SCALE,
                                SCALE == 10000,
                        ;
                    }
                    self.from - self.from * eased / SCALE
                }
            },
        }
    }

    /// What `transition(target, now)` leaves behind: unchanged if `target`
    /// is already the settled value; otherwise a fresh interpolation from
    /// the currently reported position toward `target`, started at `now`.
    pub open spec fn transition_spec(self, target: bool, now: int) -> Animated {
        if target == self.value {
            self
        } else {
            Animated {
                value: target,
                from: self.fraction_spec(now) as u64,
                start: Option::Some(now as u64),
                ..self
            }
        }
    }

    /// Move toward `target`. Re-triggering with the settled value is a
    /// no-op; re-triggering mid-flight restarts measurement from the
    /// currently interpolated position at `now`.
    pub fn transition(&mut self, target: bool, now: u64)
        requires
            old(self).wf(),
            now <= TIME_LIMIT,
        ensures
            *final(self) == old(self).transition_spec(target, now as int),
            final(self).wf(),
    {
        if target != self.value {
            let f = self.fraction_at(now);
            self.from = f;
            self.value = target;
            self.start = Option::Some(now);
        }
    }

    /// Whether the post-delay elapsed time is strictly inside
    /// `(0, duration)` for a triggered transition.
    pub open spec fn in_progress_spec(self, now: int) -> bool {
        &&& self.start matches Option::Some(s)
        &&& s + self.delay_ms < now < s + self.delay_ms + self.duration_ms
    }

    pub fn in_progress(&self, now: u64) -> (b: bool)
        requires
            self.wf(),
        ensures
            b == self.in_progress_spec(now as int),
    {
        match self.start {
            Option::None => false,
            Option::Some(s) => {
                let gate = s + self.delay_ms;
                now > gate && now - gate < self.duration_ms
            },
        }
    }

    /// What `animate(lo, hi, now)` reports: the current grid position
    /// mapped linearly onto `lo ..= hi` (or back down when `hi < lo`),
    /// rounding toward `lo`.
    pub open spec fn animate_spec(self, lo: int, hi: int, now: int) -> int {
        let f = self.fraction_spec(now);
        if hi >= lo {
            lo + (hi - lo) * f / (SCALE as int)
        } else {
            lo - (lo - hi) * f / (SCALE as int)
        }
    }

    /// Report the interpolated value on `lo ..= hi` at `now`.
    pub fn animate(&self, lo: i64, hi: i64, now: u64) -> (v: i64)
        requires
            self.wf(),
            -ANIM_LIMIT <= lo <= ANIM_LIMIT,
            -ANIM_LIMIT <= hi <= ANIM_LIMIT,
        ensures
            v == self.animate_spec(lo as int, hi as int, now as int),
    {
        let f = self.fraction_at(now);
        let fi = f as i64;
        if hi >= lo {
            let d = hi - lo;
            proof {
                assert(0 <= d * fi <= d * SCALE && d * fi / (SCALE as int) <= d)
                    by (nonlinear_arith)
                    requires
                        0 <= d,
                        0 <= fi <= SCALE,
                        SCALE == 10000,
                ;
                assert(d * SCALE <= 2 * ANIM_LIMIT * SCALE) by (nonlinear_arith)
                    requires
                        0 <= d <= 2 * ANIM_LIMIT,
                        SCALE == 10000,
                ;
            }
            lo + d * fi / (SCALE as i64)
        } else {
            let d = lo - hi;
            proof {
                assert(0 <= d * fi <= d * SCALE && d * fi / (SCALE as int) <= d)
                    by (nonlinear_arith)
                    requires
                        0 <= d,
                        0 <= fi <= SCALE,
                        SCALE == 10000,
                ;
                assert(d * SCALE <= 2 * ANIM_LIMIT * SCALE) by (nonlinear_arith)
                    requires
                        0 <= d <= 2 * ANIM_LIMIT,
                        SCALE == 10000,
                ;
            }
            lo - d * fi / (SCALE as i64)
        }
    }
}

/// Re-triggering `transition` to the already-settled value is a no-op: the
/// whole animation state is unchanged, so `in_progress` and every reported
/// value stay what they were.
pub proof fn lemma_retrigger_settled_noop(a: Animated, now: int)
    ensures
        a.transition_spec(a.value, now) == a,
{
}

/// Before the post-delay clock starts, a transition triggered from the
/// settled "false" pole still reports exactly `lo`, whatever the easing.
pub proof fn lemma_animate_before_start(a: Animated, lo: int, hi: int, now: int, s: u64)
    requires
        a.wf(),
        a.start == Option::Some(s),
        a.from == 0,
        a.duration_ms > 0,
        now <= s + a.delay_ms,
    ensures
        a.animate_spec(lo, hi, now) == lo,
{
    lemma_ease_bounds(a.easing, 0);
    let sc = SCALE as int;
    assert(0int * sc / (a.duration_ms as int) == 0) by (nonlinear_arith)
        requires
            1 <= a.duration_ms,
            sc == 10000,
    ;
    assert(sc * 0 / sc == 0 && 0int * 0 / sc == 0) by (nonlinear_arith)
        requires
            sc == 10000,
    ;
    assert(a.fraction_spec(now) == 0);
    assert((hi - lo) * 0 == 0 && (lo - hi) * 0 == 0) by (nonlinear_arith);
}

/// At or after `start + delay + duration` a transition toward "true"
/// reports exactly `hi`, whatever the easing and wherever it started from:
/// clamping makes the boundary exact, with no overshoot ever after.
pub proof fn lemma_animate_settled_hi(a: Animated, lo: int, hi: int, now: int, s: u64)
    requires
        a.wf(),
        a.value == true,
        a.start == Option::Some(s),
        now >= s + a.delay_ms + a.duration_ms,
    ensures
        a.animate_spec(lo, hi, now) == hi,
{
    lemma_ease_bounds(a.easing, SCALE as int);
    let sc = SCALE as int;
    if a.duration_ms != 0 {
        assert((a.duration_ms as int) * sc / (a.duration_ms as int) == sc) by (nonlinear_arith)
            requires
                1 <= a.duration_ms,
                sc == 10000,
        ;
    }
    assert(a.fraction_spec(now) == a.from + (SCALE - a.from) * sc / sc);
    assert((SCALE - a.from) * sc / sc == SCALE - a.from) by (nonlinear_arith)
        requires
            0 <= a.from <= SCALE,
            sc == 10000,
    ;
    assert(a.fraction_spec(now) == sc);
    if hi >= lo {
        assert((hi - lo) * sc / sc == hi - lo) by (nonlinear_arith)
            requires
                sc == 10000,
        ;
    } else {
        assert((lo - hi) * sc / sc == lo - hi) by (nonlinear_arith)
            requires
                sc == 10000,
        ;
    }
}

/// The reported grid position always lies on `0 ..= SCALE`.
pub proof fn lemma_fraction_bounds(a: Animated, now: int)
    requires
        a.wf(),
    ensures
        0 <= a.fraction_spec(now) <= SCALE,
{
    match a.start {
        Option::None => {
        },
        Option::Some(s) => {
            let gate = s + a.delay_ms;
            let el = if now <= gate {
                0
            } else if now - gate >= a.duration_ms {
                a.duration_ms as int
            } else {
                now - gate
            };
            let t = if a.duration_ms == 0 {
                SCALE as int
            } else {
                el * SCALE / (a.duration_ms as int)
            };
            if a.duration_ms != 0 {
                assert(0 <= el * SCALE / (a.duration_ms as int) <= SCALE) by (nonlinear_arith)
                    requires
                        0 <= el <= a.duration_ms,
                        1 <= a.duration_ms,
                        SCALE == 10000,
                ;
            }
            lemma_ease_bounds(a.easing, t);
            let eased = ease_spec(a.easing, t);
            assert(0 <= (SCALE - a.from) * eased / (SCALE as int) <= SCALE - a.from)
                by (nonlinear_arith)
                requires
                    0 <= a.from <= SCALE,
                    0 <= eased <= SCALE,
                    SCALE == 10000,
            ;
            assert(0 <= a.from * eased / (SCALE as int) <= a.from) by (nonlinear_arith)
                requires
                    0 <= a.from <= SCALE,
                    0 <= eased <= SCALE,
                    SCALE == 10000,
            ;
        },
    }
}

/// Clamping keeps every reported value inside the offered range: `animate`
/// never overshoots `hi` (nor undershoots `lo`), at any time and under any
/// easing.
pub proof fn lemma_animate_in_range(a: Animated, lo: int, hi: int, now: int)
    requires
        a.wf(),
        lo <= hi,
    ensures
        lo <= a.animate_spec(lo, hi, now) <= hi,
{
    lemma_fraction_bounds(a, now);
    let f = a.fraction_spec(now);
    assert(0 <= (hi - lo) * f / (SCALE as int) <= hi - lo) by (nonlinear_arith)
        requires
            0 <= f <= SCALE,
            lo <= hi,
            SCALE == 10000,
    ;
}

/// An animation that was never triggered reports its settled pole exactly.
pub proof fn lemma_animate_idle(a: Animated, lo: int, hi: int, now: int)
    requires
        a.wf(),
        a.start is None,
    ensures
        a.animate_spec(lo, hi, now) == if a.value {
            hi
        } else {
            lo
        },
{
    let sc = SCALE as int;
    if a.value {
        if hi >= lo {
            assert((hi - lo) * sc / sc == hi - lo) by (nonlinear_arith)
                requires
                    sc == 10000,
            ;
        } else {
            assert((lo - hi) * sc / sc == lo - hi) by (nonlinear_arith)
                requires
                    sc == 10000,
            ;
        }
    } else {
        assert((hi - lo) * 0 == 0 && (lo - hi) * 0 == 0) by (nonlinear_arith);
    }
}

} // verus!

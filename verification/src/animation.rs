//! The animation advancer: a timed frame-index state machine. On each draw
//! attempt, if the animation is not finished and a full frame time has
//! elapsed since the current frame went up, the frame index advances; past
//! the last frame it wraps when looping, else it freezes on the last valid
//! frame and the animation is finished for good.
use vstd::prelude::*;
use crate::Animation;

verus! {

/// The state after one draw-time advance check at `now_ms`.
pub open spec fn update_animation_spec(a: Animation, now_ms: u64) -> Animation {
    let elapsed: int = if now_ms >= a.current_frame_start_ms {
        now_ms - a.current_frame_start_ms
    } else {
        0
    };
    if !a.finished && elapsed >= a.frame_time_ms {
        let n = a.frames@.len() as int;
        if n == 0 {
            Animation { finished: true, current_frame_start_ms: now_ms, ..a }
        } else if a.current_frame + 1 >= n {
            if a.loop_animation {
                Animation { current_frame: 0, current_frame_start_ms: now_ms, ..a }
            } else {
                Animation {
                    current_frame: (n - 1) as usize,
                    finished: true,
                    current_frame_start_ms: now_ms,
                    ..a
                }
            }
        } else {
            Animation {
                current_frame: (a.current_frame + 1) as usize,
                current_frame_start_ms: now_ms,
                ..a
            }
        }
    } else {
        a
    }
}

/// Advances the animation's frame clock to `now_ms`.
pub fn update_animation(animation: &mut Animation, now_ms: u64)
    ensures
        *final(animation) == update_animation_spec(*old(animation), now_ms),
{
    let elapsed: u64 = if now_ms >= animation.current_frame_start_ms {
        now_ms - animation.current_frame_start_ms
    } else {
        0
    };
    if !animation.finished && elapsed >= animation.frame_time_ms {
        animation.current_frame_start_ms = now_ms;
        let n = animation.frames.len();
        if n == 0 {
            animation.finished = true;
        } else if animation.current_frame >= n - 1 {
            if animation.loop_animation {
                animation.current_frame = 0;
            } else {
                animation.current_frame = n - 1;
                animation.finished = true;
            }
        } else {
            animation.current_frame = animation.current_frame + 1;
        }
    }
}

/// The state after `k` advance checks made at times `s0 + t`, `s0 + 2t`,
/// ..., `s0 + k*t` — one check per frame period, as a steadily drawn scene
/// makes them.
pub open spec fn advanced(a0: Animation, s0: int, t: int, k: nat) -> Animation
    decreases k,
{
    if k == 0 {
        a0
    } else {
        update_animation_spec(advanced(a0, s0, t, (k - 1) as nat), (s0 + k * t) as u64)
    }
}

/// The animation law. From a fresh animation (frame `0`, not finished, its
/// clock at `s0`) with `n >= 1` frames of duration `t >= 1` each, after `k`
/// whole frame periods:
/// - looping: the frame index is `k` modulo `n` and the animation never
///   finishes;
/// - not looping and `k < n`: the frame index is exactly `k`, not finished;
/// - not looping and `k >= n`: the animation froze on frame `n - 1`,
///   finished, and its clock stopped at `s0 + n*t`.
#[verifier::rlimit(50)]
pub proof fn lemma_animation_advance(a0: Animation, k: nat)
    requires
        a0.current_frame == 0,
        !a0.finished,
        a0.frames@.len() >= 1,
        a0.frame_time_ms >= 1,
        a0.current_frame_start_ms as int
            + (k as int) * (a0.frame_time_ms as int) <= u64::MAX as int,
    ensures
        ({
            let s0 = a0.current_frame_start_ms as int;
            let t = a0.frame_time_ms as int;
            let n = a0.frames@.len() as int;
            let a = advanced(a0, s0, t, k);
            &&& a.frames == a0.frames
            &&& a.loop_animation == a0.loop_animation
            &&& a.frame_time_ms == a0.frame_time_ms
            &&& (a0.loop_animation ==> !a.finished
                && a.current_frame == (k as int) % n
                && a.current_frame_start_ms == s0 + k * t)
            &&& (!a0.loop_animation && k < n ==> !a.finished
                && a.current_frame == k
                && a.current_frame_start_ms == s0 + k * t)
            &&& (!a0.loop_animation && k >= n ==> a.finished
                && a.current_frame == n - 1
                && a.current_frame_start_ms == s0 + n * t)
        }),
    decreases k,
{
    vstd::std_specs::vec::axiom_spec_len(&a0.frames);
    let s0 = a0.current_frame_start_ms as int;
    let t = a0.frame_time_ms as int;
    let n = a0.frames@.len() as int;
    assert(n <= usize::MAX);
    if k == 0 {
        assert((0int) % n == 0) by (nonlinear_arith)
            requires n >= 1;
    } else {
        let km1 = (k - 1) as nat;
        assert(s0 + (km1 as int) * t <= s0 + (k as int) * t) by (nonlinear_arith)
            requires t >= 1 && km1 as int <= k as int;
        lemma_animation_advance(a0, km1);
        let prev = advanced(a0, s0, t, km1);
        let now: int = s0 + (k as int) * t;
        assert(now == s0 + ((km1 as int) * t + t)) by (nonlinear_arith)
            requires now == s0 + (k as int) * t && k as int == km1 as int + 1;
        assert(0 <= now <= u64::MAX as int);
        let a = update_animation_spec(prev, now as u64);
        assert(advanced(a0, s0, t, k) == a);
        if a0.loop_animation {
            let r = (km1 as int) % n;
            vstd::arithmetic::div_mod::lemma_mod_bound(km1 as int, n);
            // One full frame period elapsed: the frame advances, wrapping
            // past the last frame.
            assert(now - prev.current_frame_start_ms as int == t);
            vstd::arithmetic::div_mod::lemma_add_mod_noop(km1 as int, 1, n);
            vstd::arithmetic::div_mod::lemma_mod_bound(1, n);
            assert(prev.current_frame as int == r);
            if r + 1 >= n {
                assert(r == n - 1);
                if n == 1 {
                    vstd::arithmetic::div_mod::lemma_mod_self_0(n);
                    assert((1int) % n == 0);
                    assert(((km1 as int) % n + (1int) % n) % n == 0int % n);
                    vstd::arithmetic::div_mod::lemma_small_mod(0nat, n as nat);
                } else {
                    vstd::arithmetic::div_mod::lemma_small_mod(1nat, n as nat);
                    vstd::arithmetic::div_mod::lemma_mod_self_0(n);
                }
                assert(a.current_frame == 0);
                assert((k as int) % n == 0);
            } else {
                vstd::arithmetic::div_mod::lemma_small_mod(1nat, n as nat);
                vstd::arithmetic::div_mod::lemma_small_mod((r + 1) as nat, n as nat);
                assert(prev.current_frame as int + 1 < n);
                assert(a == (Animation {
                    current_frame: (prev.current_frame + 1) as usize,
                    current_frame_start_ms: now as u64,
                    ..prev
                }));
                assert(a.current_frame as int == r + 1);
                assert((k as int) % n == r + 1);
            }
            assert(!a.finished);
            assert(a.current_frame == (k as int) % n);
            assert(a.current_frame_start_ms as int == now);
        } else {
            if (km1 as int) < n {
                assert(now - prev.current_frame_start_ms as int == t);
                assert(prev.current_frame == km1);
                if km1 as int + 1int < n {
                    assert(a == (Animation {
                        current_frame: (prev.current_frame + 1) as usize,
                        current_frame_start_ms: now as u64,
                        ..prev
                    }));
                    assert(a.current_frame == k);
                    assert(!a.finished);
                    assert(a.current_frame_start_ms as int == now);
                } else {
                    assert(km1 as int + 1 == n);
                    assert(a.current_frame as int == n - 1);
                    assert(a.finished);
                    assert(now == s0 + n * t);
                    assert(a.current_frame_start_ms as int == now);
                }
            } else {
                assert(prev.finished);
                assert(a == prev);
                assert(a.current_frame as int == n - 1);
                assert(a.current_frame_start_ms as int == s0 + n * t);
            }
        }
    }
}

} // verus!

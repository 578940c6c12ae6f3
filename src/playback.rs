//! Playback state of one animation, and the player that cross-fades between animations.
use vstd::prelude::*;

verus! {

/// Handle to a clip in a clip store.
#[derive(Clone, Copy, Debug, PartialEq, Eq, Structural)]
pub struct ClipHandle {
    pub id: u64,
}

/// The speed that plays an animation at its authored pace (speeds are in thousandths).
pub const SPEED_ONE: i64 = 1000;

/// Repetition behavior of an animation.
#[derive(Clone, Copy, Debug, PartialEq, Eq, Structural)]
pub enum RepeatAnimation {
    /// The animation will never finish.
    Forever,
    /// The animation will finish after running once.
    Never,
    /// The animation will finish after running "n" times.
    Count(u32),
}

/// One animation being played: the clip, the time in it, and how it goes on.
#[derive(Debug)]
pub struct PlayingAnimation {
    pub repeat: RepeatAnimation,
    /// Playback speed in thousandths; negative plays in reverse.
    pub speed: i64,
    /// Time in the clip, in microseconds.
    pub elapsed: i64,
    pub animation_clip: Option<ClipHandle>,
    /// For each bone, the node found at each depth of its path the last time.
    pub path_cache: Vec<Vec<Option<usize>>>,
    /// Number of times the animation has passed the end (or, in reverse, the start).
    pub completions: u32,
}

/// Whether an animation with this repetition and count of completions has finished.
pub open spec fn spec_finished(repeat: RepeatAnimation, completions: int) -> bool {
    match repeat {
        RepeatAnimation::Forever => false,
        RepeatAnimation::Never => completions >= 1,
        RepeatAnimation::Count(n) => completions >= n,
    }
}

/// A fresh animation of a clip: from the start, at normal speed, played once.
pub open spec fn fresh(clip: Option<ClipHandle>, a: PlayingAnimation) -> bool {
    &&& a.repeat == RepeatAnimation::Never
    &&& a.speed == SPEED_ONE
    &&& a.elapsed == 0
    &&& a.animation_clip == clip
    &&& a.path_cache@.len() == 0
    &&& a.completions == 0
}

/// The change of time for a frame of `dt` microseconds at `speed` thousandths,
/// rounded toward zero.
pub open spec fn scaled_delta(dt: int, speed: int) -> int {
    if dt * speed >= 0 {
        (dt * speed) / (SPEED_ONE as int)
    } else {
        -((-(dt * speed)) / (SPEED_ONE as int))
    }
}

/// A time brought into `[0, duration)`; 0 for a clip without duration.
pub open spec fn wrap_time(e: int, duration: int) -> int {
    if duration > 0 {
        e % duration
    } else {
        0
    }
}

/// Whether a time of `e` lies past the end of the clip in the direction of play.
pub open spec fn crosses_boundary(e: int, duration: int, speed: int) -> bool {
    (e > duration && speed > 0) || (e < 0 && speed < 0)
}

fn wrap(e: i128, duration: i64) -> (r: i64)
    requires
        duration >= 0,
        -0x20000000000000000000000000000000 < e < 0x20000000000000000000000000000000,
    ensures
        r == wrap_time(e as int, duration as int),
        duration > 0 ==> 0 <= r < duration,
{
    if duration == 0 {
        return 0;
    }
    let d = duration as i128;
    if e >= 0 {
        (e % d) as i64
    } else {
        let m = (-e) % d;
        proof {
            let ne: int = -(e as int);
            let dd: int = d as int;
            let q: int = ne / dd;
            vstd::arithmetic::div_mod::lemma_fundamental_div_mod(ne, dd);
            assert(ne == dd * q + (m as int));
            if m == 0 {
                assert(e as int == dd * (-q) + 0) by (nonlinear_arith)
                    requires
                        ne == dd * q + (m as int),
                        m == 0,
                        ne == -(e as int),
                ;
                vstd::arithmetic::div_mod::lemma_fundamental_div_mod_converse(e as int, dd, -q, 0);
            } else {
                assert(e as int == dd * (-q - 1) + (dd - m)) by (nonlinear_arith)
                    requires
                        ne == dd * q + (m as int),
                        ne == -(e as int),
                ;
                vstd::arithmetic::div_mod::lemma_fundamental_div_mod_converse(e as int, dd, -q - 1, dd - m);
            }
        }
        if m == 0 {
            0
        } else {
            (d - m) as i64
        }
    }
}

fn delta(dt: u64, speed: i64) -> (r: i128)
    ensures
        r == scaled_delta(dt as int, speed as int),
        -0x1000000000000000000000000000000 < r < 0x1000000000000000000000000000000,
{
    assert(-0x80000000000000000000000000000000 < (dt as int) * (speed as int) < 0x80000000000000000000000000000000) by (nonlinear_arith)
        requires
            0 <= dt < 0x1_0000_0000_0000_0000,
            -0x8000_0000_0000_0000 <= speed < 0x8000_0000_0000_0000,
    ;
    let p: i128 = (dt as i128) * (speed as i128);
    if p >= 0 {
        p / (SPEED_ONE as i128)
    } else {
        -((-p) / (SPEED_ONE as i128))
    }
}

impl PlayingAnimation {
    /// A fresh animation of `clip`.
    pub fn new(clip: Option<ClipHandle>) -> (r: PlayingAnimation)
        ensures
            fresh(clip, r),
    {
        PlayingAnimation {
            repeat: RepeatAnimation::Never,
            speed: SPEED_ONE,
            elapsed: 0,
            animation_clip: clip,
            path_cache: Vec::new(),
            completions: 0,
        }
    }

    /// Whether the animation has finished, by its repetition behavior and its completions.
    pub fn finished(&self) -> (r: bool)
        ensures
            r == spec_finished(self.repeat, self.completions as int),
    {
        match self.repeat {
            RepeatAnimation::Forever => false,
            RepeatAnimation::Never => self.completions >= 1,
            RepeatAnimation::Count(n) => self.completions >= n,
        }
    }

    /// Moves the animation on by a frame of `dt` microseconds in a clip of
    /// `duration` microseconds: unless finished or paused, time moves by `speed * dt`;
    /// crossing the boundary in the direction of play counts a completion; the time
    /// is then brought back into the clip. Returns the new time.
    pub fn advance(&mut self, duration: i64, dt: u64, paused: bool) -> (r: i64)
        requires
            duration >= 0,
        ensures
            ({
                let moved = if !spec_finished(old(self).repeat, old(self).completions as int) && !paused {
                    old(self).elapsed + scaled_delta(dt as int, old(self).speed as int)
                } else {
                    old(self).elapsed as int
                };
                &&& r == wrap_time(moved, duration as int)
                &&& final(self).elapsed == r
                &&& final(self).completions == if crosses_boundary(moved, duration as int, old(self).speed as int) {
                    if old(self).completions < u32::MAX { old(self).completions + 1 } else { u32::MAX as int }
                } else {
                    old(self).completions as int
                }
            }),
            final(self).repeat == old(self).repeat,
            final(self).speed == old(self).speed,
            final(self).animation_clip == old(self).animation_clip,
            final(self).path_cache == old(self).path_cache,
    {
        let mut e: i128 = self.elapsed as i128;
        if !self.finished() && !paused {
            e = e + delta(dt, self.speed);
        }
        if (e > duration as i128 && self.speed > 0) || (e < 0 && self.speed < 0) {
            self.completions = self.completions.saturating_add(1);
        }
        let w = wrap(e, duration);
        self.elapsed = w;
        w
    }
}

impl Default for PlayingAnimation {
    fn default() -> (r: PlayingAnimation)
        ensures
            fresh(None, r),
    {
        PlayingAnimation::new(None)
    }
}

/// An animation that is being faded out: its weight is `remaining / transition_duration`,
/// and falls linearly from 1 to 0 over `transition_duration` microseconds.
#[derive(Debug)]
pub struct AnimationTransition {
    /// Microseconds left of the fade-out.
    pub remaining: u64,
    /// Length of the whole fade-out, in microseconds.
    pub transition_duration: u64,
    /// The animation that is being faded out.
    pub animation: PlayingAnimation,
}

/// The transitions left after a frame of `dt`: each one's remaining time falls by
/// `dt`, those with none left go, and the order is kept.
pub open spec fn decay(ts: Seq<AnimationTransition>, dt: int) -> Seq<AnimationTransition>
    decreases ts.len(),
{
    if ts.len() == 0 {
        Seq::empty()
    } else {
        let rest = decay(ts.drop_last(), dt);
        let t = ts.last();
        if t.remaining > dt {
            rest.push(
                AnimationTransition {
                    remaining: (t.remaining - dt) as u64,
                    transition_duration: t.transition_duration,
                    animation: t.animation,
                },
            )
        } else {
            rest
        }
    }
}


/// Animation controls of one node: the active animation, the animations being
/// faded out (oldest first), and whether playback is paused.
#[derive(Debug)]
pub struct AnimationPlayer {
    pub(crate) paused: bool,
    pub(crate) animation: PlayingAnimation,
    pub(crate) transitions: Vec<AnimationTransition>,
}

/// The transition that fades out `a` over `d` microseconds, from full weight.
pub open spec fn fade_out(a: PlayingAnimation, d: u64) -> AnimationTransition {
    AnimationTransition { remaining: d, transition_duration: d, animation: a }
}

impl AnimationPlayer {
    pub closed spec fn spec_paused(&self) -> bool {
        self.paused
    }

    pub closed spec fn spec_animation(&self) -> PlayingAnimation {
        self.animation
    }

    pub closed spec fn spec_transitions(&self) -> Seq<AnimationTransition> {
        self.transitions@
    }

    /// What the accessors of a player stand for.
    pub(crate) proof fn lemma_view(&self)
        ensures
            self.spec_paused() == self.paused,
            self.spec_animation() == self.animation,
            self.spec_transitions() == self.transitions@,
    {
    }

    /// A player with nothing to play.
    pub fn new() -> (r: AnimationPlayer)
        ensures
            !r.spec_paused(),
            fresh(None, r.spec_animation()),
            r.spec_transitions().len() == 0,
    {
        AnimationPlayer { paused: false, animation: PlayingAnimation::new(None), transitions: Vec::new() }
    }

    /// Starts playing a clip from its beginning, and drops every fade-out in progress.
    pub fn start(&mut self, handle: ClipHandle) -> (r: &mut Self)
        ensures
            fresh(Some(handle), r.spec_animation()),
            r.spec_transitions().len() == 0,
            r.spec_paused() == old(self).spec_paused(),
            *final(self) == *final(r),
    {
        self.animation = PlayingAnimation::new(Some(handle));
        self.transitions.clear();
        self
    }

    /// Starts playing a clip from its beginning, and fades out the animation that
    /// was playing over `transition_duration` microseconds; fade-outs in progress go on.
    pub fn start_with_transition(&mut self, handle: ClipHandle, transition_duration: u64) -> (r: &mut Self)
        ensures
            fresh(Some(handle), r.spec_animation()),
            r.spec_transitions() == old(self).spec_transitions().push(
                fade_out(old(self).spec_animation(), transition_duration),
            ),
            r.spec_paused() == old(self).spec_paused(),
            *final(self) == *final(r),
    {
        let mut animation = PlayingAnimation::new(Some(handle));
        std::mem::swap(&mut animation, &mut self.animation);
        self.transitions.push(
            AnimationTransition {
                remaining: transition_duration,
                transition_duration,
                animation,
            },
        );
        self
    }

    /// Starts playing a clip, unless it is already playing and the player is not paused.
    pub fn play(&mut self, handle: ClipHandle) -> (r: &mut Self)
        ensures
            old(self).spec_animation().animation_clip == Some(handle) && !old(self).spec_paused()
                ==> *r == *old(self),
            !(old(self).spec_animation().animation_clip == Some(handle) && !old(self).spec_paused()) ==> {
                &&& fresh(Some(handle), r.spec_animation())
                &&& r.spec_transitions().len() == 0
                &&& r.spec_paused() == old(self).spec_paused()
            },
            *final(self) == *final(r),
    {
        if !self.is_playing_clip(&handle) || self.is_paused() {
            self.start(handle);
        }
        self
    }

    /// Starts playing a clip with a fade-out of the current animation, unless the
    /// clip is already playing and the player is not paused.
    pub fn play_with_transition(&mut self, handle: ClipHandle, transition_duration: u64) -> (r: &mut Self)
        ensures
            old(self).spec_animation().animation_clip == Some(handle) && !old(self).spec_paused()
                ==> *r == *old(self),
            !(old(self).spec_animation().animation_clip == Some(handle) && !old(self).spec_paused()) ==> {
                &&& fresh(Some(handle), r.spec_animation())
                &&& r.spec_transitions() == old(self).spec_transitions().push(
                    fade_out(old(self).spec_animation(), transition_duration),
                )
                &&& r.spec_paused() == old(self).spec_paused()
            },
            *final(self) == *final(r),
    {
        if !self.is_playing_clip(&handle) || self.is_paused() {
            self.start_with_transition(handle, transition_duration);
        }
        self
    }

    /// Handle to the clip being played.
    pub fn animation_clip(&self) -> (r: Option<ClipHandle>)
        ensures
            r == self.spec_animation().animation_clip,
    {
        self.animation.animation_clip
    }

    /// Whether the given clip is the one being played.
    pub fn is_playing_clip(&self, handle: &ClipHandle) -> (r: bool)
        ensures
            r == (self.spec_animation().animation_clip == Some(*handle)),
    {
        match self.animation.animation_clip {
            Some(h) => h == *handle,
            None => false,
        }
    }

    /// Whether the active animation has finished, by its repetition behavior.
    pub fn is_finished(&self) -> (r: bool)
        ensures
            r == spec_finished(self.spec_animation().repeat, self.spec_animation().completions as int),
    {
        self.animation.finished()
    }

    /// Makes the active animation repeat forever.
    pub fn repeat(&mut self) -> (r: &mut Self)
        ensures
            r.spec_animation() == (PlayingAnimation { repeat: RepeatAnimation::Forever, ..old(self).spec_animation() }),
            r.spec_paused() == old(self).spec_paused(),
            r.spec_transitions() == old(self).spec_transitions(),
            *final(self) == *final(r),
    {
        self.animation.repeat = RepeatAnimation::Forever;
        self
    }

    /// Makes the active animation finish after one pass.
    pub fn stop_repeating(&mut self) -> (r: &mut Self)
        ensures
            r.spec_animation() == (PlayingAnimation { repeat: RepeatAnimation::Never, ..old(self).spec_animation() }),
            r.spec_paused() == old(self).spec_paused(),
            r.spec_transitions() == old(self).spec_transitions(),
            *final(self) == *final(r),
    {
        self.animation.repeat = RepeatAnimation::Never;
        self
    }

    /// Sets the repetition behavior of the active animation.
    pub fn set_repeat(&mut self, repeat: RepeatAnimation) -> (r: &mut Self)
        ensures
            r.spec_animation() == (PlayingAnimation { repeat, ..old(self).spec_animation() }),
            r.spec_paused() == old(self).spec_paused(),
            r.spec_transitions() == old(self).spec_transitions(),
            *final(self) == *final(r),
    {
        self.animation.repeat = repeat;
        self
    }

    /// Whether the active animation plays in reverse.
    pub fn is_playback_reversed(&self) -> (r: bool)
        ensures
            r == (self.spec_animation().speed < 0),
    {
        self.animation.speed < 0
    }

    /// Pauses playback.
    pub fn pause(&mut self)
        ensures
            final(self).spec_paused() == true,
            final(self).spec_animation() == old(self).spec_animation(),
            final(self).spec_transitions() == old(self).spec_transitions(),
    {
        self.paused = true;
    }

    /// Resumes playback.
    pub fn resume(&mut self)
        ensures
            final(self).spec_paused() == false,
            final(self).spec_animation() == old(self).spec_animation(),
            final(self).spec_transitions() == old(self).spec_transitions(),
    {
        self.paused = false;
    }

    /// Whether playback is paused.
    pub fn is_paused(&self) -> (r: bool)
        ensures
            r == self.spec_paused(),
    {
        self.paused
    }

    /// Speed of the active animation, in thousandths.
    pub fn speed(&self) -> (r: i64)
        ensures
            r == self.spec_animation().speed,
    {
        self.animation.speed
    }

    /// Sets the speed of the active animation, in thousandths.
    pub fn set_speed(&mut self, speed: i64) -> (r: &mut Self)
        ensures
            r.spec_animation() == (PlayingAnimation { speed, ..old(self).spec_animation() }),
            r.spec_paused() == old(self).spec_paused(),
            r.spec_transitions() == old(self).spec_transitions(),
            *final(self) == *final(r),
    {
        self.animation.speed = speed;
        self
    }

    /// Time in the active animation, in microseconds.
    pub fn elapsed(&self) -> (r: i64)
        ensures
            r == self.spec_animation().elapsed,
    {
        self.animation.elapsed
    }

    /// Seeks the active animation to a time, in microseconds.
    pub fn set_elapsed(&mut self, elapsed: i64) -> (r: &mut Self)
        ensures
            r.spec_animation() == (PlayingAnimation { elapsed, ..old(self).spec_animation() }),
            r.spec_paused() == old(self).spec_paused(),
            r.spec_transitions() == old(self).spec_transitions(),
            *final(self) == *final(r),
    {
        self.animation.elapsed = elapsed;
        self
    }

    /// Number of times the active animation has completed.
    pub fn completions(&self) -> (r: u32)
        ensures
            r == self.spec_animation().completions,
    {
        self.animation.completions
    }

    /// Number of animations being faded out.
    pub fn transition_count(&self) -> (r: usize)
        ensures
            r == self.spec_transitions().len(),
    {
        self.transitions.len()
    }

    /// The weight of the `i`-th fade-out, oldest first, as remaining and total microseconds.
    pub fn transition_weight(&self, i: usize) -> (r: Option<(u64, u64)>)
        ensures
            i < self.spec_transitions().len() <==> r.is_some(),
            r.is_some() ==> r.unwrap() == (
                self.spec_transitions()[i as int].remaining,
                self.spec_transitions()[i as int].transition_duration,
            ),
    {
        if i < self.transitions.len() {
            Some((self.transitions[i].remaining, self.transitions[i].transition_duration))
        } else {
            None
        }
    }

    /// Lets every fade-out run for `dt` microseconds and drops those that are over.
    pub fn update_transitions(&mut self, dt: u64)
        ensures
            final(self).spec_transitions() == decay(old(self).spec_transitions(), dt as int),
            final(self).spec_animation() == old(self).spec_animation(),
            final(self).spec_paused() == old(self).spec_paused(),
    {
        let ghost orig = self.transitions@;
        let mut rest: Vec<AnimationTransition> = Vec::new();
        std::mem::swap(&mut rest, &mut self.transitions);
        let mut kept: Vec<AnimationTransition> = Vec::new();
        let ghost mut k: int = 0;
        while rest.len() > 0
            invariant
                0 <= k <= orig.len(),
                rest@ == orig.skip(k),
                kept@ == decay(orig.take(k), dt as int),
            decreases rest.len(),
        {
            let mut t = rest.remove(0);
            proof {
                assert(t == orig[k]);
                assert(orig.take(k + 1).drop_last() =~= orig.take(k));
                assert(orig.take(k + 1).last() == orig[k]);
                assert(rest@ =~= orig.skip(k + 1));
            }
            if t.remaining > dt {
                t.remaining = t.remaining - dt;
                kept.push(t);
            }
            proof {
                k = k + 1;
            }
        }
        proof {
            assert(orig.take(k) =~= orig);
        }
        self.transitions = kept;
    }
}


impl Default for AnimationPlayer {
    fn default() -> (r: AnimationPlayer)
        ensures
            !r.spec_paused(),
            fresh(None, r.spec_animation()),
            r.spec_transitions().len() == 0,
    {
        AnimationPlayer::new()
    }
}

/// The fade-outs after `k` frames of `dt` microseconds each.
pub open spec fn decay_frames(ts: Seq<AnimationTransition>, dt: int, k: nat) -> Seq<AnimationTransition>
    decreases k,
{
    if k == 0 {
        ts
    } else {
        decay(decay_frames(ts, dt, (k - 1) as nat), dt)
    }
}

/// An animation set to repeat `n` times has finished exactly when it has completed
/// `n` times; one set to play once, after one completion; one set to repeat
/// forever never finishes.
pub proof fn lemma_repeat_policy(n: u32, completions: int)
    ensures
        spec_finished(RepeatAnimation::Count(n), completions) <==> completions >= n,
        spec_finished(RepeatAnimation::Never, completions) <==> completions >= 1,
        !spec_finished(RepeatAnimation::Forever, completions),
{
}

/// A fade-out of `d` microseconds pushed after the fade-outs `ts`, after `k`
/// frames of `dt` microseconds, has `d - k * dt` microseconds left (its weight
/// falls linearly from 1) while that is positive, and is gone as soon as `k * dt`
/// reaches `d`; the fade-outs before it run down on their own, unaffected by it.
pub proof fn lemma_fade_out_frames(ts: Seq<AnimationTransition>, a: PlayingAnimation, d: u64, dt: u64, k: nat)
    requires
        d > 0,
    ensures
        decay_frames(ts.push(fade_out(a, d)), dt as int, k) == decay_frames(ts, dt as int, k) + if k * dt < d {
            seq![AnimationTransition { remaining: (d - k * dt) as u64, transition_duration: d, animation: a }]
        } else {
            Seq::<AnimationTransition>::empty()
        },
    decreases k,
{
    let x = fade_out(a, d);
    if k == 0 {
        assert(k * dt == 0) by (nonlinear_arith)
            requires
                k == 0,
        ;
        assert(ts.push(x) =~= ts + seq![
            AnimationTransition { remaining: (d - k * dt) as u64, transition_duration: d, animation: a },
        ]);
    } else {
        let k1 = (k - 1) as nat;
        lemma_fade_out_frames(ts, a, d, dt, k1);
        let base = decay_frames(ts, dt as int, k1);
        assert(k1 * dt + dt == k * dt) by (nonlinear_arith)
            requires
                k1 + 1 == k,
        ;
        assert(k1 * dt <= k * dt) by (nonlinear_arith)
            requires
                k1 + 1 == k,
        ;
        assert(decay_frames(ts.push(x), dt as int, k) == decay(decay_frames(ts.push(x), dt as int, k1), dt as int));
        assert(decay_frames(ts, dt as int, k) == decay(base, dt as int));
        if k1 * dt < d {
            let y = AnimationTransition { remaining: (d - k1 * dt) as u64, transition_duration: d, animation: a };
            let whole = base + seq![y];
            assert(whole.drop_last() =~= base);
            assert(whole.last() == y);
            if k * dt < d {
                assert(decay(whole, dt as int) =~= decay(base, dt as int) + seq![
                    AnimationTransition { remaining: (d - k * dt) as u64, transition_duration: d, animation: a },
                ]);
            } else {
                assert(decay(whole, dt as int) =~= decay(base, dt as int) + Seq::<AnimationTransition>::empty());
            }
        } else {
            assert(base + Seq::<AnimationTransition>::empty() =~= base);
            assert(decay(base, dt as int) + Seq::<AnimationTransition>::empty() =~= decay(base, dt as int));
        }
    }
}

} // verus!

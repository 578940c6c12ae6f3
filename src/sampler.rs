//! Sampling a curve: finding the keyframes around a time and interpolating
//! between them, in fixed point.
use vstd::prelude::*;
use crate::clip::{Quat, Vec3};

verus! {

/// A fraction `num / den` between 0 and 1.
#[derive(Clone, Copy, Debug, PartialEq, Eq, Structural)]
pub struct Ratio {
    pub num: u64,
    pub den: u64,
}

impl Ratio {
    pub open spec fn wf(&self) -> bool {
        self.den > 0 && self.num <= self.den
    }
}

/// Where a time falls on a curve of two or more keyframes.
#[derive(Clone, Copy, Debug, PartialEq, Eq, Structural)]
pub enum Step {
    /// Before the first keyframe.
    NotStarted,
    /// At or after the last keyframe.
    Finished,
    /// Between keyframe `i` (included) and keyframe `i + 1` (excluded).
    Between(usize),
}

/// The timestamps never decrease.
pub open spec fn sorted(ts: Seq<i64>) -> bool {
    forall|i: int, j: int| 0 <= i <= j < ts.len() ==> ts[i] <= ts[j]
}

/// `s` tells where `t` falls among the timestamps `ts`.
pub open spec fn step_of(ts: Seq<i64>, t: int, s: Step) -> bool {
    match s {
        Step::NotStarted => t < ts[0],
        Step::Finished => t >= ts[ts.len() - 1],
        Step::Between(i) => 0 <= i < ts.len() - 1 && ts[i as int] <= t < ts[i + 1],
    }
}

/// Finds where `t` falls among the timestamps of a curve, by binary search.
pub fn find_step(ts: &Vec<i64>, t: i64) -> (r: Step)
    requires
        ts@.len() >= 2,
        sorted(ts@),
    ensures
        step_of(ts@, t as int, r),
{
    let last = ts.len() - 1;
    if t < ts[0] {
        return Step::NotStarted;
    }
    if t >= ts[last] {
        return Step::Finished;
    }
    let mut lo: usize = 0;
    let mut hi: usize = last;
    while hi - lo > 1
        invariant
            0 <= lo < hi <= last,
            last == ts@.len() - 1,
            ts[lo as int] <= t < ts[hi as int],
        decreases hi - lo,
    {
        let mid = lo + (hi - lo) / 2;
        if ts[mid] <= t {
            lo = mid;
        } else {
            hi = mid;
        }
    }
    Step::Between(lo)
}

/// The point `r` of the way from `a` to `b`, rounded toward `a`.
pub open spec fn lerp_fixed(a: int, b: int, r: Ratio) -> int {
    if b >= a {
        a + (b - a) * (r.num as int) / (r.den as int)
    } else {
        a - (a - b) * (r.num as int) / (r.den as int)
    }
}

proof fn lemma_scaled_le(x: int, num: int, den: int)
    requires
        x >= 0,
        0 <= num <= den,
        den > 0,
    ensures
        0 <= x * num / den <= x,
{
    vstd::arithmetic::mul::lemma_mul_inequality(num, den, x);
    vstd::arithmetic::mul::lemma_mul_nonnegative(x, num);
    assert(x * num <= x * den) by (nonlinear_arith)
        requires
            num <= den,
            x >= 0,
    ;
    vstd::arithmetic::div_mod::lemma_div_is_ordered(x * num, x * den, den);
    vstd::arithmetic::div_mod::lemma_div_multiples_vanish(x, den);
    vstd::arithmetic::div_mod::lemma_div_pos_is_pos(x * num, den);
}

/// Linear interpolation of one fixed-point value.
pub fn lerp_value(a: i32, b: i32, r: Ratio) -> (v: i32)
    requires
        r.wf(),
    ensures
        v == lerp_fixed(a as int, b as int, r),
        a <= b ==> a <= v <= b,
        b < a ==> b <= v <= a,
{
    if b >= a {
        let x: u128 = (b as i64 - a as i64) as u128;
        proof {
            lemma_scaled_le(x as int, r.num as int, r.den as int);
            assert(x * (r.num as int) <= 0x1_0000_0000 * 0x1_0000_0000_0000_0000) by (nonlinear_arith)
                requires
                    x <= 0x1_0000_0000,
                    r.num < 0x1_0000_0000_0000_0000,
            ;
        }
        let d = x * (r.num as u128) / (r.den as u128);
        (a as i64 + d as i64) as i32
    } else {
        let x: u128 = (a as i64 - b as i64) as u128;
        proof {
            lemma_scaled_le(x as int, r.num as int, r.den as int);
            assert(x * (r.num as int) <= 0x1_0000_0000 * 0x1_0000_0000_0000_0000) by (nonlinear_arith)
                requires
                    x <= 0x1_0000_0000,
                    r.num < 0x1_0000_0000_0000_0000,
            ;
        }
        let d = x * (r.num as u128) / (r.den as u128);
        (a as i64 - d as i64) as i32
    }
}

/// Componentwise linear interpolation of a vector.
pub open spec fn lerp_vec3(a: Vec3, b: Vec3, r: Ratio) -> Vec3 {
    Vec3 {
        x: lerp_fixed(a.x as int, b.x as int, r) as i32,
        y: lerp_fixed(a.y as int, b.y as int, r) as i32,
        z: lerp_fixed(a.z as int, b.z as int, r) as i32,
    }
}

/// Linear interpolation of a vector.
pub fn lerp3(a: Vec3, b: Vec3, r: Ratio) -> (v: Vec3)
    requires
        r.wf(),
    ensures
        v == lerp_vec3(a, b, r),
{
    Vec3 { x: lerp_value(a.x, b.x, r), y: lerp_value(a.y, b.y, r), z: lerp_value(a.z, b.z, r) }
}

/// How far `t` lies from keyframe `i` toward keyframe `i + 1`.
pub fn key_lerp(ts: &Vec<i64>, i: usize, t: i64) -> (r: Ratio)
    requires
        i + 1 < ts@.len(),
        ts[i as int] <= t < ts[i + 1],
    ensures
        r.wf(),
        r.num < r.den,
        r.num == t - ts[i as int],
        r.den == ts[i + 1] - ts[i as int],
{
    let len = ts.len();
    let lo: i64 = ts[i];
    let hi: i64 = ts[i + 1];
    let num = (t as i128 - lo as i128) as u64;
    let den = (hi as i128 - lo as i128) as u64;
    Ratio { num, den }
}

/// The dot product of two quaternions.
pub open spec fn dot(a: Quat, b: Quat) -> int {
    a.x * b.x + a.y * b.y + a.z * b.z + a.w * b.w
}

/// A quaternion with wide components, so that negation is exact.
#[derive(Clone, Copy, Debug, PartialEq, Eq, Structural)]
pub struct WideQuat {
    pub x: i64,
    pub y: i64,
    pub z: i64,
    pub w: i64,
}

pub open spec fn widen(q: Quat) -> WideQuat {
    WideQuat { x: q.x as i64, y: q.y as i64, z: q.z as i64, w: q.w as i64 }
}

pub open spec fn wide_dot(a: WideQuat, b: WideQuat) -> int {
    a.x * b.x + a.y * b.y + a.z * b.z + a.w * b.w
}

/// The end of a rotation from `start`, taken the short way round: `end`, or
/// `-end` where `end` points away from `start`.
pub open spec fn shortest_end(start: Quat, end: Quat) -> WideQuat {
    if dot(start, end) < 0 {
        WideQuat { x: -end.x as i64, y: -end.y as i64, z: -end.z as i64, w: -end.w as i64 }
    } else {
        widen(end)
    }
}

/// Picks the end of a rotation so that it goes the short way round from `start`.
pub fn shortest_path(start: Quat, end: Quat) -> (r: WideQuat)
    ensures
        r == shortest_end(start, end),
        wide_dot(widen(start), r) >= 0,
{
    proof {
        lemma_product_bound(start.x as int, end.x as int);
        lemma_product_bound(start.y as int, end.y as int);
        lemma_product_bound(start.z as int, end.z as int);
        lemma_product_bound(start.w as int, end.w as int);
    }
    let d: i128 = start.x as i128 * end.x as i128 + start.y as i128 * end.y as i128
        + start.z as i128 * end.z as i128 + start.w as i128 * end.w as i128;
    proof {
        lemma_dot_negated(start, end);
    }
    if d < 0 {
        WideQuat { x: -(end.x as i64), y: -(end.y as i64), z: -(end.z as i64), w: -(end.w as i64) }
    } else {
        WideQuat { x: end.x as i64, y: end.y as i64, z: end.z as i64, w: end.w as i64 }
    }
}

/// The end of a rotation taken the short way round never points away from the
/// start: their dot product is not negative.
pub proof fn lemma_shortest_end(start: Quat, end: Quat)
    ensures
        wide_dot(widen(start), shortest_end(start, end)) >= 0,
{
    lemma_dot_negated(start, end);
}

proof fn lemma_product_bound(a: int, b: int)
    requires
        -0x8000_0000 <= a < 0x8000_0000,
        -0x8000_0000 <= b < 0x8000_0000,
    ensures
        -0x4000_0000_0000_0000 <= a * b <= 0x4000_0000_0000_0000,
{
    assert(-0x4000_0000_0000_0000 <= a * b <= 0x4000_0000_0000_0000) by (nonlinear_arith)
        requires
            -0x8000_0000 <= a < 0x8000_0000,
            -0x8000_0000 <= b < 0x8000_0000,
    ;
}

proof fn lemma_dot_negated(a: Quat, b: Quat)
    ensures
        wide_dot(widen(a), WideQuat { x: -b.x as i64, y: -b.y as i64, z: -b.z as i64, w: -b.w as i64 })
            == -dot(a, b),
        wide_dot(widen(a), widen(b)) == dot(a, b),
{
    assert(wide_dot(widen(a), WideQuat { x: -b.x as i64, y: -b.y as i64, z: -b.z as i64, w: -b.w as i64 })
        == -dot(a, b)) by (nonlinear_arith);
}

/// Each morph weight moved toward an interpolated keyframe block: weight `j`
/// goes `w` of the way to the point `lerp` of the way from `keys[n*i + j]` to
/// `keys[n*next + j]`, where `n` is the number of weights.
pub open spec fn blended_morph(
    weights: Seq<i32>,
    keys: Seq<i32>,
    i: int,
    next: int,
    lerp: Ratio,
    w: Ratio,
) -> Seq<i32> {
    Seq::new(
        weights.len(),
        |j: int|
            {
                let n = weights.len() as int;
                let target = lerp_fixed(keys[n * i + j] as int, keys[n * next + j] as int, lerp);
                lerp_fixed(weights[j] as int, target, w) as i32
            },
    )
}

/// Moves the morph weights toward keyframe block `key_index`, interpolated toward
/// block `next_index` by `key_lerp`, by the weight `w`.
pub fn lerp_morph_weights(
    weights: &mut Vec<i32>,
    key_lerp: Ratio,
    w: Ratio,
    keyframes: &Vec<i32>,
    key_index: usize,
    next_index: usize,
)
    requires
        key_lerp.wf(),
        w.wf(),
        old(weights)@.len() * (key_index + 1) <= keyframes@.len(),
        old(weights)@.len() * (next_index + 1) <= keyframes@.len(),
    ensures
        final(weights)@ == blended_morph(old(weights)@, keyframes@, key_index as int, next_index as int, key_lerp, w),
{
    let n = weights.len();
    let kl = keyframes.len();
    if n == 0 {
        assert(weights@ =~= blended_morph(weights@, keyframes@, key_index as int, next_index as int, key_lerp, w));
        return;
    }
    proof {
        let nn = n as int;
        assert(nn * key_index + nn == nn * (key_index + 1) && nn * next_index + nn == nn * (next_index + 1))
            by (nonlinear_arith);
        assert(key_index + 1 <= nn * (key_index + 1) && next_index + 1 <= nn * (next_index + 1)) by (nonlinear_arith)
            requires
                nn >= 1,
        ;
    }
    let start = n * key_index;
    let end = n * next_index;
    let ghost orig = weights@;
    let mut j: usize = 0;
    while j < n
        invariant
            n == orig.len(),
            weights@.len() == n,
            start == n * key_index,
            end == n * next_index,
            start + n <= kl,
            end + n <= kl,
            kl == keyframes@.len(),
            key_lerp.wf(),
            w.wf(),
            0 <= j <= n,
            forall|k: int| j <= k < n ==> weights@[k] == orig[k],
            forall|k: int|
                0 <= k < j ==> weights@[k] == blended_morph(
                    orig,
                    keyframes@,
                    key_index as int,
                    next_index as int,
                    key_lerp,
                    w,
                )[k],
        decreases n - j,
    {
        let target = lerp_value(keyframes[start + j], keyframes[end + j], key_lerp);
        let v = lerp_value(weights[j], target, w);
        weights.set(j, v);
        j = j + 1;
    }
    assert(weights@ =~= blended_morph(orig, keyframes@, key_index as int, next_index as int, key_lerp, w));
}

} // verus!

//! The per-frame pass: each player's animations are sampled and blended into
//! the nodes below it.
use vstd::prelude::*;
use crate::clip::{AnimationClip, Keyframes, Quat, VariableCurve};
use crate::playback::{
    crosses_boundary, decay, scaled_delta, spec_finished, wrap_time, AnimationPlayer, AnimationTransition,
    PlayingAnimation,
};
use crate::sampler::{
    blended_morph, find_step, key_lerp, lerp3, lerp_fixed, lerp_morph_weights, lerp_vec3, shortest_end,
    lemma_shortest_end, shortest_path, sorted, wide_dot, widen, Ratio, Step, WideQuat,
};
use crate::scene::{
    ancestor, entity_from_path, no_player_above, path_reports, resolve_from, sized, verify_no_ancestor_player, Diagnostic,
    Scene, Transform,
};

verus! {

/// What a rotation curve asks of a node's rotation; the spherical blend itself
/// is left to the caller, which owns the floating-point rotation.
#[derive(Clone, Copy, Debug, PartialEq, Eq, Structural)]
pub enum RotationTarget {
    /// A single keyframe, used as it is.
    Key(Quat),
    /// The spherical interpolation, at `lerp`, from the normalized `start` to the
    /// normalized `end`, where `end` already lies on the short way round.
    Between { start: Quat, end: WideQuat, lerp: Ratio },
}

/// A spherical blend of a node's rotation toward a target, by `weight`.
#[derive(Clone, Copy, Debug, PartialEq, Eq, Structural)]
pub struct RotationBlend {
    pub node: usize,
    pub target: RotationTarget,
    pub weight: Ratio,
}

/// Where on a curve the time `t` falls: the keyframes to interpolate between and
/// how far, or `None` where the curve has not started or is over. A single
/// keyframe applies at every time.
pub open spec fn sample_point(ts: Seq<i64>, t: int) -> Option<(usize, usize, Ratio)> {
    if ts.len() == 1 {
        Some((0, 0, Ratio { num: 0, den: 1 }))
    } else if ts.len() == 0 || t < ts[0] || t >= ts[ts.len() - 1] {
        None
    } else {
        let i = bracket(ts, t);
        Some((i as usize, (i + 1) as usize, Ratio { num: (t - ts[i]) as u64, den: (ts[i + 1] - ts[i]) as u64 }))
    }
}

/// The keyframe `i` with `ts[i] <= t < ts[i + 1]`.
pub open spec fn bracket(ts: Seq<i64>, t: int) -> int {
    choose|i: int| 0 <= i < ts.len() - 1 && #[trigger] ts[i] <= t < ts[i + 1]
}

proof fn lemma_step_unique(ts: Seq<i64>, t: int, i: int)
    requires
        sorted(ts),
        0 <= i < ts.len() - 1,
        ts[i] <= t < ts[i + 1],
    ensures
        bracket(ts, t) == i,
{
    assert(0 <= i < ts.len() - 1 && ts[i] <= t < ts[i + 1]);
    let j = bracket(ts, t);
    if j < i {
        assert(ts[j + 1] <= ts[i]);
    } else if j > i {
        assert(ts[i + 1] <= ts[j]);
    }
}

/// Finds where on a curve with sorted timestamps the time `t` falls.
pub fn locate(ts: &Vec<i64>, t: i64) -> (r: Option<(usize, usize, Ratio)>)
    requires
        sorted(ts@),
    ensures
        r == sample_point(ts@, t as int),
        r matches Some((i, j, l)) ==> i <= j < ts@.len() && l.wf() && (i == j ==> l.num == 0),
{
    if ts.len() == 0 {
        return None;
    }
    if ts.len() == 1 {
        return Some((0, 0, Ratio { num: 0, den: 1 }));
    }
    match find_step(ts, t) {
        Step::Between(i) => {
            proof {
                lemma_step_unique(ts@, t as int, i as int);
            }
            Some((i, i + 1, key_lerp(ts, i, t)))
        },
        _ => None,
    }
}

/// The keyframe counts fit the timestamps: one keyframe per timestamp, or for
/// morph weights one block of `targets` values per timestamp; the timestamps are sorted.
pub open spec fn curve_ok(c: VariableCurve, targets: int) -> bool {
    &&& sorted(c.keyframe_timestamps@)
    &&& match c.keyframes {
        Keyframes::Rotation(k) => k@.len() == c.keyframe_timestamps@.len(),
        Keyframes::Translation(k) => k@.len() == c.keyframe_timestamps@.len(),
        Keyframes::Scale(k) => k@.len() == c.keyframe_timestamps@.len(),
        Keyframes::Weights(k) => k@.len() == targets * c.keyframe_timestamps@.len(),
    }
}

/// The rotation target of keyframes `i` and `j` of a rotation curve.
pub open spec fn rotation_target(keys: Seq<Quat>, i: int, j: int, l: Ratio) -> RotationTarget {
    if i == j {
        RotationTarget::Key(keys[i])
    } else {
        RotationTarget::Between { start: keys[i], end: shortest_end(keys[i], keys[j]), lerp: l }
    }
}

/// The morph weights of a node, as values.
pub open spec fn mview(m: Option<Vec<i32>>) -> Option<Seq<i32>> {
    match m {
        Some(v) => Some(v@),
        None => None,
    }
}

/// The number of morph targets of a node: 0 without morph weights.
pub open spec fn target_count(m: Option<Seq<i32>>) -> int {
    match m {
        Some(v) => v.len() as int,
        None => 0,
    }
}

/// The state of one node as the curves of a bone see it, and the rotation
/// requests so far.
pub type Pose = (Transform, Option<Seq<i32>>, Seq<RotationBlend>);

/// One curve sampled at `t` and blended by `w` into node `node`: translation,
/// scale and morph weights move toward the curve's value, and a rotation is
/// added to the requests.
pub open spec fn sample_spec(c: VariableCurve, t: int, w: Ratio, node: usize, p: Pose) -> Pose {
    let (tr0, m0, rots0) = p;
    match sample_point(c.keyframe_timestamps@, t) {
        None => p,
        Some((i, j, l)) => match c.keyframes {
            Keyframes::Rotation(k) => (
                tr0,
                m0,
                rots0.push(RotationBlend { node, target: rotation_target(k@, i as int, j as int, l), weight: w }),
            ),
            Keyframes::Translation(k) => (
                Transform {
                    translation: lerp_vec3(tr0.translation, lerp_vec3(k@[i as int], k@[j as int], l), w),
                    ..tr0
                },
                m0,
                rots0,
            ),
            Keyframes::Scale(k) => (
                Transform { scale: lerp_vec3(tr0.scale, lerp_vec3(k@[i as int], k@[j as int], l), w), ..tr0 },
                m0,
                rots0,
            ),
            Keyframes::Weights(k) => (
                tr0,
                match m0 {
                    Some(m) => Some(blended_morph(m, k@, i as int, j as int, l, w)),
                    None => None,
                },
                rots0,
            ),
        },
    }
}

/// The curves of a bone sampled in order into one node, leaving out those whose
/// data does not fit their timestamps.
pub open spec fn sample_all(cs: Seq<VariableCurve>, t: int, w: Ratio, node: usize, p: Pose) -> Pose
    decreases cs.len(),
{
    if cs.len() == 0 {
        p
    } else {
        let q = sample_all(cs.drop_last(), t, w, node, p);
        if curve_ok(cs.last(), target_count(q.1)) {
            sample_spec(cs.last(), t, w, node, q)
        } else {
            q
        }
    }
}

/// Samples one curve at `t` and blends it into a node's state by `w`: translation,
/// scale and morph weights are written; a rotation is handed back as a request.
pub fn sample_curve(
    curve: &VariableCurve,
    t: i64,
    w: Ratio,
    node: usize,
    transform: &mut Transform,
    morph: &mut Option<Vec<i32>>,
    rotations: &mut Vec<RotationBlend>,
)
    requires
        w.wf(),
        curve_ok(*curve, match *old(morph) { Some(m) => m@.len() as int, None => 0 }),
    ensures
        (*final(transform), mview(*final(morph)), final(rotations)@) == sample_spec(
            *curve,
            t as int,
            w,
            node,
            (*old(transform), mview(*old(morph)), old(rotations)@),
        ),
{
    let (i, j, l) = match locate(&curve.keyframe_timestamps, t) {
        None => return,
        Some(p) => p,
    };
    match &curve.keyframes {
        Keyframes::Rotation(k) => {
            let target = if i == j {
                RotationTarget::Key(k[i])
            } else {
                RotationTarget::Between { start: k[i], end: shortest_path(k[i], k[j]), lerp: l }
            };
            rotations.push(RotationBlend { node, target, weight: w });
        },
        Keyframes::Translation(k) => {
            let v = lerp3(k[i], k[j], l);
            transform.translation = lerp3(transform.translation, v, w);
        },
        Keyframes::Scale(k) => {
            let v = lerp3(k[i], k[j], l);
            transform.scale = lerp3(transform.scale, v, w);
        },
        Keyframes::Weights(k) => {
            match morph {
                Some(m) => {
                    proof {
                        let n = m@.len() as int;
                        let len = curve.keyframe_timestamps@.len() as int;
                        assert(n * (i + 1) <= n * len && n * (j + 1) <= n * len) by (nonlinear_arith)
                            requires
                                n >= 0,
                                i < len,
                                j < len,
                        ;
                    }
                    lerp_morph_weights(m, l, w, k, i, j);
                },
                None => {},
            }
        },
    }
}


/// Two scenes with the same nodes, names, links and players; only transforms
/// and morph weights may differ.
pub open spec fn same_shape(a: &Scene, b: &Scene) -> bool {
    &&& a.nodes@.len() == b.nodes@.len()
    &&& forall|n: int|
        0 <= n < a.nodes@.len() ==> {
            &&& (#[trigger] a.nodes@[n]).name == b.nodes@[n].name
            &&& a.nodes@[n].parent == b.nodes@[n].parent
            &&& a.nodes@[n].children == b.nodes@[n].children
            &&& a.nodes@[n].has_player == b.nodes@[n].has_player
        }
}

proof fn lemma_same_ancestors(a: &Scene, b: &Scene, start: int, k: nat)
    requires
        same_shape(a, b),
    ensures
        ancestor(a, start, k) == ancestor(b, start, k),
    decreases k,
{
    if k > 0 {
        lemma_same_ancestors(a, b, start, (k - 1) as nat);
        if let Some(n) = ancestor(a, start, (k - 1) as nat) {
            assert(a.nodes@[n].parent == b.nodes@[n].parent);
        }
    }
}

proof fn lemma_same_shape_wf(a: &Scene, b: &Scene)
    requires
        same_shape(a, b),
        a.wf(),
    ensures
        b.wf(),
{
    assert forall|n: int| 0 <= n < b.nodes@.len() implies #[trigger] ancestor(b, n, b.nodes@.len() as nat) is None by {
        lemma_same_ancestors(a, b, n, a.nodes@.len() as nat);
        assert(ancestor(a, n, a.nodes@.len() as nat) is None);
    }
}

/// One bone applied: its path is resolved from `root` in `s0` with the cache
/// `cache0`, leaving `cache1`; if a node with a transform is found, the bone's
/// curves are sampled into it, and nothing else in the scene changes.
pub open spec fn bone_applied(
    s0: Scene,
    s1: Scene,
    rots0: Seq<RotationBlend>,
    rots1: Seq<RotationBlend>,
    d0: Seq<Diagnostic>,
    d1: Seq<Diagnostic>,
    curves: Seq<VariableCurve>,
    path: Seq<Seq<char>>,
    cache0: Seq<Option<usize>>,
    cache1: Seq<Option<usize>>,
    t: int,
    w: Ratio,
    root: usize,
) -> bool {
    let res = resolve_from(&s0, root, path, sized(cache0, path.len() as int), 1);
    &&& cache1 == res.1
    &&& d1 == path_reports(&s0, root, path, cache0, d0)
    &&& match res.0 {
        Some(n) if n < s0.nodes@.len() && s0.nodes@[n as int].transform is Some => {
            let old_node = s0.nodes@[n as int];
            let p = sample_all(curves, t, w, n, (old_node.transform.unwrap(), mview(old_node.morph_weights), rots0));
            &&& s1.nodes@.len() == s0.nodes@.len()
            &&& forall|k: int| 0 <= k < s0.nodes@.len() && k != n ==> s1.nodes@[k] == s0.nodes@[k]
            &&& s1.nodes@[n as int].name == old_node.name
            &&& s1.nodes@[n as int].parent == old_node.parent
            &&& s1.nodes@[n as int].children == old_node.children
            &&& s1.nodes@[n as int].has_player == old_node.has_player
            &&& s1.nodes@[n as int].transform == Some(p.0)
            &&& mview(s1.nodes@[n as int].morph_weights) == p.1
            &&& rots1 == p.2
        },
        _ => s1 == s0 && rots1 == rots0,
    }
}

/// The bones of a clip applied one after another: `ss` and `rs` are the scenes and
/// rotation requests before each bone and after the last.
pub open spec fn bones_applied(
    clip: AnimationClip,
    ss: Seq<Scene>,
    rs: Seq<Seq<RotationBlend>>,
    ds: Seq<Seq<Diagnostic>>,
    caches0: Seq<Seq<Option<usize>>>,
    caches1: Seq<Seq<Option<usize>>>,
    t: int,
    w: Ratio,
    root: usize,
) -> bool {
    let bones = clip.spec_paths().len();
    &&& ss.len() == bones + 1
    &&& rs.len() == bones + 1
    &&& ds.len() == bones + 1
    &&& caches0.len() == bones
    &&& caches1.len() == bones
    &&& forall|b: int|
        0 <= b < bones ==> bone_applied(
            #[trigger] ss[b],
            ss[b + 1],
            rs[b],
            rs[b + 1],
            ds[b],
            ds[b + 1],
            clip.spec_curves()[b],
            clip.spec_paths()[b],
            caches0[b],
            caches1[b],
            t,
            w,
            root,
        )
}

/// The path caches of an animation, as values.
pub open spec fn caches_view(c: Seq<Vec<Option<usize>>>) -> Seq<Seq<Option<usize>>> {
    c.map_values(|v: Vec<Option<usize>>| v@)
}

/// The caches that a clip of `bones` bones starts from: those of the animation
/// where there is one per bone, else empty ones.
pub open spec fn caches_for(c: Seq<Vec<Option<usize>>>, bones: int) -> Seq<Seq<Option<usize>>> {
    if c.len() == bones {
        caches_view(c)
    } else {
        Seq::new(bones as nat, |b: int| Seq::<Option<usize>>::empty())
    }
}

/// Whether a curve's data fits its timestamps, as `curve_ok` says.
pub fn check_curve(c: &VariableCurve, targets: usize) -> (r: bool)
    ensures
        r == curve_ok(*c, targets as int),
{
    let ts = &c.keyframe_timestamps;
    let n = ts.len();
    let mut i: usize = 1;
    while i < n
        invariant
            n == ts@.len(),
            ts@ == c.keyframe_timestamps@,
            1 <= i <= n || n == 0,
            forall|a: int, b: int| 0 <= a <= b < i && b < n ==> ts@[a] <= ts@[b],
        decreases n - i,
    {
        if ts[i - 1] > ts[i] {
            proof {
                let a: int = i as int - 1;
                let b: int = i as int;
                assert(!(ts@[a] <= ts@[b]));
                assert(!sorted(ts@));
                assert(ts@ == c.keyframe_timestamps@);
                assert(!curve_ok(*c, targets as int));
            }
            return false;
        }
        proof {
            assert forall|a: int, b: int| 0 <= a <= b < i + 1 && b < n implies ts@[a] <= ts@[b] by {
                if b == i && a < b {
                    assert(ts@[a] <= ts@[b - 1]);
                }
            }
        }
        i = i + 1;
    }
    assert(sorted(ts@));
    match &c.keyframes {
        Keyframes::Rotation(k) => k.len() == n,
        Keyframes::Translation(k) => k.len() == n,
        Keyframes::Scale(k) => k.len() == n,
        Keyframes::Weights(k) => {
            assert((targets as int) * (n as int) < 0x1_0000_0000_0000_0000_0000_0000_0000_0000) by (nonlinear_arith)
                requires
                    targets < 0x1_0000_0000_0000_0000,
                    n < 0x1_0000_0000_0000_0000,
            ;
            (k.len() as u128) == (targets as u128) * (n as u128)
        },
    }
}

/// One animation applied by `weight` to the nodes below `root` in a frame of
/// `dt` microseconds: the animation goes from `a0` to `a1`, the scene from `s0`
/// to `s1`, the rotation requests from `r0` to `r1` and the reports from `d0` to
/// `d1`. Nothing happens for a clip that is not in `clips`. Where an ancestor of
/// the player hosts another player, only a report is added. Otherwise the time
/// moves on as `PlayingAnimation::advance` says, the path caches are kept where
/// there is one per bone (else they start empty), and every bone of the clip is
/// applied in order.
pub open spec fn animation_applied(
    weight: Ratio,
    a0: PlayingAnimation,
    a1: PlayingAnimation,
    paused: bool,
    root: usize,
    dt: u64,
    clips: Seq<AnimationClip>,
    s0: Scene,
    s1: Scene,
    maybe_parent: Option<usize>,
    r0: Seq<RotationBlend>,
    r1: Seq<RotationBlend>,
    d0: Seq<Diagnostic>,
    d1: Seq<Diagnostic>,
) -> bool {
    &&& same_shape(&s0, &s1)
    &&& s1.wf()
    &&& a1.repeat == a0.repeat
    &&& a1.speed == a0.speed
    &&& a1.animation_clip == a0.animation_clip
    &&& match a0.animation_clip {
        Some(h) if h.id < clips.len() => if maybe_parent matches Some(p) && !no_player_above(&s0, p as int) {
            &&& a1 == a0
            &&& s1 == s0
            &&& r1 == r0
            &&& d1 == d0.push(Diagnostic::ConflictingPlayer { root })
        } else {
            let d = clips[h.id as int].spec_duration();
            let moved = if !spec_finished(a0.repeat, a0.completions as int) && !paused {
                a0.elapsed + scaled_delta(dt as int, a0.speed as int)
            } else {
                a0.elapsed as int
            };
            &&& a1.elapsed == wrap_time(moved, d)
            &&& a1.completions == if crosses_boundary(moved, d, a0.speed as int) {
                if a0.completions < u32::MAX {
                    a0.completions + 1
                } else {
                    u32::MAX as int
                }
            } else {
                a0.completions as int
            }
            &&& a1.path_cache@.len() == clips[h.id as int].spec_paths().len()
            &&& exists|ss: Seq<Scene>, rs: Seq<Seq<RotationBlend>>, ds: Seq<Seq<Diagnostic>>|
                {
                    &&& bones_applied(
                        clips[h.id as int],
                        ss,
                        rs,
                        ds,
                        caches_for(a0.path_cache@, clips[h.id as int].spec_paths().len() as int),
                        caches_view(a1.path_cache@),
                        a1.elapsed as int,
                        weight,
                        root,
                    )
                    &&& ss[0] == s0
                    &&& rs[0] == r0
                    &&& ds[0] == d0
                    &&& ss.last() == s1
                    &&& rs.last() == r1
                    &&& ds.last() == d1
                }
        },
        _ => {
            &&& a1 == a0
            &&& s1 == s0
            &&& r1 == r0
            &&& d1 == d0
        },
    }
}

/// Applies one animation, by `weight`, to the nodes below `root`: moves its time on
/// (see `PlayingAnimation::advance`), then, unless an ancestor of the player hosts
/// another player, samples every curve of the clip into the node that its path
/// names. Curves whose data does not fit their timestamps are left out. Nothing
/// happens for a clip that is not in `clips`.
pub fn apply_animation(
    weight: Ratio,
    animation: &mut PlayingAnimation,
    paused: bool,
    root: usize,
    dt: u64,
    clips: &Vec<AnimationClip>,
    scene: &mut Scene,
    maybe_parent: Option<usize>,
    rotations: &mut Vec<RotationBlend>,
    diagnostics: &mut Vec<Diagnostic>,
)
    requires
        weight.wf(),
        old(scene).wf(),
        forall|c: int| 0 <= c < clips@.len() ==> (#[trigger] clips@[c]).wf(),
    ensures
        animation_applied(
            weight,
            *old(animation),
            *final(animation),
            paused,
            root,
            dt,
            clips@,
            *old(scene),
            *final(scene),
            maybe_parent,
            old(rotations)@,
            final(rotations)@,
            old(diagnostics)@,
            final(diagnostics)@,
        ),
{
    let handle = match animation.animation_clip {
        Some(h) => h,
        None => return,
    };
    if handle.id >= clips.len() as u64 {
        return;
    }
    let clip = &clips[handle.id as usize];
    if !verify_no_ancestor_player(maybe_parent, scene) {
        diagnostics.push(Diagnostic::ConflictingPlayer { root });
        return;
    }
    let t = animation.advance(clip.duration(), dt, paused);
    let bones = clip.bone_count();
    let ghost caches0 = caches_for(animation.path_cache@, bones as int);
    if animation.path_cache.len() != bones {
        let mut fresh_cache: Vec<Vec<Option<usize>>> = Vec::new();
        let mut k: usize = 0;
        while k < bones
            invariant
                fresh_cache@.len() == k,
                k <= bones,
                forall|j: int| 0 <= j < k ==> (#[trigger] fresh_cache@[j])@ == Seq::<Option<usize>>::empty(),
            decreases bones - k,
        {
            fresh_cache.push(Vec::new());
            k = k + 1;
        }
        animation.path_cache = fresh_cache;
    }
    assert(caches_view(animation.path_cache@) =~= caches0);
    let ghost orig = *scene;
    let ghost rots_orig = rotations@;
    let ghost a1 = *animation;
    let ghost mut ss: Seq<Scene> = seq![*scene];
    let ghost mut rs: Seq<Seq<RotationBlend>> = seq![rotations@];
    let ghost diags_orig = diagnostics@;
    let ghost mut ds: Seq<Seq<Diagnostic>> = seq![diagnostics@];
    let mut b: usize = 0;
    while b < bones
        invariant
            bones == clip.spec_paths().len(),
            bones == clip.spec_curves().len(),
            clip.wf(),
            caches0.len() == bones,
            animation.path_cache@.len() == bones,
            animation.repeat == a1.repeat,
            animation.speed == a1.speed,
            animation.elapsed == a1.elapsed,
            animation.elapsed == t,
            animation.completions == a1.completions,
            animation.animation_clip == a1.animation_clip,
            weight.wf(),
            same_shape(&orig, scene),
            orig.wf(),
            scene.wf(),
            0 <= b <= bones,
            ss.len() == b + 1,
            rs.len() == b + 1,
            ss[0] == orig,
            rs[0] == rots_orig,
            ss.last() == *scene,
            rs.last() == rotations@,
            ds.len() == b + 1,
            ds[0] == diags_orig,
            ds.last() == diagnostics@,
            forall|j: int| b <= j < bones ==> (#[trigger] animation.path_cache@[j])@ == caches0[j],
            forall|j: int|
                0 <= j < b ==> bone_applied(
                    #[trigger] ss[j],
                    ss[j + 1],
                    rs[j],
                    rs[j + 1],
                    ds[j],
                    ds[j + 1],
                    clip.spec_curves()[j],
                    clip.spec_paths()[j],
                    caches0[j],
                    animation.path_cache@[j]@,
                    t as int,
                    weight,
                    root,
                ),
        decreases bones - b,
    {
        let ghost s_before = *scene;
        let ghost r_before = rotations@;
        let ghost d_before = diagnostics@;
        let ghost pc_before = animation.path_cache@;
        let target = entity_from_path(root, clip.path(b), scene, &mut animation.path_cache[b], diagnostics);
        proof {
            assert(forall|j: int| 0 <= j < bones && j != b ==> animation.path_cache@[j] == pc_before[j]);
        }
        match target {
            Some(node) => {
                if node < scene.nodes.len() {
                    match scene.nodes[node].transform {
                        Some(tr0) => {
                            let curves = clip.get_curves(b).unwrap();
                            let mut tr = tr0;
                            let mut morph: Option<Vec<i32>> = None;
                            std::mem::swap(&mut morph, &mut scene.nodes[node].morph_weights);
                            let ghost s_mid = *scene;
                            let ghost pose0: Pose = (tr0, mview(morph), r_before);
                            let targets: usize = match &morph {
                                Some(m) => m.len(),
                                None => 0,
                            };
                            assert(curves@.take(0) =~= Seq::<VariableCurve>::empty());
                            let mut c: usize = 0;
                            while c < curves.len()
                                invariant
                                    weight.wf(),
                                    0 <= c <= curves@.len(),
                                    targets == target_count(mview(morph)),
                                    *scene == s_mid,
                                    diagnostics@ == path_reports(
                                        &s_before,
                                        root,
                                        clip.spec_paths()[b as int],
                                        pc_before[b as int]@,
                                        d_before,
                                    ),
                                    (tr, mview(morph), rotations@) == sample_all(
                                        curves@.take(c as int),
                                        t as int,
                                        weight,
                                        node,
                                        pose0,
                                    ),
                                decreases curves.len() - c,
                            {
                                proof {
                                    assert(curves@.take(c as int + 1).drop_last() =~= curves@.take(c as int));
                                    assert(curves@.take(c as int + 1).last() == curves@[c as int]);
                                }
                                if check_curve(&curves[c], targets) {
                                    sample_curve(&curves[c], t, weight, node, &mut tr, &mut morph, rotations);
                                    assert(target_count(mview(morph)) == targets);
                                }
                                c = c + 1;
                            }
                            assert(curves@.take(curves@.len() as int) =~= curves@);
                            scene.nodes[node].transform = Some(tr);
                            std::mem::swap(&mut morph, &mut scene.nodes[node].morph_weights);
                            proof {
                                assert(same_shape(&orig, scene));
                                lemma_same_shape_wf(&orig, scene);
                            }
                        },
                        None => {},
                    }
                }
            },
            None => {},
        }
        proof {
            assert(bone_applied(
                s_before,
                *scene,
                r_before,
                rotations@,
                d_before,
                diagnostics@,
                clip.spec_curves()[b as int],
                clip.spec_paths()[b as int],
                caches0[b as int],
                animation.path_cache@[b as int]@,
                t as int,
                weight,
                root,
            ));
            ss = ss.push(*scene);
            rs = rs.push(rotations@);
            ds = ds.push(diagnostics@);
            assert forall|j: int| 0 <= j < b + 1 implies bone_applied(
                #[trigger] ss[j],
                ss[j + 1],
                rs[j],
                rs[j + 1],
                ds[j],
                ds[j + 1],
                clip.spec_curves()[j],
                clip.spec_paths()[j],
                caches0[j],
                animation.path_cache@[j]@,
                t as int,
                weight,
                root,
            ) by {
                if j < b {
                    assert(animation.path_cache@[j] == pc_before[j]);
                }
            }
        }
        b = b + 1;
    }
    proof {
        assert(caches_view(animation.path_cache@).len() == bones);
        assert forall|j: int| 0 <= j < bones implies caches_view(animation.path_cache@)[j] == animation.path_cache@[j]@ by {}
        assert(bones_applied(*clip, ss, rs, ds, caches0, caches_view(animation.path_cache@), t as int, weight, root));
    }
}


/// The weight of a fade-out: what is left of it over its length.
pub open spec fn transition_weight(t: AnimationTransition) -> Ratio {
    let den: u64 = if t.transition_duration == 0 { 1 } else { t.transition_duration };
    Ratio { num: if t.remaining > den { den } else { t.remaining }, den }
}

fn weight_of(t: &AnimationTransition) -> (r: Ratio)
    ensures
        r == transition_weight(*t),
        r.wf(),
{
    let den: u64 = if t.transition_duration == 0 { 1 } else { t.transition_duration };
    Ratio { num: if t.remaining > den { den } else { t.remaining }, den }
}

/// One frame of a player whose fade-outs were already updated: from its state
/// (`paused`, active animation `a0`, fade-outs `ts0`) to (`a1`, `ts1`), with the
/// scene going from `s0` to `s1` and the rotation requests from `r0` to `r1`.
/// A paused player that was not touched does nothing; otherwise the active
/// animation is applied at full weight, then each fade-out at its own weight,
/// oldest first, each on the scene that the one before left.
pub open spec fn player_ran(
    paused: bool,
    changed: bool,
    a0: PlayingAnimation,
    ts0: Seq<AnimationTransition>,
    a1: PlayingAnimation,
    ts1: Seq<AnimationTransition>,
    root: usize,
    dt: u64,
    clips: Seq<AnimationClip>,
    s0: Scene,
    s1: Scene,
    maybe_parent: Option<usize>,
    r0: Seq<RotationBlend>,
    r1: Seq<RotationBlend>,
    d0: Seq<Diagnostic>,
    d1: Seq<Diagnostic>,
) -> bool {
    if paused && !changed {
        a1 == a0 && ts1 == ts0 && s1 == s0 && r1 == r0 && d1 == d0
    } else {
        &&& ts1.len() == ts0.len()
        &&& exists|ss: Seq<Scene>, rs: Seq<Seq<RotationBlend>>, ds: Seq<Seq<Diagnostic>>|
            {
                &&& ss.len() == ts0.len() + 2
                &&& rs.len() == ts0.len() + 2
                &&& ds.len() == ts0.len() + 2
                &&& ss[0] == s0
                &&& rs[0] == r0
                &&& ds[0] == d0
                &&& ss.last() == s1
                &&& rs.last() == r1
                &&& ds.last() == d1
                &&& animation_applied(
                    Ratio { num: 1, den: 1 },
                    a0,
                    a1,
                    paused,
                    root,
                    dt,
                    clips,
                    ss[0],
                    ss[1],
                    maybe_parent,
                    rs[0],
                    rs[1],
                    ds[0],
                    ds[1],
                )
                &&& forall|i: int|
                    0 <= i < ts0.len() ==> {
                        &&& (#[trigger] ts1[i]).remaining == ts0[i].remaining
                        &&& ts1[i].transition_duration == ts0[i].transition_duration
                        &&& animation_applied(
                            transition_weight(ts0[i]),
                            ts0[i].animation,
                            ts1[i].animation,
                            paused,
                            root,
                            dt,
                            clips,
                            ss[i + 1],
                            ss[i + 2],
                            maybe_parent,
                            rs[i + 1],
                            rs[i + 2],
                            ds[i + 1],
                            ds[i + 2],
                        )
                    }
            }
    }
}

/// One frame of a player after its fade-outs have been updated: unless it is paused
/// and was not touched since the last frame, the active animation is applied at
/// full weight, then each fade-out at its own weight, oldest first.
pub fn run_animation_player(
    player: &mut AnimationPlayer,
    changed: bool,
    root: usize,
    dt: u64,
    clips: &Vec<AnimationClip>,
    scene: &mut Scene,
    maybe_parent: Option<usize>,
    rotations: &mut Vec<RotationBlend>,
    diagnostics: &mut Vec<Diagnostic>,
)
    requires
        old(scene).wf(),
        forall|c: int| 0 <= c < clips@.len() ==> (#[trigger] clips@[c]).wf(),
    ensures
        same_shape(old(scene), final(scene)),
        final(scene).wf(),
        final(player).spec_paused() == old(player).spec_paused(),
        player_ran(
            old(player).spec_paused(),
            changed,
            old(player).spec_animation(),
            old(player).spec_transitions(),
            final(player).spec_animation(),
            final(player).spec_transitions(),
            root,
            dt,
            clips@,
            *old(scene),
            *final(scene),
            maybe_parent,
            old(rotations)@,
            final(rotations)@,
            old(diagnostics)@,
            final(diagnostics)@,
        ),
{
    proof {
        player.lemma_view();
    }
    let paused = player.paused;
    if paused && !changed {
        return;
    }
    let ghost orig = *scene;
    let ghost p0 = *player;
    let ghost r0 = rotations@;
    let ghost d0 = diagnostics@;
    apply_animation(
        Ratio { num: 1, den: 1 },
        &mut player.animation,
        paused,
        root,
        dt,
        clips,
        scene,
        maybe_parent,
        rotations,
        diagnostics,
    );
    let ghost p1 = *player;
    let ghost mut ss: Seq<Scene> = seq![orig, *scene];
    let ghost mut rs: Seq<Seq<RotationBlend>> = seq![r0, rotations@];
    let ghost mut ds: Seq<Seq<Diagnostic>> = seq![d0, diagnostics@];
    let mut i: usize = 0;
    while i < player.transitions.len()
        invariant
            same_shape(&orig, scene),
            orig.wf(),
            scene.wf(),
            forall|c: int| 0 <= c < clips@.len() ==> (#[trigger] clips@[c]).wf(),
            player.paused == p0.paused,
            paused == p0.paused,
            player.animation == p1.animation,
            player.transitions@.len() == p0.transitions@.len(),
            0 <= i <= player.transitions@.len(),
            ss.len() == i + 2,
            rs.len() == i + 2,
            ss[0] == orig,
            rs[0] == r0,
            ss.last() == *scene,
            rs.last() == rotations@,
            ds.len() == i + 2,
            ds[0] == d0,
            ds.last() == diagnostics@,
            animation_applied(
                Ratio { num: 1, den: 1 },
                p0.animation,
                p1.animation,
                paused,
                root,
                dt,
                clips@,
                ss[0],
                ss[1],
                maybe_parent,
                rs[0],
                rs[1],
                ds[0],
                ds[1],
            ),
            forall|k: int| i <= k < p0.transitions@.len() ==> #[trigger] player.transitions@[k] == p0.transitions@[k],
            forall|k: int|
                0 <= k < i ==> {
                    &&& (#[trigger] player.transitions@[k]).remaining == p0.transitions@[k].remaining
                    &&& player.transitions@[k].transition_duration == p0.transitions@[k].transition_duration
                    &&& animation_applied(
                        transition_weight(p0.transitions@[k]),
                        p0.transitions@[k].animation,
                        player.transitions@[k].animation,
                        paused,
                        root,
                        dt,
                        clips@,
                        ss[k + 1],
                        ss[k + 2],
                        maybe_parent,
                        rs[k + 1],
                        rs[k + 2],
                        ds[k + 1],
                        ds[k + 2],
                    )
                },
        decreases player.transitions.len() - i,
    {
        let w = weight_of(&player.transitions[i]);
        let ghost before = player.transitions@;
        apply_animation(w, &mut player.transitions[i].animation, paused, root, dt, clips, scene, maybe_parent, rotations, diagnostics);
        proof {
            assert(same_shape(&orig, scene)) by {
                assert(same_shape(&ss.last(), scene));
            }
            ss = ss.push(*scene);
            rs = rs.push(rotations@);
            ds = ds.push(diagnostics@);
            assert forall|k: int| 0 <= k < i + 1 implies {
                &&& (#[trigger] player.transitions@[k]).remaining == p0.transitions@[k].remaining
                &&& player.transitions@[k].transition_duration == p0.transitions@[k].transition_duration
                &&& animation_applied(
                    transition_weight(p0.transitions@[k]),
                    p0.transitions@[k].animation,
                    player.transitions@[k].animation,
                    paused,
                    root,
                    dt,
                    clips@,
                    ss[k + 1],
                    ss[k + 2],
                    maybe_parent,
                    rs[k + 1],
                    rs[k + 2],
                    ds[k + 1],
                    ds[k + 2],
                )
            } by {
                if k < i {
                    assert(player.transitions@[k] == before[k]);
                }
            }
        }
        i = i + 1;
    }
    proof {
        player.lemma_view();
        assert(ss.len() == p0.transitions@.len() + 2);
    }
}

/// A player in the scene: the node it is attached to, whether its controls were
/// used since the last frame, and the player.
#[derive(Debug)]
pub struct PlayerSlot {
    pub entity: usize,
    pub changed: bool,
    pub player: AnimationPlayer,
}

/// The parent of node `e`, if it exists and has one.
pub open spec fn parent_in(s: Scene, e: usize) -> Option<usize> {
    if e < s.nodes@.len() {
        s.nodes@[e as int].parent
    } else {
        None
    }
}

/// One frame of `dt` microseconds for every player, in order: its fade-outs run
/// down and those that are over go, then its animations are applied to the nodes
/// below it. The rotations that the curves ask for are appended to `rotations`,
/// in the order in which they apply.
pub fn animation_player(
    players: &mut Vec<PlayerSlot>,
    dt: u64,
    clips: &Vec<AnimationClip>,
    scene: &mut Scene,
    rotations: &mut Vec<RotationBlend>,
    diagnostics: &mut Vec<Diagnostic>,
)
    requires
        old(scene).wf(),
        forall|c: int| 0 <= c < clips@.len() ==> (#[trigger] clips@[c]).wf(),
    ensures
        same_shape(old(scene), final(scene)),
        final(scene).wf(),
        final(players)@.len() == old(players)@.len(),
        exists|ss: Seq<Scene>, rs: Seq<Seq<RotationBlend>>, ds: Seq<Seq<Diagnostic>>|
            {
                &&& ss.len() == old(players)@.len() + 1
                &&& rs.len() == old(players)@.len() + 1
                &&& ds.len() == old(players)@.len() + 1
                &&& ss[0] == *old(scene)
                &&& rs[0] == old(rotations)@
                &&& ds[0] == old(diagnostics)@
                &&& ss.last() == *final(scene)
                &&& rs.last() == final(rotations)@
                &&& ds.last() == final(diagnostics)@
                &&& forall|i: int|
                    0 <= i < old(players)@.len() ==> {
                        let p0 = old(players)@[i];
                        let p1 = final(players)@[i];
                        &&& (#[trigger] final(players)@[i]).entity == p0.entity
                        &&& p1.changed == p0.changed
                        &&& p1.player.spec_paused() == p0.player.spec_paused()
                        &&& player_ran(
                            p0.player.spec_paused(),
                            p0.changed,
                            p0.player.spec_animation(),
                            decay(p0.player.spec_transitions(), dt as int),
                            p1.player.spec_animation(),
                            p1.player.spec_transitions(),
                            p0.entity,
                            dt,
                            clips@,
                            ss[i],
                            ss[i + 1],
                            parent_in(ss[i], p0.entity),
                            rs[i],
                            rs[i + 1],
                            ds[i],
                            ds[i + 1],
                        )
                    }
            },
{
    let ghost orig = *scene;
    let ghost r0 = rotations@;
    let ghost p0 = players@;
    let ghost mut ss: Seq<Scene> = seq![orig];
    let ghost mut rs: Seq<Seq<RotationBlend>> = seq![r0];
    let ghost d0 = diagnostics@;
    let ghost mut ds: Seq<Seq<Diagnostic>> = seq![d0];
    let mut i: usize = 0;
    while i < players.len()
        invariant
            same_shape(&orig, scene),
            orig.wf(),
            scene.wf(),
            forall|c: int| 0 <= c < clips@.len() ==> (#[trigger] clips@[c]).wf(),
            players@.len() == p0.len(),
            0 <= i <= p0.len(),
            ss.len() == i + 1,
            rs.len() == i + 1,
            ss[0] == orig,
            rs[0] == r0,
            ss.last() == *scene,
            rs.last() == rotations@,
            ds.len() == i + 1,
            ds[0] == d0,
            ds.last() == diagnostics@,
            forall|k: int| i <= k < p0.len() ==> #[trigger] players@[k] == p0[k],
            forall|k: int|
                0 <= k < i ==> {
                    &&& (#[trigger] players@[k]).entity == p0[k].entity
                    &&& players@[k].changed == p0[k].changed
                    &&& players@[k].player.spec_paused() == p0[k].player.spec_paused()
                    &&& player_ran(
                        p0[k].player.spec_paused(),
                        p0[k].changed,
                        p0[k].player.spec_animation(),
                        decay(p0[k].player.spec_transitions(), dt as int),
                        players@[k].player.spec_animation(),
                        players@[k].player.spec_transitions(),
                        p0[k].entity,
                        dt,
                        clips@,
                        ss[k],
                        ss[k + 1],
                        parent_in(ss[k], p0[k].entity),
                        rs[k],
                        rs[k + 1],
                        ds[k],
                        ds[k + 1],
                    )
                },
        decreases players.len() - i,
    {
        let entity = players[i].entity;
        let changed = players[i].changed;
        let parent = if entity < scene.nodes.len() {
            scene.nodes[entity].parent
        } else {
            None
        };
        let ghost before = players@;
        players[i].player.update_transitions(dt);
        run_animation_player(&mut players[i].player, changed, entity, dt, clips, scene, parent, rotations, diagnostics);
        proof {
            assert(same_shape(&orig, scene)) by {
                assert(same_shape(&ss.last(), scene));
            }
            ss = ss.push(*scene);
            rs = rs.push(rotations@);
            ds = ds.push(diagnostics@);
            assert forall|k: int| 0 <= k < i + 1 implies {
                &&& (#[trigger] players@[k]).entity == p0[k].entity
                &&& players@[k].changed == p0[k].changed
                &&& players@[k].player.spec_paused() == p0[k].player.spec_paused()
                &&& player_ran(
                    p0[k].player.spec_paused(),
                    p0[k].changed,
                    p0[k].player.spec_animation(),
                    decay(p0[k].player.spec_transitions(), dt as int),
                    players@[k].player.spec_animation(),
                    players@[k].player.spec_transitions(),
                    p0[k].entity,
                    dt,
                    clips@,
                    ss[k],
                    ss[k + 1],
                    parent_in(ss[k], p0[k].entity),
                    rs[k],
                    rs[k + 1],
                    ds[k],
                    ds[k + 1],
                )
            } by {
                if k < i {
                    assert(players@[k] == before[k]);
                }
            }
        }
        i = i + 1;
    }
}


/// Every rotation that a curve asks for between two keyframes goes the short way
/// round: the end it interpolates toward does not point away from the start.
pub proof fn lemma_rotation_short_way(c: VariableCurve, t: int, w: Ratio, node: usize, p: Pose)
    ensures
        sample_spec(c, t, w, node, p).2.len() > p.2.len() ==> match sample_spec(c, t, w, node, p).2.last().target {
            RotationTarget::Between { start, end, lerp } => wide_dot(widen(start), end) >= 0,
            RotationTarget::Key(_) => true,
        },
{
    if let Some((i, j, l)) = sample_point(c.keyframe_timestamps@, t) {
        if let Keyframes::Rotation(k) = c.keyframes {
            lemma_shortest_end(k@[i as int], k@[j as int]);
        }
    }
}

/// What a curve with a single keyframe does to a node does not depend on the time:
/// sampled at any two times, it leaves the same state.
pub proof fn lemma_single_keyframe_any_time(c: VariableCurve, t1: int, t2: int, w: Ratio, node: usize, p: Pose)
    requires
        c.keyframe_timestamps@.len() == 1,
    ensures
        sample_spec(c, t1, w, node, p) == sample_spec(c, t2, w, node, p),
{
}

/// A curve with a single keyframe gives that keyframe at every time: the node
/// moves toward it by the blend weight alone.
pub proof fn lemma_single_keyframe(c: VariableCurve, t: int, w: Ratio, weights: Seq<i32>)
    requires
        c.keyframe_timestamps@.len() == 1,
    ensures
        sample_point(c.keyframe_timestamps@, t) == Some((0usize, 0usize, Ratio { num: 0, den: 1 })),
        match c.keyframes {
            Keyframes::Rotation(k) => rotation_target(k@, 0, 0, Ratio { num: 0, den: 1 }) == RotationTarget::Key(k@[0]),
            Keyframes::Translation(k) => lerp_vec3(k@[0], k@[0], Ratio { num: 0, den: 1 }) == k@[0],
            Keyframes::Scale(k) => lerp_vec3(k@[0], k@[0], Ratio { num: 0, den: 1 }) == k@[0],
            Keyframes::Weights(k) => k@.len() >= weights.len() ==> blended_morph(
                weights,
                k@,
                0,
                0,
                Ratio { num: 0, den: 1 },
                w,
            ) == Seq::new(weights.len(), |j: int| lerp_fixed(weights[j] as int, k@[j] as int, w) as i32),
        },
{
    match c.keyframes {
        Keyframes::Weights(k) => {
            let lhs = blended_morph(weights, k@, 0, 0, Ratio { num: 0, den: 1 }, w);
            let rhs = Seq::new(weights.len(), |j: int| lerp_fixed(weights[j] as int, k@[j] as int, w) as i32);
            assert forall|j: int| 0 <= j < weights.len() implies lhs[j] == rhs[j] by {
                let n = weights.len() as int;
                assert(n * 0 + j == j);
            }
            assert(lhs =~= rhs);
        },
        _ => {},
    }
}

} // verus!

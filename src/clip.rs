//! Keyframe curves and the clips that group them by entity path.
use vstd::prelude::*;

verus! {

/// A 3-vector in fixed point: one unit is `1 / FIXED_ONE`.
#[derive(Clone, Copy, Debug, PartialEq, Eq, Structural)]
pub struct Vec3 {
    pub x: i32,
    pub y: i32,
    pub z: i32,
}

/// A quaternion in fixed point: one unit is `1 / FIXED_ONE`.
#[derive(Clone, Copy, Debug, PartialEq, Eq, Structural)]
pub struct Quat {
    pub x: i32,
    pub y: i32,
    pub z: i32,
    pub w: i32,
}

/// The fixed-point value that stands for 1.0.
pub const FIXED_ONE: i32 = 65536;

/// List of keyframes for one attribute of a node's transform or morph weights.
#[derive(Clone, Debug)]
pub enum Keyframes {
    /// Keyframes for rotation.
    Rotation(Vec<Quat>),
    /// Keyframes for translation.
    Translation(Vec<Vec3>),
    /// Keyframes for scale.
    Scale(Vec<Vec3>),
    /// Keyframes for morph target weights: each run of `target_count`
    /// contiguous values is the weights of one keyframe.
    Weights(Vec<i32>),
}

/// One animated attribute: a timestamp (in microseconds) for each keyframe,
/// and the keyframes.
#[derive(Clone, Debug)]
pub struct VariableCurve {
    /// Timestamp of each keyframe, in microseconds, non-decreasing.
    pub keyframe_timestamps: Vec<i64>,
    /// The keyframe values.
    pub keyframes: Keyframes,
}

/// The last timestamp of a curve, or 0 for a curve without keyframes.
pub open spec fn last_timestamp_or_zero(c: VariableCurve) -> int {
    if c.keyframe_timestamps@.len() == 0 {
        0
    } else {
        c.keyframe_timestamps@.last() as int
    }
}

/// Path to a node, by the names of the nodes from the animation root down.
#[derive(Clone, Debug)]
pub struct EntityPath {
    /// Parts of the path.
    pub parts: Vec<String>,
}

/// The names of a path, as character sequences.
pub open spec fn names_view(parts: Seq<String>) -> Seq<Seq<char>> {
    parts.map_values(|s: String| s@)
}

impl View for EntityPath {
    type V = Seq<Seq<char>>;

    open spec fn view(&self) -> Seq<Seq<char>> {
        names_view(self.parts@)
    }
}

/// Whether two paths name the same nodes.
pub fn same_path(a: &EntityPath, b: &EntityPath) -> (r: bool)
    ensures
        r == (a@ == b@),
{
    if a.parts.len() != b.parts.len() {
        assert(a@.len() != b@.len());
        return false;
    }
    let mut i: usize = 0;
    while i < a.parts.len()
        invariant
            a.parts.len() == b.parts.len(),
            0 <= i <= a.parts.len(),
            forall|k: int| 0 <= k < i ==> a@[k] == b@[k],
        decreases a.parts.len() - i,
    {
        if a.parts[i] != b.parts[i] {
            assert(a@[i as int] != b@[i as int]);
            return false;
        }
        i = i + 1;
    }
    assert(a@ =~= b@);
    true
}

impl PartialEq for EntityPath {
    fn eq(&self, other: &EntityPath) -> (r: bool) {
        same_path(self, other)
    }
}

impl vstd::std_specs::cmp::PartialEqSpecImpl for EntityPath {
    open spec fn obeys_eq_spec() -> bool {
        true
    }

    open spec fn eq_spec(&self, other: &EntityPath) -> bool {
        self@ == other@
    }
}

impl Eq for EntityPath {
}

/// A list of curves, grouped by bone, and the path of the node that each bone animates.
///
/// The bone id of a path is its position in `paths`.
#[derive(Clone, Debug)]
pub struct AnimationClip {
    pub(crate) curves: Vec<Vec<VariableCurve>>,
    pub(crate) paths: Vec<EntityPath>,
    pub(crate) duration: i64,
}

impl AnimationClip {
    /// The curves of each bone, indexed by bone id.
    pub closed spec fn spec_curves(&self) -> Seq<Seq<VariableCurve>> {
        self.curves@.map_values(|v: Vec<VariableCurve>| v@)
    }

    /// The path of each bone, indexed by bone id.
    pub closed spec fn spec_paths(&self) -> Seq<Seq<Seq<char>>> {
        self.paths@.map_values(|p: EntityPath| p@)
    }

    pub closed spec fn spec_duration(&self) -> int {
        self.duration as int
    }

    /// The bones and the paths match one to one, each path names one bone,
    /// each bone has a curve, and the duration is the latest last timestamp.
    pub open spec fn wf(&self) -> bool {
        &&& self.spec_curves().len() == self.spec_paths().len()
        &&& forall|i: int, j: int|
            0 <= i < j < self.spec_paths().len() ==> self.spec_paths()[i] != self.spec_paths()[j]
        &&& forall|b: int| 0 <= b < self.spec_curves().len() ==> self.spec_curves()[b].len() >= 1
        &&& duration_of(self.spec_curves(), self.spec_duration())
    }

    /// An empty clip.
    pub fn new() -> (r: AnimationClip)
        ensures
            r.wf(),
            r.spec_curves().len() == 0,
            r.spec_duration() == 0,
    {
        let r = AnimationClip { curves: Vec::new(), paths: Vec::new(), duration: 0 };
        assert(r.spec_curves() =~= Seq::empty());
        assert(r.spec_paths() =~= Seq::empty());
        r
    }

    /// The curves of each bone, indexed by bone id.
    pub fn curves(&self) -> (r: &Vec<Vec<VariableCurve>>)
        ensures
            r@.map_values(|v: Vec<VariableCurve>| v@) == self.spec_curves(),
    {
        &self.curves
    }

    /// The curves of a bone, or `None` for an unknown bone id.
    pub fn get_curves(&self, bone_id: usize) -> (r: Option<&Vec<VariableCurve>>)
        ensures
            bone_id < self.spec_curves().len() <==> r.is_some(),
            r.is_some() ==> r.unwrap()@ == self.spec_curves()[bone_id as int],
    {
        if bone_id < self.curves.len() {
            Some(&self.curves[bone_id])
        } else {
            None
        }
    }

    /// Number of bones (and of paths).
    pub fn bone_count(&self) -> (r: usize)
        requires
            self.wf(),
        ensures
            r == self.spec_paths().len(),
            r == self.spec_curves().len(),
    {
        self.paths.len()
    }

    /// The path of a bone.
    pub fn path(&self, bone_id: usize) -> (r: &EntityPath)
        requires
            bone_id < self.spec_paths().len(),
        ensures
            r@ == self.spec_paths()[bone_id as int],
    {
        &self.paths[bone_id]
    }

    /// The bone id of a path, or `None` if the clip does not animate it.
    pub fn bone_of(&self, path: &EntityPath) -> (r: Option<usize>)
        ensures
            r.is_none() <==> !self.spec_paths().contains(path@),
            r.is_some() ==> r.unwrap() < self.spec_paths().len()
                && self.spec_paths()[r.unwrap() as int] == path@,
    {
        let mut i: usize = 0;
        while i < self.paths.len()
            invariant
                0 <= i <= self.paths.len(),
                self.spec_paths().len() == self.paths@.len(),
                forall|k: int| 0 <= k < i ==> self.spec_paths()[k] != path@,
            decreases self.paths.len() - i,
        {
            if same_path(&self.paths[i], path) {
                assert(self.spec_paths()[i as int] == path@);
                return Some(i);
            }
            i = i + 1;
        }
        proof {
            if self.spec_paths().contains(path@) {
                let k = choose|k: int| 0 <= k < self.spec_paths().len() && self.spec_paths()[k] == path@;
                assert(self.spec_paths()[k] != path@);
            }
        }
        None
    }

    /// The curves of the bone that a path names, or `None` if the clip does not animate it.
    pub fn get_curves_by_path(&self, path: &EntityPath) -> (r: Option<&Vec<VariableCurve>>)
        requires
            self.wf(),
        ensures
            r.is_none() <==> !self.spec_paths().contains(path@),
            r.is_some() ==> exists|b: int|
                0 <= b < self.spec_paths().len() && self.spec_paths()[b] == path@
                    && r.unwrap()@ == self.spec_curves()[b],
    {
        match self.bone_of(path) {
            Some(b) => Some(&self.curves[b]),
            None => None,
        }
    }

    /// Duration of the clip, in microseconds.
    pub fn duration(&self) -> (r: i64)
        ensures
            r == self.spec_duration(),
    {
        self.duration
    }

    /// Adds a curve to the bone of `path`, giving the path a new bone if it has none,
    /// and extends the duration to the curve's last timestamp if that is later.
    pub fn add_curve_to_path(&mut self, path: EntityPath, curve: VariableCurve)
        requires
            old(self).wf(),
            old(self).spec_curves().len() < usize::MAX,
        ensures
            final(self).wf(),
            final(self).spec_duration() == if last_timestamp_or_zero(curve) > old(self).spec_duration() {
                last_timestamp_or_zero(curve)
            } else {
                old(self).spec_duration()
            },
            old(self).spec_paths().contains(path@) ==> {
                &&& final(self).spec_paths() == old(self).spec_paths()
                &&& exists|b: int|
                    0 <= b < old(self).spec_paths().len() && old(self).spec_paths()[b] == path@
                        && final(self).spec_curves() == old(self).spec_curves().update(
                        b,
                        old(self).spec_curves()[b].push(curve),
                    )
            },
            !old(self).spec_paths().contains(path@) ==> {
                &&& final(self).spec_paths() == old(self).spec_paths().push(path@)
                &&& final(self).spec_curves() == old(self).spec_curves().push(seq![curve])
            },
    {
        let ghost old_curves = self.spec_curves();
        let ghost d0 = self.duration as int;
        let last: i64 = if curve.keyframe_timestamps.len() == 0 {
            0
        } else {
            curve.keyframe_timestamps[curve.keyframe_timestamps.len() - 1]
        };
        if last > self.duration {
            self.duration = last;
        }
        let ghost d1 = self.duration as int;
        match self.bone_of(&path) {
            Some(b) => {
                self.curves[b].push(curve);
                proof {
                    assert(self.spec_curves() =~= old_curves.update(b as int, old_curves[b as int].push(curve)));
                }
            },
            None => {
                let mut bone: Vec<VariableCurve> = Vec::new();
                bone.push(curve);
                self.curves.push(bone);
                self.paths.push(path);
                proof {
                    assert(self.spec_curves() =~= old_curves.push(seq![curve]));
                    assert(self.spec_paths() =~= old(self).spec_paths().push(path@));
                }
            },
        }
        proof {
            let cs = self.spec_curves();
            assert forall|b: int, c: int| 0 <= b < cs.len() && 0 <= c < cs[b].len() implies
                last_timestamp_or_zero(cs[b][c]) <= d1 by {
                if b < old_curves.len() && c < old_curves[b].len() {
                    assert(cs[b][c] == old_curves[b][c]);
                } else {
                    assert(cs[b][c] == curve);
                }
            }
            if d1 != 0 {
                if d1 == last_timestamp_or_zero(curve) {
                    let bb: int = if old(self).spec_paths().contains(path@) {
                        choose|b: int| 0 <= b < old(self).spec_paths().len() && old(self).spec_paths()[b] == path@
                            && cs == old_curves.update(b, old_curves[b].push(curve))
                    } else {
                        old_curves.len() as int
                    };
                    assert(cs[bb][cs[bb].len() - 1] == curve);
                } else {
                    let (b0, c0) = choose|b: int, c: int|
                        0 <= b < old_curves.len() && 0 <= c < old_curves[b].len()
                            && last_timestamp_or_zero(old_curves[b][c]) == d0;
                    assert(cs[b0][c0] == old_curves[b0][c0]);
                }
            }
            assert(duration_of(cs, d1));
        }
    }

    /// Whether every path of the clip starts with `name`; a clip whose paths
    /// may be rooted at a node of that name.
    pub fn compatible_with(&self, name: &String) -> (r: bool)
        ensures
            r == forall|b: int|
                0 <= b < self.spec_paths().len() ==> self.spec_paths()[b].len() >= 1
                    && self.spec_paths()[b][0] == name@,
    {
        let mut i: usize = 0;
        while i < self.paths.len()
            invariant
                0 <= i <= self.paths.len(),
                self.spec_paths().len() == self.paths@.len(),
                forall|b: int| 0 <= b < i ==> self.spec_paths()[b].len() >= 1
                    && self.spec_paths()[b][0] == name@,
            decreases self.paths.len() - i,
        {
            let path = &self.paths[i];
            assert(self.spec_paths()[i as int] == path@);
            if path.parts.len() == 0 {
                return false;
            }
            if path.parts[0] != *name {
                return false;
            }
            i = i + 1;
        }
        true
    }
}

impl Default for AnimationClip {
    fn default() -> (r: AnimationClip)
        ensures
            r.wf(),
            r.spec_curves().len() == 0,
            r.spec_duration() == 0,
    {
        AnimationClip::new()
    }
}

impl Default for EntityPath {
    fn default() -> (r: EntityPath)
        ensures
            r@.len() == 0,
    {
        let r = EntityPath { parts: Vec::new() };
        assert(r@ =~= Seq::empty());
        r
    }
}

/// The duration of a clip is the latest last timestamp of its curves (0 for a
/// clip without any), and adding a curve never shortens it: it becomes the
/// later of the old duration and the new curve's last timestamp.
pub proof fn lemma_duration_law(c: AnimationClip, added: AnimationClip, path: Seq<Seq<char>>, curve: VariableCurve)
    requires
        c.wf(),
        added.wf(),
        !c.spec_paths().contains(path) ==> added.spec_curves() == c.spec_curves().push(seq![curve]),
        c.spec_paths().contains(path) ==> exists|b: int|
            0 <= b < c.spec_paths().len() && c.spec_paths()[b] == path
                && added.spec_curves() == c.spec_curves().update(b, c.spec_curves()[b].push(curve)),
    ensures
        duration_of(c.spec_curves(), c.spec_duration()),
        added.spec_duration() >= c.spec_duration(),
        added.spec_duration() >= last_timestamp_or_zero(curve),
        added.spec_duration() == c.spec_duration() || added.spec_duration() == last_timestamp_or_zero(curve),
{
    let cs = c.spec_curves();
    let ns = added.spec_curves();
    let d = added.spec_duration();
    if c.spec_duration() != 0 {
        let (b0, c0) = choose|b: int, k: int|
            0 <= b < cs.len() && 0 <= k < cs[b].len() && last_timestamp_or_zero(cs[b][k]) == c.spec_duration();
        assert(ns[b0][c0] == cs[b0][c0]);
    }
    let bb: int = if c.spec_paths().contains(path) {
        choose|b: int|
            0 <= b < c.spec_paths().len() && c.spec_paths()[b] == path
                && ns == cs.update(b, cs[b].push(curve))
    } else {
        cs.len() as int
    };
    assert(ns[bb][ns[bb].len() - 1] == curve);
    if d != 0 {
        let (b1, c1) = choose|b: int, k: int|
            0 <= b < ns.len() && 0 <= k < ns[b].len() && last_timestamp_or_zero(ns[b][k]) == d;
        if !(b1 == bb && c1 == ns[bb].len() - 1) {
            assert(ns[b1][c1] == cs[b1][c1]);
        }
    }
}

/// `d` is the latest last timestamp over all curves, and 0 if none is later.
pub open spec fn duration_of(curves: Seq<Seq<VariableCurve>>, d: int) -> bool {
    &&& d >= 0
    &&& forall|b: int, c: int|
        0 <= b < curves.len() && 0 <= c < curves[b].len() ==> last_timestamp_or_zero(curves[b][c]) <= d
    &&& (d == 0 || exists|b: int, c: int|
        0 <= b < curves.len() && 0 <= c < curves[b].len() && last_timestamp_or_zero(curves[b][c]) == d)
}

} // verus!

//! A scene hierarchy: named nodes with parent links, ordered children and the
//! state that animations write; finding a node by path, and checking that no
//! ancestor of a player hosts another player.
use vstd::prelude::*;
use crate::clip::{names_view, EntityPath, Quat, Vec3};

verus! {

/// Position, rotation and scale of a node, in fixed point.
#[derive(Clone, Copy, Debug, PartialEq, Eq, Structural)]
pub struct Transform {
    pub translation: Vec3,
    pub rotation: Quat,
    pub scale: Vec3,
}

/// One node of the hierarchy. A node is named by its index in the scene.
#[derive(Clone, Debug)]
pub struct Node {
    pub name: Option<String>,
    pub parent: Option<usize>,
    pub children: Vec<usize>,
    /// Whether an animation player is attached to this node.
    pub has_player: bool,
    pub transform: Option<Transform>,
    pub morph_weights: Option<Vec<i32>>,
}

/// The nodes of a scene.
#[derive(Clone, Debug)]
pub struct Scene {
    pub nodes: Vec<Node>,
}

/// The name of node `n`, if it exists and has one.
pub open spec fn name_of(s: &Scene, n: int) -> Option<Seq<char>> {
    if 0 <= n < s.nodes@.len() {
        match s.nodes@[n].name {
            Some(name) => Some(name@),
            None => None,
        }
    } else {
        None
    }
}

/// The children of node `n`, in order; none for a node that does not exist.
pub open spec fn children_of(s: &Scene, n: int) -> Seq<usize> {
    if 0 <= n < s.nodes@.len() {
        s.nodes@[n].children@
    } else {
        Seq::empty()
    }
}

/// The first of `kids` whose name is `name`.
pub open spec fn first_named(s: &Scene, kids: Seq<usize>, name: Seq<char>) -> Option<usize>
    decreases kids.len(),
{
    if kids.len() == 0 {
        None
    } else if name_of(s, kids[0] as int) == Some(name) {
        Some(kids[0])
    } else {
        first_named(s, kids.drop_first(), name)
    }
}

/// Whether `c` still stands where it was found: a child of `cur` named `name`.
pub open spec fn cache_hit(s: &Scene, cur: usize, name: Seq<char>, cached: Option<usize>) -> bool {
    match cached {
        Some(c) => children_of(s, cur as int).contains(c) && name_of(s, c as int) == Some(name),
        None => false,
    }
}

/// The child of `cur` named `name`: the cached one while it still stands, else the first.
pub open spec fn pick(s: &Scene, cur: usize, name: Seq<char>, cached: Option<usize>) -> Option<usize> {
    if cache_hit(s, cur, name, cached) {
        cached
    } else {
        first_named(s, children_of(s, cur as int), name)
    }
}

/// Resolution of `parts[i..]` below `cur`: the node found (or none), and the cache
/// with each depth that was found refreshed.
pub open spec fn resolve_from(
    s: &Scene,
    cur: usize,
    parts: Seq<Seq<char>>,
    cache: Seq<Option<usize>>,
    i: int,
) -> (Option<usize>, Seq<Option<usize>>)
    decreases parts.len() - i,
{
    if i >= parts.len() || i < 0 {
        (Some(cur), cache)
    } else {
        match pick(s, cur, parts[i], cache[i]) {
            None => (None, cache),
            Some(n) => resolve_from(s, n, parts, cache.update(i, Some(n)), i + 1),
        }
    }
}

/// The depth at which resolving `parts[i..]` below `cur` finds no child of the
/// needed name (meaningful where the resolution fails).
pub open spec fn fail_depth(
    s: &Scene,
    cur: usize,
    parts: Seq<Seq<char>>,
    cache: Seq<Option<usize>>,
    i: int,
) -> int
    decreases parts.len() - i,
{
    if i >= parts.len() || i < 0 {
        i
    } else {
        match pick(s, cur, parts[i], cache[i]) {
            None => i,
            Some(n) => fail_depth(s, n, parts, cache.update(i, Some(n)), i + 1),
        }
    }
}

/// What went wrong in a frame, reported to the caller rather than stopping the pass.
#[derive(Clone, Copy, Debug, PartialEq, Eq, Structural)]
pub enum Diagnostic {
    /// A path below player `root` names no node: no child at `depth` has the name.
    EntityNotFound { root: usize, depth: usize },
    /// An ancestor of the player at `root` hosts another player, so it was not run.
    ConflictingPlayer { root: usize },
}

/// The reports after resolving `parts` below `root`: one more where it fails.
pub open spec fn path_reports(
    s: &Scene,
    root: usize,
    parts: Seq<Seq<char>>,
    cache: Seq<Option<usize>>,
    d0: Seq<Diagnostic>,
) -> Seq<Diagnostic> {
    let c = sized(cache, parts.len() as int);
    if resolve_from(s, root, parts, c, 1).0 is None {
        d0.push(Diagnostic::EntityNotFound { root, depth: fail_depth(s, root, parts, c, 1) as usize })
    } else {
        d0
    }
}

/// Whether every step of resolving `parts[i..]` below `cur` is a cache hit.
pub open spec fn all_hits(
    s: &Scene,
    cur: usize,
    parts: Seq<Seq<char>>,
    cache: Seq<Option<usize>>,
    i: int,
) -> bool
    decreases parts.len() - i,
{
    if i >= parts.len() || i < 0 {
        true
    } else {
        cache_hit(s, cur, parts[i], cache[i]) && all_hits(s, cache[i].unwrap(), parts, cache, i + 1)
    }
}

/// A cache cut or filled with empty slots to `len` entries.
pub open spec fn sized(cache: Seq<Option<usize>>, len: int) -> Seq<Option<usize>> {
    if len <= cache.len() {
        cache.take(len)
    } else {
        cache + Seq::new((len - cache.len()) as nat, |i: int| None::<usize>)
    }
}

/// The node `k` steps up from `start` (`start` itself at 0), while the chain lasts.
pub open spec fn ancestor(s: &Scene, start: int, k: nat) -> Option<int>
    decreases k,
{
    if k == 0 {
        if 0 <= start < s.nodes@.len() {
            Some(start)
        } else {
            None
        }
    } else {
        match ancestor(s, start, (k - 1) as nat) {
            None => None,
            Some(n) => match s.nodes@[n].parent {
                Some(p) => if p < s.nodes@.len() {
                    Some(p as int)
                } else {
                    None
                },
                None => None,
            },
        }
    }
}

/// No node on the chain up from `start` hosts a player.
pub open spec fn no_player_above(s: &Scene, start: int) -> bool {
    forall|k: nat| #[trigger] ancestor(s, start, k) is Some ==> !s.nodes@[ancestor(s, start, k).unwrap()].has_player
}

impl Scene {
    /// The parent links have no cycle: every chain up ends within as many steps as there are nodes.
    pub open spec fn wf(&self) -> bool {
        forall|n: int| 0 <= n < self.nodes@.len() ==> #[trigger] ancestor(self, n, self.nodes@.len() as nat) is None
    }
}

proof fn lemma_chain_ended(s: &Scene, start: int, j: nat, k: nat)
    requires
        ancestor(s, start, j) is None,
        j <= k,
    ensures
        ancestor(s, start, k) is None,
    decreases k - j,
{
    if j < k {
        lemma_chain_ended(s, start, j, (k - 1) as nat);
    }
}

/// The first child of `cur` named `name`, found by a scan of its children.
fn scan_children(s: &Scene, cur: usize, name: &String) -> (r: Option<usize>)
    ensures
        r == first_named(s, children_of(s, cur as int), name@),
{
    if cur >= s.nodes.len() {
        return None;
    }
    let kids = &s.nodes[cur].children;
    let mut i: usize = 0;
    assert(kids@.skip(0) =~= kids@);
    while i < kids.len()
        invariant
            0 <= i <= kids@.len(),
            kids@ == children_of(s, cur as int),
            first_named(s, kids@, name@) == first_named(s, kids@.skip(i as int), name@),
        decreases kids.len() - i,
    {
        let c = kids[i];
        assert(kids@.skip(i as int)[0] == c);
        assert(kids@.skip(i as int).drop_first() =~= kids@.skip(i as int + 1));
        if c < s.nodes.len() {
            match &s.nodes[c].name {
                Some(n) => {
                    if *n == *name {
                        return Some(c);
                    }
                },
                None => {},
            }
        }
        i = i + 1;
    }
    assert(kids@.skip(i as int) =~= Seq::<usize>::empty());
    None
}

/// Whether `c` is a child of `cur` named `name`.
fn check_cached(s: &Scene, cur: usize, name: &String, cached: Option<usize>) -> (r: bool)
    ensures
        r == cache_hit(s, cur, name@, cached),
{
    let c = match cached {
        Some(c) => c,
        None => return false,
    };
    if cur >= s.nodes.len() || c >= s.nodes.len() {
        return false;
    }
    let kids = &s.nodes[cur].children;
    let mut i: usize = 0;
    let mut found = false;
    while i < kids.len()
        invariant
            0 <= i <= kids@.len(),
            kids@ == children_of(s, cur as int),
            found == kids@.take(i as int).contains(c),
        decreases kids.len() - i,
    {
        assert(kids@.take(i as int + 1) =~= kids@.take(i as int).push(kids@[i as int]));
        if kids[i] == c {
            found = true;
        }
        proof {
            let t = kids@.take(i as int + 1);
            let t0 = kids@.take(i as int);
            if t0.contains(c) {
                let j = choose|j: int| 0 <= j < t0.len() && t0[j] == c;
                assert(t[j] == c);
            }
            if kids@[i as int] == c {
                assert(t[i as int] == c);
            }
            if t.contains(c) {
                let j = choose|j: int| 0 <= j < t.len() && t[j] == c;
                if j < i {
                    assert(t0[j] == c);
                }
            }
        }
        i = i + 1;
    }
    assert(kids@.take(i as int) =~= kids@);
    if !found {
        return false;
    }
    match &s.nodes[c].name {
        Some(n) => *n == *name,
        None => false,
    }
}

/// Finds the node at `parts` below `root` (whose own name, `parts[0]`, is not
/// checked), trying at each depth the node found there last time before a scan
/// of the children, and refreshing the cache with what it finds.
pub fn entity_from_path(
    root: usize,
    path: &EntityPath,
    s: &Scene,
    path_cache: &mut Vec<Option<usize>>,
    diagnostics: &mut Vec<Diagnostic>,
) -> (r: Option<usize>)
    ensures
        ({
            let res = resolve_from(s, root, path@, sized(old(path_cache)@, path@.len() as int), 1);
            r == res.0 && final(path_cache)@ == res.1
        }),
        final(diagnostics)@ == path_reports(s, root, path@, old(path_cache)@, old(diagnostics)@),
{
    let parts = &path.parts;
    let ghost ps = path@;
    let ghost target_len = parts@.len() as int;
    let ghost start = sized(old(path_cache)@, target_len);
    path_cache.truncate(parts.len());
    while path_cache.len() < parts.len()
        invariant
            path_cache@.len() <= parts@.len(),
            path_cache@ == sized(old(path_cache)@, target_len).take(path_cache@.len() as int),
            target_len == parts@.len(),
            old(path_cache)@.len() >= target_len ==> path_cache@.len() == target_len,
            old(path_cache)@.len() < target_len ==> path_cache@.len() >= old(path_cache)@.len(),
        decreases parts.len() - path_cache.len(),
    {
        let ghost before = path_cache@;
        path_cache.push(None);
        proof {
            let full = sized(old(path_cache)@, target_len);
            assert(full[before.len() as int] == None::<usize>);
            assert(full.take(path_cache@.len() as int) =~= before.push(None));
        }
    }
    assert(path_cache@ =~= start);
    if parts.len() <= 1 {
        return Some(root);
    }
    let mut current = root;
    let mut idx: usize = 1;
    while idx < parts.len()
        invariant
            1 <= idx <= parts@.len(),
            ps.len() == parts@.len(),
            path_cache@.len() == parts@.len(),
            ps == path@,
            ps == names_view(parts@),
            start == sized(old(path_cache)@, parts@.len() as int),
            resolve_from(s, current, ps, path_cache@, idx as int) == resolve_from(s, root, ps, start, 1),
            fail_depth(s, current, ps, path_cache@, idx as int) == fail_depth(s, root, ps, start, 1),
            diagnostics@ == old(diagnostics)@,
        decreases parts.len() - idx,
    {
        let part = &parts[idx];
        assert(ps[idx as int] == part@);
        let cached = path_cache[idx];
        let next = if check_cached(s, current, part, cached) {
            cached
        } else {
            scan_children(s, current, part)
        };
        assert(next == pick(s, current, ps[idx as int], path_cache@[idx as int]));
        match next {
            None => {
                assert(resolve_from(s, current, ps, path_cache@, idx as int) == (None::<usize>, path_cache@));
                assert(fail_depth(s, current, ps, path_cache@, idx as int) == idx);
                diagnostics.push(Diagnostic::EntityNotFound { root, depth: idx });
                return None;
            },
            Some(n) => {
                path_cache.set(idx, Some(n));
                current = n;
            },
        }
        idx = idx + 1;
    }
    Some(current)
}

proof fn lemma_first_named(s: &Scene, kids: Seq<usize>, name: Seq<char>)
    ensures
        first_named(s, kids, name) matches Some(c) ==> kids.contains(c) && name_of(s, c as int) == Some(name),
    decreases kids.len(),
{
    if kids.len() > 0 && name_of(s, kids[0] as int) != Some(name) {
        lemma_first_named(s, kids.drop_first(), name);
        if let Some(c) = first_named(s, kids, name) {
            let j = choose|j: int| 0 <= j < kids.drop_first().len() && kids.drop_first()[j] == c;
            assert(kids[j + 1] == c);
        }
    } else if kids.len() > 0 {
        assert(kids[0] == kids[0]);
    }
}

proof fn lemma_resolve_frame(s: &Scene, cur: usize, ps: Seq<Seq<char>>, cache: Seq<Option<usize>>, i: int)
    requires
        cache.len() == ps.len(),
        0 <= i,
    ensures
        resolve_from(s, cur, ps, cache, i).1.len() == cache.len(),
        forall|j: int| 0 <= j < i && j < cache.len() ==> resolve_from(s, cur, ps, cache, i).1[j] == cache[j],
    decreases ps.len() - i,
{
    if i < ps.len() {
        if let Some(n) = pick(s, cur, ps[i], cache[i]) {
            let c1 = cache.update(i, Some(n));
            lemma_resolve_frame(s, n, ps, c1, i + 1);
            assert forall|j: int| 0 <= j < i && j < cache.len() implies resolve_from(s, cur, ps, cache, i).1[j]
                == cache[j] by {
                assert(resolve_from(s, n, ps, c1, i + 1).1[j] == c1[j]);
            }
        }
    }
}

proof fn lemma_resolve_stable(s: &Scene, cur: usize, ps: Seq<Seq<char>>, cache: Seq<Option<usize>>, i: int)
    requires
        cache.len() == ps.len(),
        0 <= i,
        resolve_from(s, cur, ps, cache, i).0 is Some,
    ensures
        resolve_from(s, cur, ps, resolve_from(s, cur, ps, cache, i).1, i) == resolve_from(s, cur, ps, cache, i),
        all_hits(s, cur, ps, resolve_from(s, cur, ps, cache, i).1, i),
    decreases ps.len() - i,
{
    if i < ps.len() {
        let m = pick(s, cur, ps[i], cache[i]).unwrap();
        let c1 = cache.update(i, Some(m));
        let res = resolve_from(s, m, ps, c1, i + 1);
        lemma_resolve_stable(s, m, ps, c1, i + 1);
        lemma_resolve_frame(s, m, ps, c1, i + 1);
        lemma_first_named(s, children_of(s, cur as int), ps[i]);
        assert(res.1[i] == c1[i]);
        assert(res.1[i] == Some(m));
        assert(cache_hit(s, cur, ps[i], Some(m)));
        assert(res.1.update(i, Some(m)) =~= res.1);
    }
}

/// Resolving a path that was found, again in the same hierarchy with the cache
/// that the first resolution left, finds the same node, leaves the cache as it
/// is, and takes every step from the cache without a scan of children.
pub proof fn lemma_cached_resolution(s: &Scene, root: usize, parts: Seq<Seq<char>>, cache: Seq<Option<usize>>)
    requires
        resolve_from(s, root, parts, sized(cache, parts.len() as int), 1).0 is Some,
    ensures
        ({
            let first = resolve_from(s, root, parts, sized(cache, parts.len() as int), 1);
            &&& resolve_from(s, root, parts, sized(first.1, parts.len() as int), 1) == first
            &&& all_hits(s, root, parts, sized(first.1, parts.len() as int), 1)
        }),
{
    let c0 = sized(cache, parts.len() as int);
    assert(c0.len() == parts.len());
    lemma_resolve_frame(s, root, parts, c0, 1);
    lemma_resolve_stable(s, root, parts, c0, 1);
    let first = resolve_from(s, root, parts, c0, 1);
    assert(sized(first.1, parts.len() as int) =~= first.1);
}

/// Where the node cached at a depth no longer stands (it was moved away or
/// renamed), resolution falls back to a scan: it takes the first child of the
/// current node with the needed name, if there is one.
pub proof fn lemma_stale_cache_falls_back(s: &Scene, cur: usize, name: Seq<char>, cached: Option<usize>)
    requires
        !cache_hit(s, cur, name, cached),
    ensures
        pick(s, cur, name, cached) == first_named(s, children_of(s, cur as int), name),
        pick(s, cur, name, cached) matches Some(c) ==> children_of(s, cur as int).contains(c)
            && name_of(s, c as int) == Some(name),
{
    lemma_first_named(s, children_of(s, cur as int), name);
}

/// Whether no ancestor of a player, from its parent up, hosts a player: only then
/// can the player write to the nodes below it without another player writing there.
pub fn verify_no_ancestor_player(player_parent: Option<usize>, s: &Scene) -> (r: bool)
    requires
        s.wf(),
    ensures
        r == match player_parent {
            None => true,
            Some(p) => no_player_above(s, p as int),
        },
{
    let start = match player_parent {
        None => return true,
        Some(p) => p,
    };
    let ghost len = s.nodes@.len() as nat;
    if start >= s.nodes.len() {
        proof {
            assert forall|k: nat| #[trigger] ancestor(s, start as int, k) is Some implies
                !s.nodes@[ancestor(s, start as int, k).unwrap()].has_player by {
                lemma_chain_ended(s, start as int, 0, k);
            }
        }
        return true;
    }
    let mut current = start;
    let ghost mut k: nat = 0;
    loop
        invariant
            s.wf(),
            len == s.nodes@.len(),
            current < s.nodes@.len(),
            start < s.nodes@.len(),
            player_parent == Some(start),
            ancestor(s, start as int, k) == Some(current as int),
            forall|j: nat| j < k ==> (#[trigger] ancestor(s, start as int, j) is Some
                ==> !s.nodes@[ancestor(s, start as int, j).unwrap()].has_player),
        decreases len - k,
    {
        proof {
            assert(ancestor(s, start as int, s.nodes@.len() as nat) is None);
            if k >= len {
                lemma_chain_ended(s, start as int, len, k);
            }
        }
        if s.nodes[current].has_player {
            assert(!no_player_above(s, start as int)) by {
                assert(ancestor(s, start as int, k) is Some);
            }
            return false;
        }
        match s.nodes[current].parent {
            Some(p) => {
                if p >= s.nodes.len() {
                    assert(ancestor(s, start as int, k + 1) is None);
                    proof {
                        assert forall|j: nat| #[trigger] ancestor(s, start as int, j) is Some implies
                            !s.nodes@[ancestor(s, start as int, j).unwrap()].has_player by {
                            if j > k {
                                lemma_chain_ended(s, start as int, k + 1, j);
                            }
                        }
                    }
                    return true;
                }
                current = p;
                proof {
                    k = k + 1;
                }
            },
            None => {
                assert(ancestor(s, start as int, k + 1) is None);
                proof {
                    assert forall|j: nat| #[trigger] ancestor(s, start as int, j) is Some implies
                        !s.nodes@[ancestor(s, start as int, j).unwrap()].has_player by {
                        if j > k {
                            lemma_chain_ended(s, start as int, k + 1, j);
                        }
                    }
                }
                return true;
            },
        }
    }
}

} // verus!

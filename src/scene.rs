//! The scene graph: an arena of nodes addressed by index, the world transform
//! of a node under a map of local-transform overrides, and skinning matrices.
use std::collections::HashMap;
use vstd::prelude::*;

use crate::keyframe::Channel;
use crate::math::{mat_mul, mat_product};
use crate::player::{posed, PlayState, Player};

verus! {

broadcast use vstd::std_specs::hash::group_hash_axioms;

/// One node of the hierarchy.
pub struct Node {
    /// Bind-pose local transform.
    pub local: glam::Mat4,
    /// Indices of the children, in declared order.
    pub children: Vec<usize>,
    /// The mesh this node carries, if any.
    pub mesh: Option<usize>,
    /// The skin this node carries, if any.
    pub skin: Option<usize>,
}

/// The joints of a skeleton and, in the same order, their inverse bind matrices.
pub struct Skin {
    pub joints: Vec<usize>,
    pub inverse_bind: Vec<glam::Mat4>,
}

/// Why a scene description was rejected.
#[derive(Debug, Clone, Copy, PartialEq, Eq)]
pub enum LoadError {
    /// The root index names no node.
    RootOutOfRange,
    /// A child index names no node.
    ChildOutOfRange,
    /// The root is listed as somebody's child.
    RootIsChild,
    /// A node is listed as the child of two nodes, or twice by one node.
    SharedChild,
    /// A skin index names no skin.
    SkinOutOfRange,
    /// A joint index names no node.
    JointOutOfRange,
    /// A skin has not exactly one inverse bind matrix per joint.
    SkinLengthMismatch,
    /// A channel targets no node.
    TargetOutOfRange,
    /// A channel has no keyframes.
    EmptyKeyframes,
    /// A channel has not exactly one value per keyframe time.
    KeyframeLengthMismatch,
}

/// The effective local transform of `id`: its override if there is one, else
/// its bind-pose transform.
pub open spec fn local_of(nodes: Seq<Node>, ov: Map<usize, glam::Mat4>, id: usize) -> glam::Mat4 {
    if ov.contains_key(id) {
        ov[id]
    } else {
        nodes[id as int].local
    }
}

/// The product, in root-to-leaf order, of the effective local transforms of
/// the nodes along `path`.
pub open spec fn chain(nodes: Seq<Node>, ov: Map<usize, glam::Mat4>, path: Seq<usize>) -> glam::Mat4
    decreases path.len(),
{
    if path.len() <= 1 {
        local_of(nodes, ov, path[0])
    } else {
        mat_product(chain(nodes, ov, path.drop_last()), local_of(nodes, ov, path.last()))
    }
}

/// `c` is listed among the children of node `p`.
pub open spec fn is_child(nodes: Seq<Node>, p: int, c: usize) -> bool {
    0 <= p < nodes.len() && nodes[p].children@.contains(c)
}

/// Node indices in range, the root nobody's child, and every node the child
/// of at most one node, listed at most once: what is reachable from the root
/// is then a tree.
pub open spec fn tree_wf(nodes: Seq<Node>, root: usize) -> bool {
    &&& root < nodes.len()
    &&& forall|p: int, k: int|
        0 <= p < nodes.len() && 0 <= k < nodes[p].children@.len() ==> #[trigger] nodes[p].children@[k]
            < nodes.len()
    &&& forall|p: int| 0 <= p < nodes.len() ==> !(#[trigger] nodes[p].children@).contains(root)
    &&& forall|p1: int, p2: int, c: usize|
        #[trigger] is_child(nodes, p1, c) && #[trigger] is_child(nodes, p2, c) ==> p1 == p2
    &&& forall|p: int, i: int, j: int|
        0 <= p < nodes.len() && 0 <= i < j < nodes[p].children@.len() ==> #[trigger] nodes[p].children@[i]
            != #[trigger] nodes[p].children@[j]
}

/// `path` leads from `root` down to `target`, each step from a node to one
/// of its children.
pub open spec fn is_root_path(nodes: Seq<Node>, root: usize, path: Seq<usize>, target: usize) -> bool {
    &&& path.len() >= 1
    &&& path[0] == root
    &&& path.last() == target
    &&& forall|k: int| 0 <= k < path.len() - 1 ==> #[trigger] is_child(nodes, path[k] as int, path[k + 1])
}

/// Some path leads from `root` down to `target`.
pub open spec fn reachable(nodes: Seq<Node>, root: usize, target: usize) -> bool {
    exists|p: Seq<usize>| is_root_path(nodes, root, p, target)
}

/// The world transform of `target`: the chain product along its path from the
/// root, or its effective local transform alone when no path leads to it.
pub open spec fn global(nodes: Seq<Node>, root: usize, ov: Map<usize, glam::Mat4>, target: usize) -> glam::Mat4 {
    if reachable(nodes, root, target) {
        chain(nodes, ov, choose|p: Seq<usize>| is_root_path(nodes, root, p, target))
    } else {
        local_of(nodes, ov, target)
    }
}

/// Walking up from the ends of two root paths meets the same nodes.
proof fn lemma_paths_match_from_end(
    nodes: Seq<Node>,
    root: usize,
    p: Seq<usize>,
    q: Seq<usize>,
    target: usize,
    k: int,
)
    requires
        tree_wf(nodes, root),
        is_root_path(nodes, root, p, target),
        is_root_path(nodes, root, q, target),
        0 <= k < p.len(),
        k < q.len(),
    ensures
        p[p.len() - 1 - k] == q[q.len() - 1 - k],
    decreases k,
{
    if k > 0 {
        lemma_paths_match_from_end(nodes, root, p, q, target, k - 1);
        let i = p.len() - 1 - k;
        let j = q.len() - 1 - k;
        assert(is_child(nodes, p[i] as int, p[i + 1]));
        assert(is_child(nodes, q[j] as int, q[j + 1]));
    }
}

/// In a well-formed tree at most one path leads from the root to a node.
pub proof fn lemma_root_path_unique(
    nodes: Seq<Node>,
    root: usize,
    p: Seq<usize>,
    q: Seq<usize>,
    target: usize,
)
    requires
        tree_wf(nodes, root),
        is_root_path(nodes, root, p, target),
        is_root_path(nodes, root, q, target),
    ensures
        p == q,
{
    if p.len() < q.len() {
        let k = p.len() - 1;
        lemma_paths_match_from_end(nodes, root, p, q, target, k);
        let j = q.len() - 1 - k;
        let l = j - 1;
        assert(is_child(nodes, q[l] as int, q[l + 1]));
        assert(nodes[q[l] as int].children@.contains(root));
    } else if q.len() < p.len() {
        let k = q.len() - 1;
        lemma_paths_match_from_end(nodes, root, p, q, target, k);
        let j = p.len() - 1 - k;
        let l = j - 1;
        assert(is_child(nodes, p[l] as int, p[l + 1]));
        assert(nodes[p[l] as int].children@.contains(root));
    } else {
        assert forall|i: int| 0 <= i < p.len() implies p[i] == q[i] by {
            lemma_paths_match_from_end(nodes, root, p, q, target, p.len() - 1 - i);
        }
        assert(p =~= q);
    }
}

/// A root path never visits a node twice.
proof fn lemma_root_path_no_repeat(
    nodes: Seq<Node>,
    root: usize,
    q: Seq<usize>,
    target: usize,
    i: int,
    j: int,
)
    requires
        tree_wf(nodes, root),
        is_root_path(nodes, root, q, target),
        0 <= i < j < q.len(),
    ensures
        q[i] != q[j],
    decreases i,
{
    let m = j - 1;
    assert(is_child(nodes, q[m] as int, q[m + 1]));
    if i == 0 {
        if q[i] == q[j] {
            assert(nodes[q[j - 1] as int].children@.contains(root));
        }
    } else {
        lemma_root_path_no_repeat(nodes, root, q, target, i - 1, j - 1);
        let l = i - 1;
        assert(is_child(nodes, q[l] as int, q[l + 1]));
    }
}

/// A sequence of distinct values below `n` has at most `n` elements.
proof fn lemma_distinct_bound(s: Seq<usize>, n: int)
    requires
        0 <= n,
        forall|i: int, j: int| 0 <= i < j < s.len() ==> s[i] != s[j],
        forall|i: int| 0 <= i < s.len() ==> s[i] < n,
    ensures
        s.len() <= n,
    decreases n,
{
    if n == 0 {
        if s.len() > 0 {
            assert(s[0] < 0);
        }
    } else if exists|j: int| 0 <= j < s.len() && s[j] == n - 1 {
        let j = choose|j: int| 0 <= j < s.len() && s[j] == n - 1;
        let t = s.remove(j);
        assert forall|i: int| 0 <= i < t.len() implies t[i] < n - 1 by {
            if i < j {
                assert(t[i] == s[i]);
            } else {
                assert(t[i] == s[i + 1]);
            }
        }
        assert forall|a: int, b: int| 0 <= a < b < t.len() implies t[a] != t[b] by {
            let a2 = if a < j { a } else { a + 1 };
            let b2 = if b < j { b } else { b + 1 };
            assert(t[a] == s[a2]);
            assert(t[b] == s[b2]);
        }
        lemma_distinct_bound(t, n - 1);
    } else {
        lemma_distinct_bound(s, n - 1);
    }
}

/// A root path is no longer than the number of nodes.
proof fn lemma_root_path_len(nodes: Seq<Node>, root: usize, q: Seq<usize>, target: usize)
    requires
        tree_wf(nodes, root),
        is_root_path(nodes, root, q, target),
        target < nodes.len(),
    ensures
        q.len() <= nodes.len(),
{
    assert forall|i: int, j: int| 0 <= i < j < q.len() implies q[i] != q[j] by {
        lemma_root_path_no_repeat(nodes, root, q, target, i, j);
    }
    lemma_root_path_in_range(nodes, root, q, target);
    lemma_distinct_bound(q, nodes.len() as int);
}

/// Every node on a root path exists.
proof fn lemma_root_path_in_range(nodes: Seq<Node>, root: usize, q: Seq<usize>, target: usize)
    requires
        tree_wf(nodes, root),
        is_root_path(nodes, root, q, target),
    ensures
        forall|i: int| 0 <= i < q.len() ==> q[i] < nodes.len(),
{
    assert forall|i: int| 0 <= i < q.len() implies q[i] < nodes.len() by {
        if i > 0 {
            let l = i - 1;
            assert(is_child(nodes, q[l] as int, q[l + 1]));
            let p = q[l] as int;
            let k = nodes[p].children@.index_of(q[i]);
            assert(nodes[p].children@[k] < nodes.len());
        }
    }
}

/// A walk up from `target` (each element the parent of the one before it)
/// meets the nodes of any root path to `target`, from its end.
proof fn lemma_walk_follows_path(
    nodes: Seq<Node>,
    root: usize,
    q: Seq<usize>,
    walk: Seq<usize>,
    target: usize,
    k: int,
)
    requires
        tree_wf(nodes, root),
        is_root_path(nodes, root, q, target),
        walk.len() >= 1,
        walk[0] == target,
        forall|i: int| 0 <= i < walk.len() - 1 ==> #[trigger] is_child(nodes, walk[i + 1] as int, walk[i]),
        0 <= k < walk.len(),
        k < q.len(),
    ensures
        walk[k] == q[q.len() - 1 - k],
    decreases k,
{
    if k > 0 {
        lemma_walk_follows_path(nodes, root, q, walk, target, k - 1);
        let j = q.len() - 1 - k;
        assert(is_child(nodes, q[j] as int, q[j + 1]));
        let l = k - 1;
        assert(is_child(nodes, walk[l + 1] as int, walk[l]));
    }
}

/// Skin indices in range, joint indices in range, and one inverse bind matrix
/// per joint.
pub open spec fn skins_wf(nodes: Seq<Node>, skins: Seq<Skin>) -> bool {
    &&& forall|i: int|
        0 <= i < nodes.len() && (#[trigger] nodes[i].skin) is Some ==> nodes[i].skin->0 < skins.len()
    &&& forall|s: int|
        0 <= s < skins.len() ==> (#[trigger] skins[s].joints@).len() == skins[s].inverse_bind@.len()
    &&& forall|s: int, k: int|
        0 <= s < skins.len() && 0 <= k < skins[s].joints@.len() ==> #[trigger] skins[s].joints@[k]
            < nodes.len()
}

/// Every channel targets an existing node.
pub open spec fn channels_wf(nodes: Seq<Node>, channels: Seq<Channel>) -> bool {
    forall|c: int| 0 <= c < channels.len() ==> (#[trigger] channels[c].target()) < nodes.len()
}

/// A model's static data: the node arena with its root, the skins, and the
/// channels of every animation clip.
pub struct Model {
    nodes: Vec<Node>,
    root: usize,
    skins: Vec<Skin>,
    channels: Vec<Channel>,
}

impl Model {
    pub closed spec fn nodes(&self) -> Seq<Node> {
        self.nodes@
    }

    pub closed spec fn root(&self) -> usize {
        self.root
    }

    pub closed spec fn skins(&self) -> Seq<Skin> {
        self.skins@
    }

    pub closed spec fn channels(&self) -> Seq<Channel> {
        self.channels@
    }

    pub open spec fn wf(&self) -> bool {
        &&& tree_wf(self.nodes(), self.root())
        &&& skins_wf(self.nodes(), self.skins())
        &&& channels_wf(self.nodes(), self.channels())
    }

    /// The world transform of `target` under the overrides `ov`.
    pub open spec fn global_spec(&self, ov: Map<usize, glam::Mat4>, target: usize) -> glam::Mat4 {
        global(self.nodes(), self.root(), ov, target)
    }

    /// The joint matrices of `node` under `ov`: `None` without a skin, else
    /// for each joint its world transform times its inverse bind matrix.
    pub open spec fn joints_spec(&self, ov: Map<usize, glam::Mat4>, node: usize) -> Option<
        Seq<glam::Mat4>,
    > {
        match self.nodes()[node as int].skin {
            None => None,
            Some(s) => {
                let skin = self.skins()[s as int];
                Some(
                    Seq::new(
                        skin.joints@.len(),
                        |i: int|
                            mat_product(
                                self.global_spec(ov, skin.joints@[i]),
                                skin.inverse_bind@[i],
                            ),
                    ),
                )
            },
        }
    }

    /// Builds a model after checking that the node indices form a tree under
    /// `root`, that every skin is consistent and that every channel targets
    /// a node.
    pub fn new(nodes: Vec<Node>, root: usize, skins: Vec<Skin>, channels: Vec<Channel>) -> (r:
        Result<Model, LoadError>)
        ensures
            r is Ok <==> tree_wf(nodes@, root) && skins_wf(nodes@, skins@) && channels_wf(
                nodes@,
                channels@,
            ),
            r matches Ok(m) ==> {
                &&& m.nodes() == nodes@
                &&& m.root() == root
                &&& m.skins() == skins@
                &&& m.channels() == channels@
            },
            r == Err::<Model, LoadError>(LoadError::RootOutOfRange) <==> root >= nodes@.len(),
            r == Err::<Model, LoadError>(LoadError::ChildOutOfRange) ==> exists|p: int, k: int|
                0 <= p < nodes@.len() && 0 <= k < nodes@[p].children@.len()
                    && nodes@[p].children@[k] >= nodes@.len(),
            r == Err::<Model, LoadError>(LoadError::RootIsChild) ==> exists|p: int|
                0 <= p < nodes@.len() && nodes@[p].children@.contains(root),
            r == Err::<Model, LoadError>(LoadError::SharedChild) ==> (exists|p1: int, p2: int, c: usize|
                p1 != p2 && is_child(nodes@, p1, c) && is_child(nodes@, p2, c)) || (exists|
                p: int,
                i: int,
                j: int,
            |
                0 <= p < nodes@.len() && 0 <= i < j < nodes@[p].children@.len()
                    && nodes@[p].children@[i] == nodes@[p].children@[j]),
            r == Err::<Model, LoadError>(LoadError::SkinLengthMismatch) ==> exists|s: int|
                0 <= s < skins@.len() && skins@[s].joints@.len() != skins@[s].inverse_bind@.len(),
            r == Err::<Model, LoadError>(LoadError::JointOutOfRange) ==> exists|s: int, k: int|
                0 <= s < skins@.len() && 0 <= k < skins@[s].joints@.len() && skins@[s].joints@[k]
                    >= nodes@.len(),
            r == Err::<Model, LoadError>(LoadError::SkinOutOfRange) ==> exists|i: int|
                0 <= i < nodes@.len() && nodes@[i].skin is Some && nodes@[i].skin->0 >= skins@.len(),
            r == Err::<Model, LoadError>(LoadError::TargetOutOfRange) ==> exists|c: int|
                0 <= c < channels@.len() && channels@[c].target() >= nodes@.len(),
    {
        let n = nodes.len();
        if root >= n {
            return Err(LoadError::RootOutOfRange);
        }
        let mut owner: Vec<Option<usize>> = Vec::new();
        let mut i: usize = 0;
        while i < n
            invariant
                i <= n,
                owner@.len() == i,
                forall|c: int| 0 <= c < i ==> owner@[c] is None,
            decreases n - i,
        {
            owner.push(None);
            i = i + 1;
        }
        let mut p: usize = 0;
        while p < n
            invariant
                n == nodes@.len(),
                root < n,
                p <= n,
                owner@.len() == n,
                forall|q: int, k: int|
                    0 <= q < p && 0 <= k < nodes@[q].children@.len() ==> {
                        let c = #[trigger] nodes@[q].children@[k];
                        c < n && c != root && owner@[c as int] == Some(q as usize)
                    },
                forall|c: int|
                    0 <= c < n && (#[trigger] owner@[c]) is Some ==> {
                        let q = owner@[c]->0;
                        q < p && nodes@[q as int].children@.contains(c as usize)
                    },
                forall|q: int, a: int, b: int|
                    0 <= q < p && 0 <= a < b < nodes@[q].children@.len() ==> #[trigger] nodes@[q].children@[a]
                        != #[trigger] nodes@[q].children@[b],
            decreases n - p,
        {
            let ch = &nodes[p].children;
            let mut k: usize = 0;
            while k < ch.len()
                invariant
                    n == nodes@.len(),
                    root < n,
                    p < n,
                    k <= ch@.len(),
                    ch@ == nodes@[p as int].children@,
                    owner@.len() == n,
                    forall|q: int, j: int|
                        0 <= q < p && 0 <= j < nodes@[q].children@.len() ==> {
                            let c = #[trigger] nodes@[q].children@[j];
                            c < n && c != root && owner@[c as int] == Some(q as usize)
                        },
                    forall|j: int|
                        0 <= j < k ==> {
                            let c = #[trigger] ch@[j];
                            c < n && c != root && owner@[c as int] == Some(p)
                        },
                    forall|c: int|
                        0 <= c < n && (#[trigger] owner@[c]) is Some ==> {
                            let q = owner@[c]->0;
                            (q < p && nodes@[q as int].children@.contains(c as usize)) || (q == p
                                && ch@.subrange(0, k as int).contains(c as usize))
                        },
                    forall|q: int, a: int, b: int|
                        0 <= q < p && 0 <= a < b < nodes@[q].children@.len() ==> #[trigger] nodes@[q].children@[a]
                            != #[trigger] nodes@[q].children@[b],
                    forall|a: int, b: int| 0 <= a < b < k ==> #[trigger] ch@[a] != #[trigger] ch@[b],
                decreases ch@.len() - k,
            {
                let c = ch[k];
                if c >= n {
                    proof {
                        assert(nodes@[p as int].children@[k as int] == c);
                    }
                    return Err(LoadError::ChildOutOfRange);
                }
                if c == root {
                    proof {
                        assert(nodes@[p as int].children@.contains(root));
                    }
                    return Err(LoadError::RootIsChild);
                }
                match owner[c] {
                    Some(q) => {
                        proof {
                            assert(is_child(nodes@, p as int, c));
                            if q < p {
                                assert(is_child(nodes@, q as int, c));
                            } else {
                                let j = ch@.subrange(0, k as int).index_of(c);
                                assert(nodes@[p as int].children@[j] == nodes@[p as int].children@[k as int]);
                            }
                        }
                        return Err(LoadError::SharedChild);
                    },
                    None => {},
                }
                proof {
                    assert forall|a: int| 0 <= a < k implies ch@[a] != c by {
                        assert(owner@[ch@[a] as int] is Some);
                    }
                }
                owner.set(c, Some(p));
                proof {
                    assert forall|cc: int| 0 <= cc < n && (#[trigger] owner@[cc]) is Some implies {
                        let q = owner@[cc]->0;
                        (q < p && nodes@[q as int].children@.contains(cc as usize)) || (q == p
                            && ch@.subrange(0, k + 1).contains(cc as usize))
                    } by {
                        let q = owner@[cc]->0;
                        if cc == c {
                            assert(ch@.subrange(0, k + 1)[k as int] == c);
                        } else if q == p {
                            let j = ch@.subrange(0, k as int).index_of(cc as usize);
                            assert(ch@.subrange(0, k + 1)[j] == cc);
                        }
                    }
                }
                k = k + 1;
            }
            proof {
                assert forall|c: int|
                    0 <= c < n && (#[trigger] owner@[c]) is Some implies {
                        let q = owner@[c]->0;
                        q < p + 1 && nodes@[q as int].children@.contains(c as usize)
                    } by {
                    let q = owner@[c]->0;
                    if q == p {
                        let j = ch@.subrange(0, k as int).index_of(c as usize);
                        assert(ch@[j] == c);
                    }
                }
            }
            p = p + 1;
        }
        proof {
            assert forall|a: int| 0 <= a < n implies !(#[trigger] nodes@[a].children@).contains(root) by {
                if nodes@[a].children@.contains(root) {
                    let j = nodes@[a].children@.index_of(root);
                    assert(nodes@[a].children@[j] != root);
                }
            }
            assert forall|p1: int, p2: int, c: usize|
                #[trigger] is_child(nodes@, p1, c) && #[trigger] is_child(nodes@, p2, c) implies p1 == p2 by {
                let j1 = nodes@[p1].children@.index_of(c);
                let j2 = nodes@[p2].children@.index_of(c);
                assert(nodes@[p1].children@[j1] == c);
                assert(nodes@[p2].children@[j2] == c);
            }
        }
        let mut s: usize = 0;
        while s < skins.len()
            invariant
                tree_wf(nodes@, root),
                n == nodes@.len(),
                s <= skins@.len(),
                forall|t: int|
                    0 <= t < s ==> (#[trigger] skins@[t].joints@).len() == skins@[t].inverse_bind@.len(),
                forall|t: int, k: int|
                    0 <= t < s && 0 <= k < skins@[t].joints@.len() ==> #[trigger] skins@[t].joints@[k] < n,
            decreases skins@.len() - s,
        {
            let joints = &skins[s].joints;
            if joints.len() != skins[s].inverse_bind.len() {
                return Err(LoadError::SkinLengthMismatch);
            }
            let mut k: usize = 0;
            while k < joints.len()
                invariant
                    n == nodes@.len(),
                    root < n,
                    s < skins@.len(),
                    joints@ == skins@[s as int].joints@,
                    k <= joints@.len(),
                    forall|j: int| 0 <= j < k ==> #[trigger] joints@[j] < n,
                decreases joints@.len() - k,
            {
                if joints[k] >= n {
                    return Err(LoadError::JointOutOfRange);
                }
                k = k + 1;
            }
            s = s + 1;
        }
        let mut i: usize = 0;
        while i < n
            invariant
                tree_wf(nodes@, root),
                n == nodes@.len(),
                i <= n,
                forall|j: int|
                    0 <= j < i && (#[trigger] nodes@[j].skin) is Some ==> nodes@[j].skin->0 < skins@.len(),
            decreases n - i,
        {
            match nodes[i].skin {
                Some(sk) => {
                    if sk >= skins.len() {
                        return Err(LoadError::SkinOutOfRange);
                    }
                },
                None => {},
            }
            i = i + 1;
        }
        let mut c: usize = 0;
        while c < channels.len()
            invariant
                tree_wf(nodes@, root),
                skins_wf(nodes@, skins@),
                n == nodes@.len(),
                c <= channels@.len(),
                forall|j: int| 0 <= j < c ==> (#[trigger] channels@[j].target()) < n,
            decreases channels@.len() - c,
        {
            if channels[c].target_node() >= n {
                return Err(LoadError::TargetOutOfRange);
            }
            c = c + 1;
        }
        Ok(Model { nodes, root, skins, channels })
    }

    /// The node that lists `c` among its children, found by scanning every
    /// node's child list.
    fn parent_of(&self, c: usize) -> (r: Option<usize>)
        requires
            self.wf(),
        ensures
            r matches Some(p) ==> is_child(self.nodes(), p as int, c),
            r is None ==> forall|p: int| 0 <= p < self.nodes().len() ==> !is_child(self.nodes(), p, c),
    {
        let mut p: usize = 0;
        while p < self.nodes.len()
            invariant
                p <= self.nodes@.len(),
                forall|q: int| 0 <= q < p ==> !is_child(self.nodes@, q, c),
            decreases self.nodes@.len() - p,
        {
            let ch = &self.nodes[p].children;
            let mut k: usize = 0;
            while k < ch.len()
                invariant
                    p < self.nodes@.len(),
                    ch@ == self.nodes@[p as int].children@,
                    k <= ch@.len(),
                    forall|j: int| 0 <= j < k ==> ch@[j] != c,
                decreases ch@.len() - k,
            {
                if ch[k] == c {
                    proof {
                        assert(ch@[k as int] == c);
                    }
                    return Some(p);
                }
                k = k + 1;
            }
            p = p + 1;
        }
        None
    }

    /// A player of this model's channels.
    pub fn player(&self) -> (r: Player<'_>)
        requires
            self.wf(),
        ensures
            r.wf(),
            r.model_spec() == *self,
            r.time_spec() == 0,
            r.state_spec() == PlayState::Idle,
            forall|a: int, b: int|
                0 <= a < b < r.meshes_spec().len() ==> (#[trigger] r.meshes_spec()[a]).node
                    < (#[trigger] r.meshes_spec()[b]).node,
            forall|k: int|
                0 <= k < r.meshes_spec().len() ==> (self.nodes()[(#[trigger] r.meshes_spec()[k]).node as int].mesh is Some
                    && posed(*self, Map::empty(), r.meshes_spec()[k])),
            forall|i: int|
                0 <= i < self.nodes().len() && (#[trigger] self.nodes()[i]).mesh is Some ==> exists|k: int|
                    0 <= k < r.meshes_spec().len() && r.meshes_spec()[k].node == i,
    {
        Player::new(self)
    }

    /// The number of nodes.
    pub fn node_count(&self) -> (r: usize)
        ensures
            r == self.nodes().len(),
    {
        self.nodes.len()
    }

    /// Whether node `i` carries a mesh.
    pub fn has_mesh(&self, i: usize) -> (r: bool)
        requires
            i < self.nodes().len(),
        ensures
            r == self.nodes()[i as int].mesh is Some,
    {
        self.nodes[i].mesh.is_some()
    }

    /// The channels of every clip, in order.
    pub fn channel_list(&self) -> (r: &Vec<Channel>)
        ensures
            r@ == self.channels(),
    {
        &self.channels
    }

    /// The path of node indices from the root down to `target`, found by
    /// walking up through the parents; `None` when the root is not above it.
    pub fn node_path(&self, target: usize) -> (r: Option<Vec<usize>>)
        requires
            self.wf(),
            target < self.nodes().len(),
        ensures
            r matches Some(p) ==> is_root_path(self.nodes(), self.root(), p@, target),
            r is None ==> !reachable(self.nodes(), self.root(), target),
    {
        let n = self.nodes.len();
        let mut walk: Vec<usize> = Vec::new();
        walk.push(target);
        let mut cur = target;
        let mut steps: usize = 0;
        while cur != self.root
            invariant
                self.wf(),
                n == self.nodes@.len(),
                walk@.len() == steps + 1,
                walk@[0] == target,
                target < n,
                walk@.last() == cur,
                cur < n,
                steps <= n,
                forall|i: int|
                    0 <= i < walk@.len() - 1 ==> #[trigger] is_child(
                        self.nodes@,
                        walk@[i + 1] as int,
                        walk@[i],
                    ),
                forall|i: int| 0 <= i < walk@.len() - 1 ==> walk@[i] != self.root,
            decreases n - steps,
        {
            if steps >= n {
                proof {
                    if reachable(self.nodes@, self.root, target) {
                        let q = choose|q: Seq<usize>| is_root_path(self.nodes@, self.root, q, target);
                        lemma_root_path_len(self.nodes@, self.root, q, target);
                        let k = q.len() - 1;
                        lemma_walk_follows_path(self.nodes@, self.root, q, walk@, target, k);
                    }
                }
                return None;
            }
            match self.parent_of(cur) {
                None => {
                    proof {
                        if reachable(self.nodes@, self.root, target) {
                            let q = choose|q: Seq<usize>| is_root_path(self.nodes@, self.root, q, target);
                            if q.len() - 1 <= steps {
                                let k = q.len() - 1;
                                lemma_walk_follows_path(self.nodes@, self.root, q, walk@, target, k);
                            } else {
                                lemma_walk_follows_path(self.nodes@, self.root, q, walk@, target, steps as int);
                                let j = q.len() - 1 - steps;
                                let l = j - 1;
                                assert(is_child(self.nodes@, q[l] as int, q[l + 1]));
                                lemma_root_path_in_range(self.nodes@, self.root, q, target);
                            }
                        }
                    }
                    return None;
                },
                Some(p) => {
                    proof {
                        let k = self.nodes@[p as int].children@.index_of(cur);
                        assert(self.nodes@[p as int].children@[k] < n);
                    }
                    walk.push(p);
                    cur = p;
                    steps = steps + 1;
                    proof {
                        assert forall|i: int| 0 <= i < walk@.len() - 1 implies #[trigger] is_child(
                            self.nodes@,
                            walk@[i + 1] as int,
                            walk@[i],
                        ) by {
                            if i < walk@.len() - 2 {
                                assert(walk@[i + 1] == walk@.drop_last()[i + 1]);
                                assert(walk@[i] == walk@.drop_last()[i]);
                            }
                        }
                    }
                },
            }
        }
        let len = walk.len();
        let mut path: Vec<usize> = Vec::new();
        let mut i: usize = 0;
        while i < len
            invariant
                len == walk@.len(),
                i <= len,
                path@.len() == i,
                forall|k: int| 0 <= k < i ==> path@[k] == walk@[len - 1 - k],
            decreases len - i,
        {
            path.push(walk[len - 1 - i]);
            i = i + 1;
        }
        proof {
            assert forall|k: int| 0 <= k < path@.len() - 1 implies #[trigger] is_child(
                self.nodes@,
                path@[k] as int,
                path@[k + 1],
            ) by {
                let j = len - 2 - k;
                assert(is_child(self.nodes@, walk@[j + 1] as int, walk@[j]));
            }
        }
        Some(path)
    }

    /// The effective local transform of `id` under `change`.
    fn local_eff(&self, id: usize, change: &HashMap<usize, glam::Mat4>) -> (r: glam::Mat4)
        requires
            id < self.nodes().len(),
        ensures
            r == local_of(self.nodes(), change@, id),
    {
        match change.get(&id) {
            Some(m) => *m,
            None => self.nodes[id].local,
        }
    }

    /// The world transform of `node`, each node on its path from the root
    /// taking its override from `change` when there is one.
    pub fn global_mat_change(&self, node: usize, change: &HashMap<usize, glam::Mat4>) -> (r:
        glam::Mat4)
        requires
            self.wf(),
            node < self.nodes().len(),
        ensures
            r == self.global_spec(change@, node),
    {
        let path = match self.node_path(node) {
            None => {
                return self.local_eff(node, change);
            },
            Some(p) => p,
        };
        proof {
            lemma_root_path_in_range(self.nodes@, self.root, path@, node);
        }
        let mut mat = self.local_eff(path[0], change);
        let mut i: usize = 1;
        while i < path.len()
            invariant
                1 <= i <= path@.len(),
                forall|k: int| 0 <= k < path@.len() ==> path@[k] < self.nodes@.len(),
                mat == chain(self.nodes@, change@, path@.subrange(0, i as int)),
            decreases path@.len() - i,
        {
            let l = self.local_eff(path[i], change);
            proof {
                let s = path@.subrange(0, i + 1);
                assert(s.drop_last() =~= path@.subrange(0, i as int));
                assert(s.last() == path@[i as int]);
            }
            mat = mat_mul(&mat, &l);
            i = i + 1;
        }
        proof {
            assert(path@.subrange(0, path@.len() as int) =~= path@);
            let q = choose|q: Seq<usize>| is_root_path(self.nodes@, self.root, q, node);
            lemma_root_path_unique(self.nodes@, self.root, path@, q, node);
        }
        mat
    }

    /// The world transform of `node` in the bind pose.
    pub fn global_mat(&self, node: usize) -> (r: glam::Mat4)
        requires
            self.wf(),
            node < self.nodes().len(),
        ensures
            r == self.global_spec(Map::empty(), node),
    {
        let empty: HashMap<usize, glam::Mat4> = HashMap::new();
        self.global_mat_change(node, &empty)
    }

    /// The skinning matrices of `node` under `change`: `None` when it has no
    /// skin, else one matrix per joint, in the skin's joint order.
    pub fn joint_mat_change(&self, node: usize, change: &HashMap<usize, glam::Mat4>) -> (r: Option<
        Vec<glam::Mat4>,
    >)
        requires
            self.wf(),
            node < self.nodes().len(),
        ensures
            r is None <==> self.nodes()[node as int].skin is None,
            r matches Some(v) ==> self.joints_spec(change@, node) == Some(v@),
    {
        let s = match self.nodes[node].skin {
            None => {
                return None;
            },
            Some(s) => s,
        };
        let skin = &self.skins[s];
        let mut out: Vec<glam::Mat4> = Vec::new();
        let mut i: usize = 0;
        while i < skin.joints.len()
            invariant
                self.wf(),
                s < self.skins@.len(),
                skin == self.skins@[s as int],
                i <= skin.joints@.len(),
                out@.len() == i,
                forall|k: int|
                    0 <= k < i ==> out@[k] == mat_product(
                        self.global_spec(change@, skin.joints@[k]),
                        skin.inverse_bind@[k],
                    ),
            decreases skin.joints@.len() - i,
        {
            let g = self.global_mat_change(skin.joints[i], change);
            let m = mat_mul(&g, &skin.inverse_bind[i]);
            out.push(m);
            i = i + 1;
        }
        proof {
            let expected = self.joints_spec(change@, node)->0;
            assert(out@ =~= expected);
        }
        Some(out)
    }

    /// The skinning matrices of `node` in the bind pose.
    pub fn joint_mat(&self, node: usize) -> (r: Option<Vec<glam::Mat4>>)
        requires
            self.wf(),
            node < self.nodes().len(),
        ensures
            r is None <==> self.nodes()[node as int].skin is None,
            r matches Some(v) ==> self.joints_spec(Map::empty(), node) == Some(v@),
    {
        let empty: HashMap<usize, glam::Mat4> = HashMap::new();
        self.joint_mat_change(node, &empty)
    }
}

/// Without overrides, a child of the root has as world transform the root's
/// local transform times its own.
pub proof fn lemma_child_of_root(m: Model, child: usize)
    requires
        m.wf(),
        is_child(m.nodes(), m.root() as int, child),
    ensures
        m.global_spec(Map::empty(), child) == mat_product(
            m.nodes()[m.root() as int].local,
            m.nodes()[child as int].local,
        ),
{
    let nodes = m.nodes();
    let root = m.root();
    let p = seq![root, child];
    assert(is_root_path(nodes, root, p, child));
    let q = choose|q: Seq<usize>| is_root_path(nodes, root, q, child);
    lemma_root_path_unique(nodes, root, p, q, child);
    let ov = Map::<usize, glam::Mat4>::empty();
    assert(reachable(nodes, root, child));
    assert(p.drop_last() =~= seq![root]);
    assert(!ov.contains_key(root) && !ov.contains_key(child));
    assert(chain(nodes, ov, seq![root]) == nodes[root as int].local);
    assert(chain(nodes, ov, p) == mat_product(chain(nodes, ov, seq![root]), local_of(nodes, ov, child)));
}

} // verus!

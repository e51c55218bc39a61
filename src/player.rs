//! Playback: the per-frame override map built from every channel, and the
//! state machine that advances time and re-poses every mesh-bearing node.
use std::collections::HashMap;
use vstd::prelude::*;

use crate::keyframe::Channel;
use crate::math::{mat_mul, mat_product};
use crate::scene::Model;

verus! {

broadcast use vstd::std_specs::hash::group_hash_axioms;

/// What happens when a channel runs out of keyframes.
#[derive(Clone, Copy, Debug)]
pub enum PlayMode {
    /// Jump back to the given time (microseconds) and pose from there.
    Repeat(u64),
    /// Pose at the end of the clip and stop.
    Once,
}

/// Where the player stands.
#[derive(Clone, Copy, Debug, PartialEq, Eq)]
pub enum PlayState {
    /// No pose computed from the channels yet.
    Idle,
    /// The last evaluation posed the model from the channels.
    Playing,
    /// A clip ran out under `PlayMode::Once`; evaluation has stopped.
    Finished,
}

/// The cached pose of one mesh-bearing node.
pub struct Mesh {
    /// The node that carries the mesh.
    pub node: usize,
    /// Its world transform.
    pub transfrom: glam::Mat4,
    /// Its skinning matrices, present iff the node has a skin.
    pub joints_mat: Option<Vec<glam::Mat4>>,
}

/// `ov` with the contribution `m` for node `id` multiplied onto the entry
/// already there, or inserted when there is none.
pub open spec fn compose_entry(ov: Map<usize, glam::Mat4>, id: usize, m: glam::Mat4) -> Map<
    usize,
    glam::Mat4,
> {
    if ov.contains_key(id) {
        ov.insert(id, mat_product(ov[id], m))
    } else {
        ov.insert(id, m)
    }
}

/// The override map at `t`, the channels merged in order; `None` when any
/// channel has run out of keyframes.
pub open spec fn pose_of(chs: Seq<Channel>, t: u64) -> Option<Map<usize, glam::Mat4>>
    decreases chs.len(),
{
    if chs.len() == 0 {
        Some(Map::empty())
    } else {
        match pose_of(chs.drop_last(), t) {
            None => None,
            Some(ov) => match chs.last().sample_at(t) {
                None => None,
                Some(m) => Some(compose_entry(ov, chs.last().target(), m)),
            },
        }
    }
}

/// The earliest last-keyframe time over the channels: the time at which the
/// first of them runs out.
pub open spec fn clip_end(chs: Seq<Channel>) -> u64
    decreases chs.len(),
{
    if chs.len() == 0 {
        0
    } else if chs.len() == 1 {
        chs[0].times().last()
    } else {
        let e = clip_end(chs.drop_last());
        let l = chs.last().times().last();
        if l < e {
            l
        } else {
            e
        }
    }
}

/// The override map exists exactly when no channel has run out.
pub proof fn lemma_pose_some(chs: Seq<Channel>, t: u64)
    ensures
        pose_of(chs, t) is Some <==> forall|c: int| 0 <= c < chs.len() ==> t <= #[trigger] chs[c].times().last(),
    decreases chs.len(),
{
    if chs.len() > 0 {
        let init = chs.drop_last();
        lemma_pose_some(init, t);
        assert forall|c: int| 0 <= c < init.len() implies #[trigger] init[c] == chs[c] by {}
        if pose_of(chs, t) is Some {
            assert forall|c: int| 0 <= c < chs.len() implies t <= #[trigger] chs[c].times().last() by {
                if c < init.len() {
                    assert(init[c] == chs[c]);
                }
            }
        } else if forall|c: int| 0 <= c < chs.len() ==> t <= #[trigger] chs[c].times().last() {
            assert forall|c: int| 0 <= c < init.len() implies t <= #[trigger] init[c].times().last() by {
                assert(init[c] == chs[c]);
            }
            assert(t <= chs[chs.len() - 1].times().last());
        }
    }
}

/// No channel has run out at the clip's end.
proof fn lemma_clip_end_bounds(chs: Seq<Channel>)
    requires
        chs.len() > 0,
    ensures
        forall|c: int| 0 <= c < chs.len() ==> clip_end(chs) <= #[trigger] chs[c].times().last(),
    decreases chs.len(),
{
    if chs.len() > 1 {
        let init = chs.drop_last();
        lemma_clip_end_bounds(init);
        assert forall|c: int| 0 <= c < chs.len() implies clip_end(chs) <= #[trigger] chs[c].times().last() by {
            if c < init.len() {
                assert(init[c] == chs[c]);
            }
        }
    }
}

/// Cached skinning matrices, seen as a sequence.
pub open spec fn joints_view(j: Option<Vec<glam::Mat4>>) -> Option<Seq<glam::Mat4>> {
    match j {
        None => None,
        Some(v) => Some(v@),
    }
}

/// `m` holds the pose of its node under `ov`.
pub open spec fn posed(model: Model, ov: Map<usize, glam::Mat4>, m: Mesh) -> bool {
    &&& m.transfrom == model.global_spec(ov, m.node)
    &&& joints_view(m.joints_mat) == model.joints_spec(ov, m.node)
}

/// `after` holds the same nodes as `before`, each posed under `ov`.
pub open spec fn reposed(model: Model, ov: Map<usize, glam::Mat4>, before: Seq<Mesh>, after: Seq<
    Mesh,
>) -> bool {
    &&& after.len() == before.len()
    &&& forall|k: int| 0 <= k < after.len() ==> (#[trigger] after[k]).node == before[k].node
    &&& forall|k: int| 0 <= k < after.len() ==> posed(model, ov, #[trigger] after[k])
}

/// The two mesh lists hold the same nodes with the same transforms.
pub open spec fn same_pose(a: Seq<Mesh>, b: Seq<Mesh>) -> bool {
    &&& a.len() == b.len()
    &&& forall|k: int|
        0 <= k < a.len() ==> {
            &&& (#[trigger] a[k]).node == b[k].node
            &&& a[k].transfrom == b[k].transfrom
            &&& joints_view(a[k].joints_mat) == joints_view(b[k].joints_mat)
        }
}

/// Plays every channel of a model and keeps the pose of each mesh-bearing
/// node.
pub struct Player<'a> {
    meshes: Vec<Mesh>,
    model: &'a Model,
    time: u64,
    state: PlayState,
}

impl<'a> Player<'a> {
    pub closed spec fn model_spec(&self) -> Model {
        *self.model
    }

    pub closed spec fn time_spec(&self) -> u64 {
        self.time
    }

    pub closed spec fn state_spec(&self) -> PlayState {
        self.state
    }

    pub closed spec fn meshes_spec(&self) -> Seq<Mesh> {
        self.meshes@
    }

    pub open spec fn wf(&self) -> bool {
        &&& self.model_spec().wf()
        &&& forall|k: int|
            0 <= k < self.meshes_spec().len() ==> (#[trigger] self.meshes_spec()[k]).node
                < self.model_spec().nodes().len()
    }

    /// What one evaluation does: from `self`, under `play`, it leads to `next`.
    pub open spec fn stepped(self, next: Self, play: PlayMode) -> bool {
        let model = self.model_spec();
        let chs = model.channels();
        &&& next.model_spec() == model
        &&& if self.state_spec() == PlayState::Finished {
            &&& next.time_spec() == self.time_spec()
            &&& next.state_spec() == PlayState::Finished
            &&& next.meshes_spec() == self.meshes_spec()
        } else {
            match pose_of(chs, self.time_spec()) {
                Some(ov) => {
                    &&& next.time_spec() == self.time_spec()
                    &&& next.state_spec() == PlayState::Playing
                    &&& reposed(model, ov, self.meshes_spec(), next.meshes_spec())
                },
                None => match play {
                    PlayMode::Repeat(start) => {
                        &&& next.time_spec() == start
                        &&& match pose_of(chs, start) {
                            Some(ov) => {
                                &&& next.state_spec() == PlayState::Playing
                                &&& reposed(model, ov, self.meshes_spec(), next.meshes_spec())
                            },
                            None => {
                                &&& next.state_spec() == self.state_spec()
                                &&& next.meshes_spec() == self.meshes_spec()
                            },
                        }
                    },
                    PlayMode::Once => {
                        &&& next.time_spec() == self.time_spec()
                        &&& next.state_spec() == PlayState::Finished
                        &&& pose_of(chs, clip_end(chs)) is Some
                        &&& reposed(
                            model,
                            pose_of(chs, clip_end(chs))->0,
                            self.meshes_spec(),
                            next.meshes_spec(),
                        )
                    },
                },
            }
        }
    }

    /// A player at time 0, every mesh-bearing node posed in the bind pose,
    /// in node order.
    pub fn new(model: &'a Model) -> (r: Player<'a>)
        requires
            model.wf(),
        ensures
            r.wf(),
            r.model_spec() == *model,
            r.time_spec() == 0,
            r.state_spec() == PlayState::Idle,
            forall|a: int, b: int|
                0 <= a < b < r.meshes_spec().len() ==> (#[trigger] r.meshes_spec()[a]).node
                    < (#[trigger] r.meshes_spec()[b]).node,
            forall|k: int|
                0 <= k < r.meshes_spec().len() ==> (model.nodes()[(#[trigger] r.meshes_spec()[k]).node as int].mesh is Some
                    && posed(*model, Map::empty(), r.meshes_spec()[k])),
            forall|i: int|
                0 <= i < model.nodes().len() && (#[trigger] model.nodes()[i]).mesh is Some ==> exists|k: int|
                    0 <= k < r.meshes_spec().len() && r.meshes_spec()[k].node == i,
    {
        let n = model.node_count();
        let mut meshes: Vec<Mesh> = Vec::new();
        let mut i: usize = 0;
        while i < n
            invariant
                model.wf(),
                n == model.nodes().len(),
                i <= n,
                forall|k: int| 0 <= k < meshes@.len() ==> (#[trigger] meshes@[k]).node < i,
                forall|a: int, b: int|
                    0 <= a < b < meshes@.len() ==> (#[trigger] meshes@[a]).node < (#[trigger] meshes@[b]).node,
                forall|k: int|
                    0 <= k < meshes@.len() ==> (model.nodes()[(#[trigger] meshes@[k]).node as int].mesh is Some
                        && posed(*model, Map::empty(), meshes@[k])),
                forall|j: int|
                    0 <= j < i && (#[trigger] model.nodes()[j]).mesh is Some ==> exists|k: int|
                        0 <= k < meshes@.len() && meshes@[k].node == j,
            decreases n - i,
        {
            if model.has_mesh(i) {
                let transfrom = model.global_mat(i);
                let joints_mat = model.joint_mat(i);
                let ghost before = meshes@;
                meshes.push(Mesh { node: i, transfrom, joints_mat });
                proof {
                    assert forall|j: int|
                        0 <= j < i + 1 && (#[trigger] model.nodes()[j]).mesh is Some implies exists|k: int|
                            0 <= k < meshes@.len() && meshes@[k].node == j by {
                        if j < i {
                            let k = choose|k: int| 0 <= k < before.len() && before[k].node == j;
                            assert(meshes@[k] == before[k]);
                        } else {
                            assert(meshes@[before.len() as int].node == j);
                        }
                    }
                }
            }
            i = i + 1;
        }
        Player { meshes, model, time: 0, state: PlayState::Idle }
    }

    /// The override map at time `t`: every channel sampled at `t` and merged
    /// into the map by target node, a second contribution for a node
    /// multiplied onto the first; `None` when any channel has run out.
    fn change_all(&self, t: u64) -> (r: Option<HashMap<usize, glam::Mat4>>)
        requires
            self.wf(),
        ensures
            r is None <==> pose_of(self.model_spec().channels(), t) is None,
            r matches Some(m) ==> pose_of(self.model_spec().channels(), t) == Some(m@),
    {
        let chs = self.model.channel_list();
        let mut change: HashMap<usize, glam::Mat4> = HashMap::new();
        let mut i: usize = 0;
        while i < chs.len()
            invariant
                chs@ == self.model_spec().channels(),
                i <= chs@.len(),
                pose_of(chs@.subrange(0, i as int), t) == Some(change@),
            decreases chs@.len() - i,
        {
            let ch = &chs[i];
            proof {
                let s = chs@.subrange(0, i + 1);
                assert(s.drop_last() =~= chs@.subrange(0, i as int));
                assert(s.last() == chs@[i as int]);
            }
            let m = match ch.sample(t) {
                None => {
                    proof {
                        lemma_pose_some(chs@.subrange(0, i + 1), t);
                        lemma_pose_some(chs@, t);
                        assert(chs@.subrange(0, i + 1)[i as int] == chs@[i as int]);
                    }
                    return None;
                },
                Some(m) => m,
            };
            let id = ch.target_node();
            let next = match change.get(&id) {
                Some(e) => mat_mul(e, &m),
                None => m,
            };
            change.insert(id, next);
            i = i + 1;
        }
        proof {
            assert(chs@.subrange(0, chs@.len() as int) =~= chs@);
        }
        Some(change)
    }

    /// Every mesh re-posed under `change`.
    fn repose(&self, change: &HashMap<usize, glam::Mat4>) -> (r: Vec<Mesh>)
        requires
            self.wf(),
        ensures
            reposed(self.model_spec(), change@, self.meshes_spec(), r@),
    {
        let mut out: Vec<Mesh> = Vec::new();
        let mut k: usize = 0;
        while k < self.meshes.len()
            invariant
                self.wf(),
                k <= self.meshes@.len(),
                out@.len() == k,
                forall|j: int| 0 <= j < k ==> (#[trigger] out@[j]).node == self.meshes@[j].node,
                forall|j: int| 0 <= j < k ==> posed(*self.model, change@, #[trigger] out@[j]),
            decreases self.meshes@.len() - k,
        {
            let node = self.meshes[k].node;
            let transfrom = self.model.global_mat_change(node, change);
            let joints_mat = self.model.joint_mat_change(node, change);
            out.push(Mesh { node, transfrom, joints_mat });
            k = k + 1;
        }
        out
    }

    /// The earliest last-keyframe time over the channels.
    fn clip_end_time(&self) -> (r: u64)
        requires
            self.wf(),
        ensures
            r == clip_end(self.model_spec().channels()),
    {
        let chs = self.model.channel_list();
        if chs.len() == 0 {
            return 0;
        }
        let mut e = chs[0].last_time();
        let mut i: usize = 1;
        while i < chs.len()
            invariant
                1 <= i <= chs@.len(),
                e == clip_end(chs@.subrange(0, i as int)),
            decreases chs@.len() - i,
        {
            let l = chs[i].last_time();
            proof {
                let s = chs@.subrange(0, i + 1);
                assert(s.drop_last() =~= chs@.subrange(0, i as int));
                assert(s.last() == chs@[i as int]);
            }
            if l < e {
                e = l;
            }
            i = i + 1;
        }
        proof {
            assert(chs@.subrange(0, chs@.len() as int) =~= chs@);
        }
        e
    }

    /// Evaluates the channels at the current time and re-poses every mesh.
    /// When a channel has run out, `PlayMode::Repeat` jumps back to its start
    /// time and poses there, and `PlayMode::Once` poses at the clip's end and
    /// finishes, leaving the time as it is. A finished player does nothing.
    pub fn update_animation(&mut self, play: PlayMode)
        requires
            old(self).wf(),
        ensures
            final(self).wf(),
            old(self).stepped(*final(self), play),
    {
        match self.state {
            PlayState::Finished => {
                return;
            },
            _ => {},
        }
        match self.change_all(self.time) {
            Some(change) => {
                self.meshes = self.repose(&change);
                self.state = PlayState::Playing;
            },
            None => match play {
                PlayMode::Repeat(start) => {
                    self.time = start;
                    match self.change_all(start) {
                        Some(change) => {
                            self.meshes = self.repose(&change);
                            self.state = PlayState::Playing;
                        },
                        None => {},
                    }
                },
                PlayMode::Once => {
                    let end = self.clip_end_time();
                    proof {
                        let chs = self.model_spec().channels();
                        lemma_pose_some(chs, self.time);
                        lemma_clip_end_bounds(chs);
                        lemma_pose_some(chs, end);
                    }
                    self.state = PlayState::Finished;
                    match self.change_all(end) {
                        Some(change) => {
                            self.meshes = self.repose(&change);
                        },
                        None => {},
                    }
                },
            },
        }
    }

    /// Sets the time (microseconds) and makes the player idle again.
    pub fn time(&mut self, value: u64)
        requires
            old(self).wf(),
        ensures
            final(self).wf(),
            final(self).model_spec() == old(self).model_spec(),
            final(self).meshes_spec() == old(self).meshes_spec(),
            final(self).time_spec() == value,
            final(self).state_spec() == PlayState::Idle,
    {
        self.time = value;
        self.state = PlayState::Idle;
    }

    /// Advances the time by `value` microseconds, saturating at `u64::MAX`.
    pub fn time_add(&mut self, value: u64)
        requires
            old(self).wf(),
        ensures
            final(self).wf(),
            final(self).model_spec() == old(self).model_spec(),
            final(self).meshes_spec() == old(self).meshes_spec(),
            final(self).state_spec() == old(self).state_spec(),
            final(self).time_spec() == if old(self).time_spec() + value > u64::MAX {
                u64::MAX
            } else {
                (old(self).time_spec() + value) as u64
            },
    {
        self.time = self.time.saturating_add(value);
    }

    /// The current time in microseconds.
    pub fn current_time(&self) -> (r: u64)
        ensures
            r == self.time_spec(),
    {
        self.time
    }

    /// The playback state.
    pub fn state(&self) -> (r: PlayState)
        ensures
            r == self.state_spec(),
    {
        self.state
    }

    /// The cached pose of every mesh-bearing node.
    pub fn meshes(&self) -> (r: &Vec<Mesh>)
        ensures
            r@ == self.meshes_spec(),
    {
        &self.meshes
    }
}

/// Two evaluations with no change of time in between leave the same pose.
pub proof fn lemma_evaluate_idempotent<'a>(
    p0: Player<'a>,
    p1: Player<'a>,
    p2: Player<'a>,
    play: PlayMode,
)
    requires
        p0.stepped(p1, play),
        p1.stepped(p2, play),
    ensures
        same_pose(p1.meshes_spec(), p2.meshes_spec()),
{
    let a = p1.meshes_spec();
    let b = p2.meshes_spec();
    if p1.meshes_spec() == p2.meshes_spec() {
    } else {
        assert forall|k: int| 0 <= k < a.len() implies {
            &&& (#[trigger] a[k]).node == b[k].node
            &&& a[k].transfrom == b[k].transfrom
            &&& joints_view(a[k].joints_mat) == joints_view(b[k].joints_mat)
        } by {
            assert(posed(p1.model_spec(), pose_of(p1.model_spec().channels(), p1.time_spec())->0, a[k]));
            assert(posed(p1.model_spec(), pose_of(p1.model_spec().channels(), p1.time_spec())->0, b[k]));
        }
    }
}

} // verus!

//! Keyframe channels: validated and sorted at load, sampled at a time given
//! in integer microseconds.
use vstd::prelude::*;

use crate::math::{
    lerp_vec3, mat_from_rotation, mat_from_scale, mat_from_translation, quat_slerp,
    rotation_matrix, scale_matrix, slerp_quat, translation_matrix, vec3_lerp,
};
use crate::scene::LoadError;

verus! {

/// The keyframe values of one channel, by animated property.
pub enum Keyframes {
    Translations(Vec<glam::Vec3>),
    Rotations(Vec<glam::Quat>),
    Scales(Vec<glam::Vec3>),
}

impl Keyframes {
    pub open spec fn len_spec(&self) -> nat {
        match self {
            Keyframes::Translations(v) => v@.len(),
            Keyframes::Rotations(v) => v@.len(),
            Keyframes::Scales(v) => v@.len(),
        }
    }

    /// The local transform between keyframes `s` and `e` at the ratio
    /// `num / den`: keyframe `s` itself at ratio 0, keyframe `e` itself at
    /// ratio 1, else the interpolated value.
    pub open spec fn matrix_between(&self, s: int, e: int, num: u64, den: u64) -> glam::Mat4 {
        match self {
            Keyframes::Translations(v) => translation_matrix(
                if num == 0 {
                    v@[s]
                } else if num == den {
                    v@[e]
                } else {
                    vec3_lerp(v@[s], v@[e], num, den)
                },
            ),
            Keyframes::Rotations(v) => rotation_matrix(
                if num == 0 {
                    v@[s]
                } else if num == den {
                    v@[e]
                } else {
                    quat_slerp(v@[s], v@[e], num, den)
                },
            ),
            Keyframes::Scales(v) => scale_matrix(
                if num == 0 {
                    v@[s]
                } else if num == den {
                    v@[e]
                } else {
                    vec3_lerp(v@[s], v@[e], num, den)
                },
            ),
        }
    }

    /// The local transform of keyframe `k` alone.
    pub open spec fn matrix_at(&self, k: int) -> glam::Mat4 {
        self.matrix_between(k, k, 0, 1)
    }

    /// The values in the order `order` gives.
    pub open spec fn permuted(&self, order: Seq<usize>, out: Keyframes) -> bool {
        match (self, out) {
            (Keyframes::Translations(v), Keyframes::Translations(w)) => w@.len() == order.len()
                && forall|k: int| 0 <= k < order.len() ==> w@[k] == v@[order[k] as int],
            (Keyframes::Rotations(v), Keyframes::Rotations(w)) => w@.len() == order.len()
                && forall|k: int| 0 <= k < order.len() ==> w@[k] == v@[order[k] as int],
            (Keyframes::Scales(v), Keyframes::Scales(w)) => w@.len() == order.len()
                && forall|k: int| 0 <= k < order.len() ==> w@[k] == v@[order[k] as int],
            _ => false,
        }
    }

    /// The values in the order `order` gives.
    fn permute(&self, order: &Vec<usize>) -> (r: Keyframes)
        requires
            forall|k: int| 0 <= k < order@.len() ==> order@[k] < self.len_spec(),
        ensures
            self.permuted(order@, r),
            r.len_spec() == order@.len(),
    {
        match self {
            Keyframes::Translations(v) => {
                let mut w: Vec<glam::Vec3> = Vec::new();
                let mut k: usize = 0;
                while k < order.len()
                    invariant
                        k <= order@.len(),
                        w@.len() == k,
                        forall|j: int| 0 <= j < order@.len() ==> order@[j] < v@.len(),
                        forall|j: int| 0 <= j < k ==> w@[j] == v@[order@[j] as int],
                    decreases order@.len() - k,
                {
                    w.push(v[order[k]]);
                    k = k + 1;
                }
                Keyframes::Translations(w)
            },
            Keyframes::Rotations(v) => {
                let mut w: Vec<glam::Quat> = Vec::new();
                let mut k: usize = 0;
                while k < order.len()
                    invariant
                        k <= order@.len(),
                        w@.len() == k,
                        forall|j: int| 0 <= j < order@.len() ==> order@[j] < v@.len(),
                        forall|j: int| 0 <= j < k ==> w@[j] == v@[order@[j] as int],
                    decreases order@.len() - k,
                {
                    w.push(v[order[k]]);
                    k = k + 1;
                }
                Keyframes::Rotations(w)
            },
            Keyframes::Scales(v) => {
                let mut w: Vec<glam::Vec3> = Vec::new();
                let mut k: usize = 0;
                while k < order.len()
                    invariant
                        k <= order@.len(),
                        w@.len() == k,
                        forall|j: int| 0 <= j < order@.len() ==> order@[j] < v@.len(),
                        forall|j: int| 0 <= j < k ==> w@[j] == v@[order@[j] as int],
                    decreases order@.len() - k,
                {
                    w.push(v[order[k]]);
                    k = k + 1;
                }
                Keyframes::Scales(w)
            },
        }
    }

    fn len(&self) -> (r: usize)
        ensures
            r == self.len_spec(),
    {
        match self {
            Keyframes::Translations(v) => v.len(),
            Keyframes::Rotations(v) => v.len(),
            Keyframes::Scales(v) => v.len(),
        }
    }

    /// The local transform between keyframes `s` and `e` at `num / den`.
    fn matrix(&self, s: usize, e: usize, num: u64, den: u64) -> (r: glam::Mat4)
        requires
            s < self.len_spec(),
            e < self.len_spec(),
            num == 0 || 0 < den,
        ensures
            r == self.matrix_between(s as int, e as int, num, den),
    {
        match self {
            Keyframes::Translations(v) => {
                let x = if num == 0 {
                    v[s]
                } else if num == den {
                    v[e]
                } else {
                    lerp_vec3(&v[s], &v[e], num, den)
                };
                mat_from_translation(&x)
            },
            Keyframes::Rotations(v) => {
                let x = if num == 0 {
                    v[s]
                } else if num == den {
                    v[e]
                } else {
                    slerp_quat(&v[s], &v[e], num, den)
                };
                mat_from_rotation(&x)
            },
            Keyframes::Scales(v) => {
                let x = if num == 0 {
                    v[s]
                } else if num == den {
                    v[e]
                } else {
                    lerp_vec3(&v[s], &v[e], num, den)
                };
                mat_from_scale(&x)
            },
        }
    }
}

/// Keyframe `a` sorts before keyframe `b`: earlier time, or the same time and
/// listed first.
pub open spec fn key_before(times: Seq<u64>, a: usize, b: usize) -> bool {
    times[a as int] < times[b as int] || (times[a as int] == times[b as int] && a < b)
}

/// `order` lists every keyframe index below `times.len()` once, sorted by
/// time, keyframes with equal times in their input order.
pub open spec fn is_stable_order(times: Seq<u64>, order: Seq<usize>) -> bool {
    &&& order.len() == times.len()
    &&& forall|k: int| 0 <= k < order.len() ==> order[k] < times.len()
    &&& forall|a: int, b: int| 0 <= a < b < order.len() ==> key_before(times, order[a], order[b])
}

/// The times are in ascending order.
pub open spec fn ascending(times: Seq<u64>) -> bool {
    forall|a: int, b: int| 0 <= a < b < times.len() ==> times[a] <= times[b]
}

/// `t` lies in the interval between keyframes `i` and `i + 1`.
pub open spec fn brackets(times: Seq<u64>, i: int, t: u64) -> bool {
    0 <= i < times.len() - 1 && times[i] <= t <= times[i + 1]
}

/// `i` is the first interval that holds `t`.
pub open spec fn first_bracket(times: Seq<u64>, i: int, t: u64) -> bool {
    brackets(times, i, t) && forall|j: int| 0 <= j < i ==> !brackets(times, j, t)
}

/// The sampled local transform at `t`: `None` past the last keyframe; else
/// the interpolation over the first interval that holds `t`, the ratio being
/// 0 on an interval of length 0. Before the first keyframe the ratio against
/// the first interval is some `-q`, and the point at `-q` from keyframe 0 to
/// keyframe 1 is the point at `1 + q` from keyframe 1 back to keyframe 0.
/// Keyframe 0 when there is no first interval or it has length 0.
pub open spec fn sample_spec(times: Seq<u64>, values: Keyframes, t: u64) -> Option<glam::Mat4> {
    if t > times.last() {
        None
    } else if exists|i: int| first_bracket(times, i, t) {
        let i = choose|i: int| first_bracket(times, i, t);
        Some(
            values.matrix_between(
                i,
                i + 1,
                (t - times[i]) as u64,
                (times[i + 1] - times[i]) as u64,
            ),
        )
    } else if times.len() >= 2 && t < times[0] && times[0] < times[1] {
        let den = (times[1] - times[0]) as u64;
        Some(values.matrix_between(1, 0, (den + (times[0] - t)) as u64, den))
    } else {
        Some(values.matrix_at(0))
    }
}

/// The indices of `times` in stable ascending order of time.
pub fn stable_order(times: &Vec<u64>) -> (r: Vec<usize>)
    ensures
        is_stable_order(times@, r@),
{
    let mut order: Vec<usize> = Vec::new();
    let mut i: usize = 0;
    while i < times.len()
        invariant
            i <= times@.len(),
            order@.len() == i,
            forall|k: int| 0 <= k < order@.len() ==> order@[k] < i,
            forall|a: int, b: int|
                0 <= a < b < order@.len() ==> key_before(times@, order@[a], order@[b]),
        decreases times@.len() - i,
    {
        let ti = times[i];
        let mut pos: usize = 0;
        while pos < order.len() && times[order[pos]] <= ti
            invariant
                i < times@.len(),
                ti == times@[i as int],
                pos <= order@.len(),
                order@.len() == i,
                forall|k: int| 0 <= k < order@.len() ==> order@[k] < i,
                forall|k: int| 0 <= k < pos ==> times@[order@[k] as int] <= ti,
            decreases order@.len() - pos,
        {
            pos = pos + 1;
        }
        proof {
            assert forall|k: int| pos <= k < order@.len() implies times@[order@[k] as int] > ti by {
                if pos < order@.len() {
                    assert(times@[order@[pos as int] as int] > ti);
                    if k > pos {
                        assert(key_before(times@, order@[pos as int], order@[k]));
                    }
                }
            }
        }
        let ghost old_order = order@;
        order.insert(pos, i);
        proof {
            assert forall|a: int, b: int|
                0 <= a < b < order@.len() implies key_before(times@, order@[a], order@[b]) by {
                if b < pos {
                    assert(order@[a] == old_order[a] && order@[b] == old_order[b]);
                } else if b == pos {
                    assert(order@[a] == old_order[a]);
                } else if a < pos {
                    assert(order@[a] == old_order[a] && order@[b] == old_order[b - 1]);
                } else if a == pos {
                    assert(order@[b] == old_order[b - 1]);
                } else {
                    assert(order@[a] == old_order[a - 1] && order@[b] == old_order[b - 1]);
                }
            }
            assert forall|k: int| 0 <= k < order@.len() implies order@[k] < i + 1 by {
                if k < pos {
                    assert(order@[k] == old_order[k]);
                } else if k > pos {
                    assert(order@[k] == old_order[k - 1]);
                }
            }
        }
        i = i + 1;
    }
    order
}

/// One animated property of one node.
pub struct Channel {
    target: usize,
    times: Vec<u64>,
    values: Keyframes,
}

impl Channel {
    pub closed spec fn target(&self) -> usize {
        self.target
    }

    pub closed spec fn times(&self) -> Seq<u64> {
        self.times@
    }

    pub closed spec fn values(&self) -> Keyframes {
        self.values
    }

    /// At least one keyframe, times ascending, one value per time.
    pub open spec fn wf(&self) -> bool {
        &&& self.times().len() >= 1
        &&& ascending(self.times())
        &&& self.values().len_spec() == self.times().len()
    }

    #[verifier::type_invariant]
    closed spec fn inv(&self) -> bool {
        self.wf()
    }

    /// What `sample` returns at `t`.
    pub open spec fn sample_at(&self, t: u64) -> Option<glam::Mat4> {
        sample_spec(self.times(), self.values(), t)
    }

    /// Validates a channel and sorts its keyframes by time, keyframes with
    /// equal times keeping their order.
    pub fn new(target: usize, times: Vec<u64>, values: Keyframes) -> (r: Result<Channel, LoadError>)
        ensures
            r == Err::<Channel, LoadError>(LoadError::EmptyKeyframes) <==> times@.len() == 0,
            r == Err::<Channel, LoadError>(LoadError::KeyframeLengthMismatch) <==> times@.len() > 0
                && values.len_spec() != times@.len(),
            r is Ok <==> times@.len() > 0 && values.len_spec() == times@.len(),
            r matches Ok(c) ==> {
                &&& c.wf()
                &&& c.target() == target
                &&& exists|order: Seq<usize>|
                    {
                        &&& is_stable_order(times@, order)
                        &&& c.times() == order.map_values(|k: usize| times@[k as int])
                        &&& values.permuted(order, c.values())
                    }
            },
    {
        if times.len() == 0 {
            return Err(LoadError::EmptyKeyframes);
        }
        if values.len() != times.len() {
            return Err(LoadError::KeyframeLengthMismatch);
        }
        let order = stable_order(&times);
        let mut sorted: Vec<u64> = Vec::new();
        let mut k: usize = 0;
        while k < order.len()
            invariant
                is_stable_order(times@, order@),
                k <= order@.len(),
                sorted@.len() == k,
                forall|j: int| 0 <= j < k ==> sorted@[j] == times@[order@[j] as int],
            decreases order@.len() - k,
        {
            sorted.push(times[order[k]]);
            k = k + 1;
        }
        let permuted = values.permute(&order);
        proof {
            assert(sorted@ =~= order@.map_values(|k: usize| times@[k as int]));
            assert forall|a: int, b: int| 0 <= a < b < sorted@.len() implies sorted@[a] <= sorted@[b] by {
                assert(key_before(times@, order@[a], order@[b]));
            }
        }
        Ok(Channel { target, times: sorted, values: permuted })
    }

    /// The node this channel animates.
    pub fn target_node(&self) -> (r: usize)
        ensures
            r == self.target(),
    {
        self.target
    }

    /// The time of the last keyframe.
    pub fn last_time(&self) -> (r: u64)
        ensures
            self.wf(),
            r == self.times().last(),
    {
        proof {
            use_type_invariant(self);
        }
        self.times[self.times.len() - 1]
    }

    /// The local transform this channel gives at `t`; `None` once `t` is past
    /// the last keyframe.
    pub fn sample(&self, t: u64) -> (r: Option<glam::Mat4>)
        ensures
            r == self.sample_at(t),
            r is None <==> t > self.times().last(),
    {
        proof {
            use_type_invariant(self);
        }
        let n = self.times.len();
        if t > self.times[n - 1] {
            return None;
        }
        let mut i: usize = 0;
        while i + 1 < n
            invariant
                self.wf(),
                n == self.times@.len(),
                n >= 1,
                i < n,
                forall|j: int| 0 <= j < i ==> !brackets(self.times@, j, t),
            decreases n - i,
        {
            if self.times[i] <= t && t <= self.times[i + 1] {
                let num = t - self.times[i];
                let den = self.times[i + 1] - self.times[i];
                proof {
                    assert(first_bracket(self.times@, i as int, t));
                    let c = choose|c: int| first_bracket(self.times@, c, t);
                    assert(c == i);
                }
                return Some(self.values.matrix(i, i + 1, num, den));
            }
            i = i + 1;
        }
        proof {
            assert(!exists|c: int| first_bracket(self.times@, c, t));
        }
        if n >= 2 && t < self.times[0] && self.times[0] < self.times[1] {
            let den = self.times[1] - self.times[0];
            let num = den + (self.times[0] - t);
            return Some(self.values.matrix(1, 0, num, den));
        }
        Some(self.values.matrix(0, 0, 0, 1))
    }
}

/// Sampling at the first keyframe's time gives the first keyframe exactly;
/// sampling at the last keyframe's time gives the last keyframe exactly,
/// provided no earlier keyframe shares that time.
pub proof fn lemma_sample_boundaries(times: Seq<u64>, values: Keyframes)
    requires
        times.len() >= 1,
        ascending(times),
        values.len_spec() == times.len(),
    ensures
        sample_spec(times, values, times[0]) == Some(values.matrix_at(0)),
        times.len() == 1 || times[times.len() - 2] < times.last() ==> sample_spec(
            times,
            values,
            times.last(),
        ) == Some(values.matrix_at(times.len() - 1)),
{
    let n = times.len() as int;
    let t0 = times[0];
    if n >= 2 {
        assert(first_bracket(times, 0, t0));
        let c = choose|c: int| first_bracket(times, c, t0);
        assert(c == 0);
    } else {
        assert(!exists|c: int| first_bracket(times, c, t0));
    }
    let tl = times.last();
    if n >= 2 && times[n - 2] < tl {
        assert forall|j: int| 0 <= j < n - 2 implies !brackets(times, j, tl) by {
            assert(times[j + 1] <= times[n - 2]);
        }
        assert(first_bracket(times, n - 2, tl));
        let c = choose|c: int| first_bracket(times, c, tl);
        assert(c == n - 2);
    } else if n == 1 {
        assert(!exists|c: int| first_bracket(times, c, tl));
    }
}

} // verus!

use vstd::prelude::*;
use crate::distance::{is_nan, is_nan_spec, key_of_bits, key_spec, signed};
use crate::interval::Interval;

verus! {

/// The two distances at which a ray's line passes through a surface.
#[derive(Clone, Copy, Debug, PartialEq, Eq, Structural)]
pub struct Crossing {
    pub near: u64,
    pub far: u64,
}

/// The member of a world that a ray meets first, and the distance to it.
#[derive(Clone, Copy, Debug, PartialEq, Eq, Structural)]
pub struct Hit {
    pub index: usize,
    pub key: u64,
}

impl Crossing {
    /// The nearer distance does not lie behind the farther one.
    pub open spec fn wf(self) -> bool {
        self.near <= self.far
    }

    /// The distance at which the surface is hit within `ray_t`: the nearer
    /// one if the range holds it, else the farther one if the range
    /// holds that, else none.
    pub open spec fn pick_spec(&self, ray_t: Interval) -> Option<u64> {
        if ray_t.contains_spec(self.near) {
            Some(self.near)
        } else if ray_t.contains_spec(self.far) {
            Some(self.far)
        } else {
            None
        }
    }

    /// The crossing at the distances with these keys; none where the first
    /// is the larger.
    pub fn new(near: u64, far: u64) -> (crossing: Option<Self>)
        ensures
            crossing is None <==> near > far,
            crossing matches Some(c) ==> c.near == near && c.far == far && c.wf(),
    {
        if near > far {
            None
        } else {
            Some(Crossing { near, far })
        }
    }

    /// The crossing at the distances with these bit patterns; none where
    /// one of them is not a number or the first is the larger.
    pub fn from_bits(near_bits: u64, far_bits: u64) -> (crossing: Option<Self>)
        ensures
            crossing is None <==> is_nan_spec(near_bits) || is_nan_spec(far_bits) || signed(
                near_bits,
            ) > signed(far_bits),
            crossing matches Some(c) ==> c.near == key_spec(near_bits) && c.far == key_spec(
                far_bits,
            ) && c.wf(),
    {
        if is_nan(near_bits) || is_nan(far_bits) {
            return None;
        }
        Crossing::new(key_of_bits(near_bits), key_of_bits(far_bits))
    }

    #[verifier::when_used_as_spec(pick_spec)]
    pub fn pick(&self, ray_t: Interval) -> (key: Option<u64>)
        ensures
            key == self.pick_spec(ray_t),
    {
        if ray_t.contains(self.near) {
            Some(self.near)
        } else if ray_t.contains(self.far) {
            Some(self.far)
        } else {
            None
        }
    }
}

/// What one member of a world offers within `ray_t`; a member whose surface
/// the ray's line never meets offers nothing.
pub open spec fn candidate(member: Option<Crossing>, ray_t: Interval) -> Option<u64> {
    match member {
        Some(crossing) => crossing.pick_spec(ray_t),
        None => None,
    }
}

/// Every crossing among `members` has its two distances in order.
pub open spec fn all_wf(members: Seq<Option<Crossing>>) -> bool {
    forall|i: int|
        0 <= i < members.len() ==> (#[trigger] members[i] matches Some(crossing)
            ==> crossing.wf())
}

/// `hit` is the nearest hit among `members` within `ray_t`: none if no member
/// offers one; otherwise the first member that offers the least distance.
pub open spec fn is_nearest(members: Seq<Option<Crossing>>, ray_t: Interval, hit: Option<Hit>) -> bool {
    match hit {
        None => forall|i: int|
            0 <= i < members.len() ==> #[trigger] candidate(members[i], ray_t) is None,
        Some(h) => {
            &&& h.index < members.len()
            &&& candidate(members[h.index as int], ray_t) == Some(h.key)
            &&& forall|j: int|
                0 <= j < members.len() ==> (#[trigger] candidate(members[j], ray_t) matches Some(
                    key,
                ) ==> h.key <= key)
            &&& forall|j: int|
                0 <= j < h.index ==> #[trigger] candidate(members[j], ray_t) != Some(h.key)
        },
    }
}

/// Scans the members in order under an upper bound that shrinks to each hit
/// found, and returns the nearest hit within `ray_t`.
pub fn nearest_hit(members: &Vec<Option<Crossing>>, ray_t: Interval) -> (hit: Option<Hit>)
    requires
        all_wf(members@),
    ensures
        is_nearest(members@, ray_t, hit),
{
    let mut closest_so_far: u64 = ray_t.max;
    let mut best: Option<Hit> = None;
    let mut i: usize = 0;
    while i < members.len()
        invariant
            i <= members.len(),
            all_wf(members@),
            closest_so_far <= ray_t.max,
            best is None ==> closest_so_far == ray_t.max,
            best matches Some(h) ==> h.key == closest_so_far && h.index < i,
            is_nearest(members@.take(i as int), ray_t, best),
        decreases members.len() - i,
    {
        let ghost before = members@.take(i as int);
        let ghost after = members@.take(i + 1);
        proof {
            assert(forall|j: int| 0 <= j < i ==> before[j] == after[j]);
            assert(after[i as int] == members@[i as int]);
        }
        match members[i] {
            Some(crossing) => {
                match crossing.pick(ray_t.up_to(closest_so_far)) {
                    Some(key) => {
                        closest_so_far = key;
                        best = Some(Hit { index: i, key });
                    },
                    None => {},
                }
            },
            None => {},
        }
        i += 1;
        proof {
            assert(is_nearest(after, ray_t, best));
        }
    }
    proof {
        assert(members@.take(i as int) =~= members@);
    }
    best
}

/// Members that offer the same distance within `ray_t` are equal: no two
/// different surfaces are met at one distance.
pub open spec fn no_ties(members: Seq<Option<Crossing>>, ray_t: Interval) -> bool {
    forall|i: int, j: int|
        0 <= i < members.len() && 0 <= j < members.len() && candidate(members[i], ray_t) is Some
            && candidate(members[i], ray_t) == candidate(members[j], ray_t) ==> members[i]
            == members[j]
}

/// Each member of `a` occurs somewhere in `b`.
pub open spec fn members_within(a: Seq<Option<Crossing>>, b: Seq<Option<Crossing>>) -> bool {
    forall|i: int| 0 <= i < a.len() ==> b.contains(#[trigger] a[i])
}

/// A nearest hit lies within the range it was sought in.
pub proof fn lemma_nearest_within_range(
    members: Seq<Option<Crossing>>,
    ray_t: Interval,
    hit: Option<Hit>,
)
    requires
        is_nearest(members, ray_t, hit),
    ensures
        hit matches Some(h) ==> ray_t.contains_spec(h.key),
{
}

/// The nearest hit is unique: the order of the members and the range fix
/// both the member and the distance.
pub proof fn lemma_nearest_unique(
    members: Seq<Option<Crossing>>,
    ray_t: Interval,
    first: Option<Hit>,
    second: Option<Hit>,
)
    requires
        is_nearest(members, ray_t, first),
        is_nearest(members, ray_t, second),
    ensures
        first == second,
{
    match (first, second) {
        (Some(f), Some(s)) => {
            assert(candidate(members[f.index as int], ray_t) == Some(f.key));
            assert(candidate(members[s.index as int], ray_t) == Some(s.key));
            assert(f.key == s.key);
            assert(f.index == s.index);
        },
        (Some(f), None) => {
            assert(candidate(members[f.index as int], ray_t) == Some(f.key));
        },
        (None, Some(s)) => {
            assert(candidate(members[s.index as int], ray_t) == Some(s.key));
        },
        (None, None) => {},
    }
}

/// Two worlds in which each member of one occurs in the other have the same
/// nearest distance, or both have none; where no two different members are
/// met at one distance, the member that is hit is the same too.
pub proof fn lemma_nearest_same_members(
    a: Seq<Option<Crossing>>,
    b: Seq<Option<Crossing>>,
    ray_t: Interval,
    hit_a: Option<Hit>,
    hit_b: Option<Hit>,
)
    requires
        members_within(a, b),
        members_within(b, a),
        is_nearest(a, ray_t, hit_a),
        is_nearest(b, ray_t, hit_b),
    ensures
        hit_a is Some <==> hit_b is Some,
        hit_a matches Some(ha) ==> hit_b matches Some(hb) ==> ha.key == hb.key,
        hit_a matches Some(ha) ==> hit_b matches Some(hb) ==> no_ties(a, ray_t) ==> a[ha.index as int]
            == b[hb.index as int],
{
    if let Some(ha) = hit_a {
        let m = a[ha.index as int];
        assert(candidate(m, ray_t) == Some(ha.key));
        assert(b.contains(m));
        let j: int = choose|j: int| 0 <= j < b.len() && b[j] == m;
        assert(candidate(b[j], ray_t) == Some(ha.key));
    }
    if let Some(hb) = hit_b {
        let m = b[hb.index as int];
        assert(candidate(m, ray_t) == Some(hb.key));
        assert(a.contains(m));
        let i: int = choose|i: int| 0 <= i < a.len() && a[i] == m;
        assert(candidate(a[i], ray_t) == Some(hb.key));
        if let Some(ha) = hit_a {
            assert(ha.key <= hb.key);
            assert(candidate(a[ha.index as int], ray_t) == Some(ha.key));
            if no_ties(a, ray_t) {
                assert(a[ha.index as int] == a[i]);
            }
        }
    }
}

/// The nearest hit does not depend on the order of the members: of two
/// worlds that hold the same members, each as often as the other, both have
/// the same nearest distance or both have none; where no two different
/// members are met at one distance, the member that is hit is the same too.
pub proof fn lemma_nearest_order_independent(
    a: Seq<Option<Crossing>>,
    b: Seq<Option<Crossing>>,
    ray_t: Interval,
    hit_a: Option<Hit>,
    hit_b: Option<Hit>,
)
    requires
        a.to_multiset() == b.to_multiset(),
        is_nearest(a, ray_t, hit_a),
        is_nearest(b, ray_t, hit_b),
    ensures
        hit_a is Some <==> hit_b is Some,
        hit_a matches Some(ha) ==> hit_b matches Some(hb) ==> ha.key == hb.key,
        hit_a matches Some(ha) ==> hit_b matches Some(hb) ==> no_ties(a, ray_t) ==> a[ha.index as int]
            == b[hb.index as int],
{
    a.to_multiset_ensures();
    b.to_multiset_ensures();
    assert forall|i: int| 0 <= i < a.len() implies b.contains(#[trigger] a[i]) by {
        assert(a.contains(a[i]));
        assert(a.to_multiset().count(a[i]) > 0);
    }
    assert forall|i: int| 0 <= i < b.len() implies a.contains(#[trigger] b[i]) by {
        assert(b.contains(b[i]));
        assert(b.to_multiset().count(b[i]) > 0);
    }
    lemma_nearest_same_members(a, b, ray_t, hit_a, hit_b);
}

} // verus!

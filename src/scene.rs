//! Choices over ray distances.
//!
//! A distance enters this module as a key: an unsigned integer whose order is
//! the order of the distances, so that a closed range of keys holds exactly
//! the keys of the distances in the matching range. For IEEE-754 doubles such
//! a key is the bit pattern with the sign bit set for a positive value and all
//! bits inverted for a negative one, after zero of either sign is written as
//! positive zero.
use vstd::prelude::*;

verus! {

/// Whether the distance with key `t` lies in the closed range `[t_min, t_max]`.
pub open spec fn in_range(t: u64, t_min: u64, t_max: u64) -> bool {
    t_min <= t && t <= t_max
}

/// The root that a sphere answers with: the nearer one if it lies in range,
/// else the farther one if that lies in range, else none.
pub open spec fn root_choice(near: u64, far: u64, t_min: u64, t_max: u64) -> Option<u64> {
    if in_range(near, t_min, t_max) {
        Some(near)
    } else if in_range(far, t_min, t_max) {
        Some(far)
    } else {
        None
    }
}

/// Picks the distance at which a ray meets a sphere, from the keys of the two
/// roots of its intersection equation (`near` from the smaller root).
pub fn choose_root(near: u64, far: u64, t_min: u64, t_max: u64) -> (r: Option<u64>)
    ensures
        r == root_choice(near, far, t_min, t_max),
{
    if t_min <= near && near <= t_max {
        Some(near)
    } else if t_min <= far && far <= t_max {
        Some(far)
    } else {
        None
    }
}

/// Asking a sphere with a tighter upper bound `bound` gives what it answers
/// over the whole range, kept only where it lies within `bound`: a member's
/// answer under a bound that shrank to an earlier hit follows from its answer
/// over the whole range.
pub proof fn lemma_tighter_bound_filters_root(near: u64, far: u64, t_min: u64, bound: u64, t_max: u64)
    requires
        near <= far,
        bound <= t_max,
    ensures
        root_choice(near, far, t_min, bound) == (match root_choice(near, far, t_min, t_max) {
            Some(t) => if t <= bound { Some(t) } else { None },
            None => None,
        }),
{
}

/// Whether `k` is the answer of a scene whose members answered `hits` (the key
/// of each member's hit, if any): a member with the smallest key, and the first
/// such member when several share it.
pub open spec fn is_nearest(hits: Seq<Option<u64>>, k: int) -> bool {
    &&& 0 <= k < hits.len()
    &&& hits[k] is Some
    &&& forall|i: int| 0 <= i < hits.len() && hits[i] is Some ==> hits[k].unwrap() <= hits[i].unwrap()
    &&& forall|i: int| 0 <= i < k && hits[i] is Some ==> hits[k].unwrap() < hits[i].unwrap()
}

/// Finds which member of a scene the ray meets first, given the key of each
/// member's hit in scene order. Of members met at the same distance, the one
/// met first in scene order is the answer.
pub fn nearest_hit(hits: &Vec<Option<u64>>) -> (r: Option<usize>)
    ensures
        r is None <==> forall|i: int| 0 <= i < hits@.len() ==> hits@[i] is None,
        r matches Some(k) ==> is_nearest(hits@, k as int),
{
    let mut best: Option<usize> = None;
    let mut closest: u64 = 0;
    let n = hits.len();
    for i in 0..n
        invariant
            n == hits@.len(),
            best is None <==> forall|j: int| 0 <= j < i ==> hits@[j] is None,
            best matches Some(k) ==> {
                &&& k < i
                &&& hits@[k as int] == Some(closest)
                &&& forall|j: int| 0 <= j < i && hits@[j] is Some ==> closest <= hits@[j].unwrap()
                &&& forall|j: int| 0 <= j < k && hits@[j] is Some ==> closest < hits@[j].unwrap()
            },
    {
        if let Some(t) = hits[i] {
            if best.is_none() || t < closest {
                best = Some(i);
                closest = t;
            }
        }
    }
    best
}

/// The distance at which a scene is met does not depend on the order of its
/// members: where two scenes' members answer the same keys in another order,
/// their answers carry the same key.
pub proof fn lemma_nearest_distance_is_order_free(a: Seq<Option<u64>>, b: Seq<Option<u64>>, ka: int, kb: int)
    requires
        a.to_multiset() == b.to_multiset(),
        is_nearest(a, ka),
        is_nearest(b, kb),
    ensures
        a[ka] == b[kb],
{
    a.to_multiset_ensures();
    b.to_multiset_ensures();
    assert(a.contains(a[ka]));
    assert(b.to_multiset().count(a[ka]) > 0);
    let j = choose|j: int| 0 <= j < b.len() && b[j] == a[ka];
    assert(b[kb].unwrap() <= b[j].unwrap());
    assert(b.contains(b[kb]));
    assert(a.to_multiset().count(b[kb]) > 0);
    let i = choose|i: int| 0 <= i < a.len() && a[i] == b[kb];
    assert(a[ka].unwrap() <= a[i].unwrap());
}

/// The scene: an ordered collection of objects that rays are cast against.
pub struct HittableList<T> {
    objects: Vec<T>,
}

impl<T> View for HittableList<T> {
    type V = Seq<T>;

    closed spec fn view(&self) -> Seq<T> {
        self.objects@
    }
}

impl<T> HittableList<T> {
    /// An empty scene.
    pub fn new() -> (l: Self)
        ensures
            l@ == Seq::<T>::empty(),
    {
        HittableList { objects: Vec::new() }
    }

    /// An empty scene with room for `initial_capacity` objects.
    pub fn with_capacity(initial_capacity: usize) -> (l: Self)
        ensures
            l@ == Seq::<T>::empty(),
    {
        HittableList { objects: Vec::with_capacity(initial_capacity) }
    }

    /// Removes every object.
    pub fn clear(&mut self)
        ensures
            final(self)@ == Seq::<T>::empty(),
    {
        self.objects.clear();
    }

    /// Appends `object` after those already in the scene.
    pub fn add(&mut self, object: T)
        ensures
            final(self)@ == old(self)@.push(object),
    {
        self.objects.push(object);
    }

    /// The number of objects.
    pub fn len(&self) -> (n: usize)
        ensures
            n == self@.len(),
    {
        self.objects.len()
    }

    /// The object at position `i`, in the order they were added.
    pub fn get(&self, i: usize) -> (o: &T)
        requires
            i < self@.len(),
        ensures
            *o == self@[i as int],
    {
        &self.objects[i]
    }
}

} // verus!

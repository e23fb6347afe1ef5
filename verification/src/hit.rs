//! Choosing what a ray hits first.
//!
//! A hit is reported as an order key of its distance along the ray: keys
//! compare as the distances do, so the smallest key is the nearest hit.
use vstd::prelude::*;
use crate::block::{face_of_quad, quad_face, Block};
use crate::faces::Faces;

verus! {

/// Whether `i` is the first of the nearest hits of `hits`: entry `i` is a
/// hit, no hit is nearer, and every earlier hit is strictly farther.
pub open spec fn is_first_closest(hits: Seq<Option<u64>>, i: int) -> bool {
    &&& 0 <= i < hits.len()
    &&& hits[i] is Some
    &&& forall|j: int|
        0 <= j < hits.len() && #[trigger] hits[j] is Some ==> hits[i]->0 <= hits[j]->0 && (j < i
            ==> hits[i]->0 < hits[j]->0)
}

/// Whether `hits` holds no hit at all.
pub open spec fn no_hit(hits: Seq<Option<u64>>) -> bool {
    forall|j: int| 0 <= j < hits.len() ==> #[trigger] hits[j] is None
}

/// The index of the nearest hit, the first one found when several are
/// equally near; `None` when nothing was hit.
pub fn closest_hit(hits: &Vec<Option<u64>>) -> (r: Option<usize>)
    ensures
        match r {
            Some(i) => is_first_closest(hits@, i as int),
            None => no_hit(hits@),
        },
{
    let mut best: Option<usize> = None;
    let mut lowest: u64 = 0;
    let mut i: usize = 0;
    while i < hits.len()
        invariant
            i <= hits@.len(),
            match best {
                Some(b) => {
                    &&& b < i
                    &&& hits@[b as int] == Some(lowest)
                    &&& forall|j: int|
                        0 <= j < i && #[trigger] hits@[j] is Some ==> lowest <= hits@[j]->0 && (j
                            < b ==> lowest < hits@[j]->0)
                },
                None => forall|j: int| 0 <= j < i ==> #[trigger] hits@[j] is None,
            },
        decreases hits@.len() - i,
    {
        match hits[i] {
            None => {},
            Some(t) => {
                let take = match best {
                    None => true,
                    Some(_) => t < lowest,
                };
                if take {
                    best = Some(i);
                    lowest = t;
                }
            },
        }
        i = i + 1;
    }
    best
}

impl Block {
    /// What a ray hits of this block: nothing when it misses the block's
    /// bounding box (`box_hit` false), else the nearest of the six quads'
    /// hits `quad_hits` (given in drawing order, the first of equally near
    /// ones) as its key and the face of that quad.
    pub fn intersects(&self, box_hit: bool, quad_hits: &Vec<Option<u64>>) -> (r: Option<(u64, Faces)>)
        requires
            quad_hits@.len() == 6,
        ensures
            !box_hit ==> r is None,
            box_hit ==> match r {
                Some((t, f)) => exists|i: int|
                    is_first_closest(quad_hits@, i) && quad_hits@[i] == Some(t) && f == quad_face(i),
                None => no_hit(quad_hits@),
            },
    {
        if !box_hit {
            return None;
        }
        match closest_hit(quad_hits) {
            None => None,
            Some(i) => {
                let t = match quad_hits[i] {
                    Some(t) => t,
                    None => 0,
                };
                Some((t, face_of_quad(i)))
            },
        }
    }
}

/// There is only one first nearest hit.
pub proof fn lemma_first_closest_unique(hits: Seq<Option<u64>>, i: int, j: int)
    requires
        is_first_closest(hits, i),
        is_first_closest(hits, j),
    ensures
        i == j,
{
    if i < j {
        assert(hits[i] is Some);
    } else if j < i {
        assert(hits[j] is Some);
    }
}

} // verus!

//! The vein network: which vein each auxin pulls, the direction that
//! results for every vein, and the new veins that grow along it.
//!
//! The network is a `Vec<Vein>` in the order in which the veins grew, the
//! root first.  Nothing here removes a vein, and nothing bounds the number of
//! veins: a step adds at most as many as there are.

use crate::geometry::{
    dist2, lemma_unit_of, scale, scaled, unit_of, unit_vector, zero_or_unit, Point2,
};
use vstd::prelude::*;

verus! {

/// A growth tip: where it is, and the direction in which the auxins nearest
/// to it pull.  The direction is recomputed at every step.
#[derive(Clone, Copy, Debug, PartialEq, Eq, Structural)]
pub struct Vein {
    pub position: Point2,
    pub direction: Point2,
}

impl Vein {
    /// A vein at `position` that is pulled nowhere yet.
    pub fn new(position: Point2) -> (v: Vein)
        ensures
            v == (Vein { position, direction: Point2 { x: 0, y: 0 } }),
    {
        Vein { position, direction: Point2 { x: 0, y: 0 } }
    }
}

/// Vein `k` is the nearest to `p`: no vein is closer, and every vein before
/// it is strictly farther.
pub open spec fn is_nearest(veins: Seq<Vein>, p: Point2, k: int) -> bool {
    &&& 0 <= k < veins.len()
    &&& forall|j: int|
        0 <= j < veins.len() ==> dist2(veins[k].position, p) <= dist2(
            (#[trigger] veins[j]).position,
            p,
        )
    &&& forall|j: int|
        0 <= j < k ==> dist2(veins[k].position, p) < dist2((#[trigger] veins[j]).position, p)
}

/// The index of the vein nearest to `p`, the first of them where several are
/// equally near.  Meaningful where there is a vein at all.
pub open spec fn nearest(veins: Seq<Vein>, p: Point2) -> int {
    choose|k: int| is_nearest(veins, p, k)
}

/// The sum of the vectors from vein `i` to each auxin that it is nearest to.
pub open spec fn pull(veins: Seq<Vein>, auxins: Seq<Point2>, i: int) -> (int, int)
    decreases auxins.len(),
{
    if auxins.len() == 0 {
        (0, 0)
    } else {
        let rest = pull(veins, auxins.drop_last(), i);
        let a = auxins.last();
        if nearest(veins, a) == i {
            (rest.0 + (a.x - veins[i].position.x), rest.1 + (a.y - veins[i].position.y))
        } else {
            rest
        }
    }
}

/// The direction in which the auxins pull vein `i`: the unit vector along
/// its pull, or zero where the pull is zero.
pub open spec fn direction_toward(veins: Seq<Vein>, auxins: Seq<Point2>, i: int) -> Point2 {
    unit_of(pull(veins, auxins, i).0, pull(veins, auxins, i).1)
}

/// The network with every vein turned toward its auxins.
pub open spec fn directed(veins: Seq<Vein>, auxins: Seq<Point2>) -> Seq<Vein> {
    Seq::new(
        veins.len(),
        |i: int| Vein { position: veins[i].position, direction: direction_toward(veins, auxins, i) },
    )
}

/// Whether the vein is pulled anywhere, and so grows.
pub open spec fn sprouting(v: Vein) -> bool {
    v.direction != (Point2 { x: 0, y: 0 })
}

/// Where the vein's tip lies after a step of `2 * radius` along its
/// direction.
pub open spec fn tip(v: Vein, radius: int) -> (int, int) {
    (
        v.position.x + scaled(v.direction.x as int, 2 * radius),
        v.position.y + scaled(v.direction.y as int, 2 * radius),
    )
}

/// Whether the vein's tip is a point of the lattice.
pub open spec fn has_room(v: Vein, radius: int) -> bool {
    &&& i32::MIN <= tip(v, radius).0 <= i32::MAX
    &&& i32::MIN <= tip(v, radius).1 <= i32::MAX
}

/// The vein that grows from `v`: it stands at the tip, pulled nowhere yet.
pub open spec fn sprout(v: Vein, radius: int) -> Vein {
    Vein {
        position: Point2 { x: tip(v, radius).0 as i32, y: tip(v, radius).1 as i32 },
        direction: Point2 { x: 0, y: 0 },
    }
}

/// Whether `v` is the vein that grows from some vein of the network.
pub open spec fn grows_from(veins: Seq<Vein>, radius: int, v: Vein) -> bool {
    exists|i: int|
        0 <= i < veins.len() && sprouting(#[trigger] veins[i]) && v == sprout(veins[i], radius)
}

/// The veins that grow, in the order of the network.
pub open spec fn growing(veins: Seq<Vein>) -> Seq<Vein> {
    veins.filter(|v: Vein| sprouting(v))
}

/// The new veins of one step: one from each vein that grows.
pub open spec fn sprouts(veins: Seq<Vein>, radius: int) -> Seq<Vein> {
    growing(veins).map_values(|v: Vein| sprout(v, radius))
}

/// The network after the new veins of one step have joined it.
pub open spec fn grown(veins: Seq<Vein>, radius: int) -> Seq<Vein> {
    veins + sprouts(veins, radius)
}

/// Among one or more veins, one is the nearest to any given point: the
/// index that `nearest` names minimizes the distance, and is the earliest
/// index that does.
pub proof fn lemma_nearest(veins: Seq<Vein>, p: Point2)
    requires
        veins.len() > 0,
    ensures
        is_nearest(veins, p, nearest(veins, p)),
    decreases veins.len(),
{
    if veins.len() == 1 {
        assert(is_nearest(veins, p, 0));
    } else {
        let head = veins.drop_last();
        lemma_nearest(head, p);
        let k = nearest(head, p);
        let last = veins.len() - 1;
        assert(forall|j: int| 0 <= j < head.len() ==> head[j] == veins[j]);
        if dist2(veins[last].position, p) < dist2(veins[k].position, p) {
            assert forall|j: int| 0 <= j < last implies dist2(veins[last].position, p) < dist2(
                (#[trigger] veins[j]).position,
                p,
            ) by {
                assert(head[j] == veins[j]);
            }
            assert(is_nearest(veins, p, last));
        } else {
            assert forall|j: int| 0 <= j < veins.len() implies dist2(veins[k].position, p) <= dist2(
                (#[trigger] veins[j]).position,
                p,
            ) by {
                if j < last {
                    assert(head[j] == veins[j]);
                }
            }
            assert forall|j: int| 0 <= j < k implies dist2(veins[k].position, p) < dist2(
                (#[trigger] veins[j]).position,
                p,
            ) by {
                assert(head[j] == veins[j]);
            }
            assert(is_nearest(veins, p, k));
        }
    }
}

/// No two veins are both the nearest to a point.
pub proof fn lemma_nearest_unique(veins: Seq<Vein>, p: Point2, k: int)
    requires
        is_nearest(veins, p, k),
    ensures
        nearest(veins, p) == k,
{
    let n = nearest(veins, p);
    assert(is_nearest(veins, p, n));
    if n < k {
        assert(dist2(veins[k].position, p) < dist2(veins[n].position, p));
        assert(dist2(veins[n].position, p) <= dist2(veins[k].position, p));
    } else if k < n {
        assert(dist2(veins[n].position, p) < dist2(veins[k].position, p));
        assert(dist2(veins[k].position, p) <= dist2(veins[n].position, p));
    }
}

/// A vein that no auxin lies beyond, on one side, is not pulled to that side.
pub proof fn lemma_pull_side(veins: Seq<Vein>, auxins: Seq<Point2>, i: int)
    ensures
        (forall|j: int| 0 <= j < auxins.len() ==> (#[trigger] auxins[j]).x <= veins[i].position.x)
            ==> pull(veins, auxins, i).0 <= 0,
        (forall|j: int| 0 <= j < auxins.len() ==> (#[trigger] auxins[j]).x >= veins[i].position.x)
            ==> pull(veins, auxins, i).0 >= 0,
        (forall|j: int| 0 <= j < auxins.len() ==> (#[trigger] auxins[j]).y <= veins[i].position.y)
            ==> pull(veins, auxins, i).1 <= 0,
        (forall|j: int| 0 <= j < auxins.len() ==> (#[trigger] auxins[j]).y >= veins[i].position.y)
            ==> pull(veins, auxins, i).1 >= 0,
    decreases auxins.len(),
{
    if auxins.len() > 0 {
        let head = auxins.drop_last();
        lemma_pull_side(veins, head, i);
        assert(forall|j: int| 0 <= j < head.len() ==> head[j] == auxins[j]);
        assert(auxins.last() == auxins[auxins.len() - 1]);
    }
}

/// Every new vein of a step grows from a vein of the network that is pulled
/// somewhere, and there are as many new veins as there are such veins.
pub proof fn lemma_sprouts(veins: Seq<Vein>, radius: int)
    ensures
        sprouts(veins, radius).len() == growing(veins).len(),
        growing(veins).len() <= veins.len(),
        forall|k: int|
            0 <= k < sprouts(veins, radius).len() ==> grows_from(
                veins,
                radius,
                #[trigger] sprouts(veins, radius)[k],
            ),
{
    let pulled = |v: Vein| sprouting(v);
    veins.lemma_filter_len(pulled);
    assert forall|k: int| 0 <= k < sprouts(veins, radius).len() implies grows_from(
        veins,
        radius,
        #[trigger] sprouts(veins, radius)[k],
    ) by {
        let v = growing(veins)[k];
        veins.lemma_filter_pred(pulled, k);
        assert(growing(veins).contains(v));
        veins.lemma_filter_contains_rev(pulled, v);
        let i = choose|i: int| 0 <= i < veins.len() && veins[i] == v;
        assert(sprouting(veins[i]) && sprouts(veins, radius)[k] == sprout(veins[i], radius));
    }
}

/// The index of the vein nearest to `p`; of several equally near, the first.
pub fn nearest_vein(veins: &Vec<Vein>, p: Point2) -> (k: usize)
    requires
        veins.len() > 0,
    ensures
        is_nearest(veins@, p, k as int),
        k == nearest(veins@, p),
{
    let mut closest: usize = 0;
    let mut least: u128 = veins[0].position.distance_squared(&p);
    let mut i: usize = 1;
    while i < veins.len()
        invariant
            1 <= i <= veins.len(),
            closest < i,
            least == dist2(veins@[closest as int].position, p),
            forall|j: int| 0 <= j < i ==> least <= dist2((#[trigger] veins@[j]).position, p),
            forall|j: int| 0 <= j < closest ==> least < dist2((#[trigger] veins@[j]).position, p),
        decreases veins.len() - i,
    {
        let d: u128 = veins[i].position.distance_squared(&p);
        if d < least {
            closest = i;
            least = d;
        }
        i += 1;
    }
    proof {
        lemma_nearest_unique(veins@, p, closest as int);
    }
    closest
}

/// Turns every vein toward the auxins that it is nearest to.
///
/// Each auxin pulls the one vein nearest to it, the first of several equally
/// near.  A vein's direction becomes the unit vector along the sum of the
/// vectors to its auxins, or zero where that sum is zero.  Positions stay.
pub fn calc_growth_dir(auxins: &Vec<Point2>, veins: &mut Vec<Vein>)
    ensures
        final(veins)@ == directed(old(veins)@, auxins@),
        forall|i: int|
            0 <= i < final(veins)@.len() ==> zero_or_unit((#[trigger] final(veins)@[i]).direction),
{
    let n: usize = veins.len();
    if n == 0 {
        assert(veins@ =~= directed(veins@, auxins@));
        return;
    }
    let mut pull_x: Vec<i128> = Vec::new();
    let mut pull_y: Vec<i128> = Vec::new();
    let mut i: usize = 0;
    while i < n
        invariant
            i <= n,
            pull_x@.len() == i,
            pull_y@.len() == i,
            forall|t: int| 0 <= t < i ==> pull_x@[t] == 0 && pull_y@[t] == 0,
        decreases n - i,
    {
        pull_x.push(0);
        pull_y.push(0);
        i += 1;
    }
    let mut j: usize = 0;
    while j < auxins.len()
        invariant
            j <= auxins.len(),
            *veins == *old(veins),
            veins@.len() == n,
            n > 0,
            pull_x@.len() == n,
            pull_y@.len() == n,
            forall|t: int|
                0 <= t < n ==> pull_x@[t] == pull(veins@, auxins@.take(j as int), t).0
                    && pull_y@[t] == pull(veins@, auxins@.take(j as int), t).1,
            forall|t: int|
                0 <= t < n ==> -j * 0x1_0000_0000 <= #[trigger] pull_x@[t] <= j * 0x1_0000_0000,
            forall|t: int|
                0 <= t < n ==> -j * 0x1_0000_0000 <= #[trigger] pull_y@[t] <= j * 0x1_0000_0000,
        decreases auxins.len() - j,
    {
        let a: Point2 = auxins[j];
        let k: usize = nearest_vein(veins, a);
        let p: Point2 = veins[k].position;
        proof {
            assert(auxins@.take(j + 1).drop_last() == auxins@.take(j as int));
            assert(auxins@.take(j + 1).last() == a);
        }
        let x: i128 = pull_x[k] + (a.x as i128 - p.x as i128);
        let y: i128 = pull_y[k] + (a.y as i128 - p.y as i128);
        pull_x.set(k, x);
        pull_y.set(k, y);
        j += 1;
    }
    assert(auxins@.take(j as int) == auxins@);
    let mut i: usize = 0;
    while i < n
        invariant
            i <= n,
            veins@.len() == n,
            old(veins)@.len() == n,
            pull_x@.len() == n,
            pull_y@.len() == n,
            forall|t: int|
                0 <= t < n ==> pull_x@[t] == pull(old(veins)@, auxins@, t).0 && pull_y@[t] == pull(
                    old(veins)@,
                    auxins@,
                    t,
                ).1,
            forall|t: int| i <= t < n ==> veins@[t] == old(veins)@[t],
            forall|t: int| 0 <= t < i ==> veins@[t] == directed(old(veins)@, auxins@)[t],
            forall|t: int| 0 <= t < i ==> zero_or_unit((#[trigger] veins@[t]).direction),
        decreases n - i,
    {
        let d: Point2 = unit_vector(pull_x[i], pull_y[i]);
        proof {
            lemma_unit_of(pull_x@[i as int] as int, pull_y@[i as int] as int);
        }
        let v: Vein = Vein { position: veins[i].position, direction: d };
        veins.set(i, v);
        i += 1;
    }
    assert(veins@ =~= directed(old(veins)@, auxins@));
}

/// Grows a new vein from every vein whose direction is not zero.
///
/// The new vein stands `2 * radius` along the direction of the old one and
/// has no direction yet.  The new veins join the network behind the old
/// ones, in their order; none of them grows in the same step.  The place of
/// every new vein must be a point of the lattice.
pub fn grow_new_veins(veins: &mut Vec<Vein>, radius: u32)
    requires
        forall|i: int|
            0 <= i < old(veins)@.len() && sprouting(old(veins)@[i]) ==> has_room(
                #[trigger] old(veins)@[i],
                radius as int,
            ),
    ensures
        final(veins)@ == grown(old(veins)@, radius as int),
        final(veins)@.len() == old(veins)@.len() + growing(old(veins)@).len(),
        final(veins)@.len() <= 2 * old(veins)@.len(),
{
    proof {
        lemma_sprouts(veins@, radius as int);
    }
    let mut new_veins: Vec<Vein> = Vec::new();
    let n: usize = veins.len();
    let reach: u64 = 2 * (radius as u64);
    let mut i: usize = 0;
    assert(veins@.take(0) =~= Seq::<Vein>::empty());
    assert(sprouts(Seq::<Vein>::empty(), radius as int) =~= Seq::<Vein>::empty()) by {
        reveal(Seq::filter);
    }
    while i < n
        invariant
            i <= n,
            *veins == *old(veins),
            veins@.len() == n,
            reach == 2 * radius,
            forall|t: int|
                0 <= t < n && sprouting(veins@[t]) ==> has_room(#[trigger] veins@[t], radius as int),
            new_veins@ == sprouts(veins@.take(i as int), radius as int),
        decreases n - i,
    {
        let v: Vein = veins[i];
        proof {
            let before = veins@.take(i as int);
            assert(veins@.take(i + 1) =~= before.push(v));
            before.lemma_filter_push(v, |v: Vein| sprouting(v));
            if sprouting(v) {
                assert(sprouts(before.push(v), radius as int) =~= sprouts(
                    before,
                    radius as int,
                ).push(sprout(v, radius as int)));
            }
        }
        if !v.direction.is_zero() {
            assert(has_room(veins@[i as int], radius as int));
            let x: i64 = v.position.x as i64 + scale(v.direction.x, reach);
            let y: i64 = v.position.y as i64 + scale(v.direction.y, reach);
            new_veins.push(Vein::new(Point2::new(x as i32, y as i32)));
        }
        i += 1;
    }
    assert(veins@.take(n as int) =~= veins@);
    veins.append(&mut new_veins);
}

} // verus!

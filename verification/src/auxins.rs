//! The auxin field: attractor points that are sprayed onto the viewport at
//! random and consumed by the veins that come near them.

use crate::geometry::{dist2, Point2};
use crate::veins::Vein;
use vstd::prelude::*;

verus! {

/// A source of random integers, supplied by the caller.
pub trait RandomSource {
    /// An integer drawn from `lo..hi`, each with the same chance.
    ///
    /// Nothing is assumed of the value that comes back: `place` brings it
    /// into range.
    fn draw(&mut self, lo: i32, hi: i32) -> i32;
}

/// Whether `p` lies in the viewport `[0, width) x [0, height)`.
pub open spec fn in_viewport(p: Point2, width: int, height: int) -> bool {
    0 <= p.x < width && 0 <= p.y < height
}

/// Whether every auxin lies in the viewport.
pub open spec fn all_in_viewport(auxins: Seq<Point2>, width: int, height: int) -> bool {
    forall|i: int| 0 <= i < auxins.len() ==> in_viewport(#[trigger] auxins[i], width, height)
}

/// `v` if it lies in `[0, extent)`, else the end of that range nearest to it.
pub open spec fn clamped(v: int, extent: int) -> int {
    if v < 0 {
        0
    } else if v >= extent {
        extent - 1
    } else {
        v
    }
}

/// `after` is `before` with `count` points of the viewport behind it.
pub open spec fn sprayed_onto(
    before: Seq<Point2>,
    after: Seq<Point2>,
    width: int,
    height: int,
    count: int,
) -> bool {
    &&& after.len() == before.len() + count
    &&& after.take(before.len() as int) == before
    &&& forall|i: int|
        before.len() <= i < after.len() ==> in_viewport(#[trigger] after[i], width, height)
}

/// Whether the vein is within `proximity` of the auxin `a`.
pub open spec fn reaches(v: Vein, a: Point2, proximity: int) -> bool {
    dist2(a, v.position) <= proximity * proximity
}

/// Whether any vein is within `proximity` of the auxin `a`.
pub open spec fn consumed(veins: Seq<Vein>, a: Point2, proximity: int) -> bool {
    exists|i: int| 0 <= i < veins.len() && reaches(#[trigger] veins[i], a, proximity)
}

/// The auxins that no vein consumes, in their order.
pub open spec fn survivors(auxins: Seq<Point2>, veins: Seq<Vein>, proximity: int) -> Seq<Point2> {
    auxins.filter(|a: Point2| !consumed(veins, a, proximity))
}

/// `auxins` is what is left of `before`, and of `count` points of the
/// viewport sprayed behind it, once the veins have consumed what they reach.
pub open spec fn sprayed_and_culled(
    before: Seq<Point2>,
    auxins: Seq<Point2>,
    veins: Seq<Vein>,
    width: int,
    height: int,
    count: int,
    proximity: int,
) -> bool {
    exists|sprayed: Seq<Point2>|
        #![trigger sprayed_onto(before, sprayed, width, height, count)]
        sprayed_onto(before, sprayed, width, height, count) && auxins == survivors(
            sprayed,
            veins,
            proximity,
        )
}

/// Whether `a` stands somewhere in the field and `b` somewhere behind it.
pub open spec fn in_order(auxins: Seq<Point2>, a: Point2, b: Point2) -> bool {
    exists|p: int, q: int|
        #![trigger auxins[p], auxins[q]]
        0 <= p < q < auxins.len() && auxins[p] == a && auxins[q] == b
}

/// An auxin survives exactly if it was in the field and no vein is within
/// `proximity` of it.  Of two survivors the one that came first in the field
/// comes first among the survivors.  Without veins, the whole field survives.
pub proof fn lemma_survivors(auxins: Seq<Point2>, veins: Seq<Vein>, proximity: int)
    ensures
        survivors(auxins, veins, proximity).len() <= auxins.len(),
        forall|a: Point2| #[trigger]
            survivors(auxins, veins, proximity).contains(a) <==> auxins.contains(a) && !consumed(
                veins,
                a,
                proximity,
            ),
        forall|i: int, j: int|
            0 <= i < j < survivors(auxins, veins, proximity).len() ==> in_order(
                auxins,
                #[trigger] survivors(auxins, veins, proximity)[i],
                #[trigger] survivors(auxins, veins, proximity)[j],
            ),
        veins.len() == 0 ==> survivors(auxins, veins, proximity) == auxins,
    decreases auxins.len(),
{
    let free = |a: Point2| !consumed(veins, a, proximity);
    let kept = survivors(auxins, veins, proximity);
    reveal(Seq::filter);
    if auxins.len() == 0 {
        assert(kept =~= auxins);
    } else {
        let head = auxins.drop_last();
        let last = auxins.last();
        let kept_head = survivors(head, veins, proximity);
        lemma_survivors(head, veins, proximity);
        assert(forall|t: int| 0 <= t < head.len() ==> head[t] == auxins[t]);
        assert forall|a: Point2| #[trigger] kept.contains(a) <==> auxins.contains(a) && !consumed(
            veins,
            a,
            proximity,
        ) by {
            if kept.contains(a) {
                let t = choose|t: int| 0 <= t < kept.len() && kept[t] == a;
                if t < kept_head.len() {
                    assert(kept_head[t] == a);
                    assert(kept_head.contains(a));
                    let u = choose|u: int| 0 <= u < head.len() && head[u] == a;
                    assert(auxins[u] == a);
                } else {
                    assert(a == last);
                    assert(auxins[auxins.len() - 1] == a);
                }
            }
            if auxins.contains(a) && free(a) {
                let u = choose|u: int| 0 <= u < auxins.len() && auxins[u] == a;
                if u < head.len() {
                    assert(head[u] == a);
                    assert(head.contains(a));
                    assert(kept_head.contains(a));
                    let t = choose|t: int| 0 <= t < kept_head.len() && kept_head[t] == a;
                    assert(kept[t] == a);
                } else {
                    assert(kept[kept.len() - 1] == a);
                }
            }
        }
        assert forall|i: int, j: int| 0 <= i < j < kept.len() implies in_order(
            auxins,
            #[trigger] kept[i],
            #[trigger] kept[j],
        ) by {
            if j < kept_head.len() {
                assert(kept_head[i] == kept[i] && kept_head[j] == kept[j]);
                assert(in_order(head, kept_head[i], kept_head[j]));
                let (p, q) = choose|p: int, q: int|
                    #![trigger head[p], head[q]]
                    0 <= p < q < head.len() && head[p] == kept_head[i] && head[q] == kept_head[j];
                assert(0 <= p < q < auxins.len() && auxins[p] == kept[i] && auxins[q] == kept[j]);
            } else {
                assert(kept_head[i] == kept[i]);
                assert(kept_head.contains(kept[i]));
                assert(head.contains(kept[i]));
                let p = choose|p: int| 0 <= p < head.len() && head[p] == kept[i];
                let q = auxins.len() - 1;
                assert(0 <= p < q < auxins.len() && auxins[p] == kept[i] && auxins[q] == kept[j]);
            }
        }
        if veins.len() == 0 {
            assert(free(last));
            assert(kept =~= auxins);
        }
    }
}

/// The point of the viewport for a pair of drawn coordinates: each is kept
/// where it lies in range, and else moved to the nearest edge.
pub fn place(x: i32, y: i32, width: i32, height: i32) -> (p: Point2)
    requires
        width > 0,
        height > 0,
    ensures
        p.x == clamped(x as int, width as int),
        p.y == clamped(y as int, height as int),
        in_viewport(p, width as int, height as int),
{
    let px: i32 = if x < 0 {
        0
    } else if x >= width {
        width - 1
    } else {
        x
    };
    let py: i32 = if y < 0 {
        0
    } else if y >= height {
        height - 1
    } else {
        y
    };
    Point2 { x: px, y: py }
}

/// Appends `spray_rate` auxins at points of the viewport drawn from `rng`.
///
/// The field keeps what it held, in front of the new points.
pub fn spray_auxins<R: RandomSource>(
    rng: &mut R,
    auxins: &mut Vec<Point2>,
    width: i32,
    height: i32,
    spray_rate: usize,
)
    requires
        width > 0,
        height > 0,
    ensures
        sprayed_onto(
            old(auxins)@,
            final(auxins)@,
            width as int,
            height as int,
            spray_rate as int,
        ),
{
    let mut i: usize = 0;
    assert(auxins@.take(auxins@.len() as int) =~= auxins@);
    while i < spray_rate
        invariant
            i <= spray_rate,
            width > 0,
            height > 0,
            sprayed_onto(old(auxins)@, auxins@, width as int, height as int, i as int),
        decreases spray_rate - i,
    {
        let x: i32 = rng.draw(0, width);
        let y: i32 = rng.draw(0, height);
        let p: Point2 = place(x, y, width, height);
        let ghost before = auxins@;
        auxins.push(p);
        assert(auxins@.take(old(auxins)@.len() as int) =~= before.take(old(auxins)@.len() as int));
        i += 1;
    }
}

/// Whether any vein is within `proximity` of the auxin.
pub fn is_consumed(auxin: Point2, veins: &Vec<Vein>, proximity: u32) -> (b: bool)
    ensures
        b == consumed(veins@, auxin, proximity as int),
{
    assert(0 <= proximity * proximity <= 0xffff_ffff * 0xffff_ffff) by (nonlinear_arith)
        requires
            0 <= proximity <= 0xffff_ffff,
    ;
    let limit: u128 = (proximity as u128) * (proximity as u128);
    let mut i: usize = 0;
    while i < veins.len()
        invariant
            i <= veins.len(),
            limit == proximity * proximity,
            forall|t: int| 0 <= t < i ==> !reaches(#[trigger] veins@[t], auxin, proximity as int),
        decreases veins.len() - i,
    {
        if auxin.distance_squared(&veins[i].position) <= limit {
            assert(reaches(veins@[i as int], auxin, proximity as int));
            return true;
        }
        i += 1;
    }
    false
}

/// Removes every auxin that lies within `proximity` of any vein.
///
/// The auxins that stay keep their order.  Where there is no vein, all stay.
pub fn kill_auxins_by_vein_proximity(auxins: &mut Vec<Point2>, veins: &Vec<Vein>, proximity: u32)
    ensures
        final(auxins)@ == survivors(old(auxins)@, veins@, proximity as int),
{
    let mut kept: Vec<Point2> = Vec::new();
    let n: usize = auxins.len();
    let mut i: usize = 0;
    assert(auxins@.take(0) =~= Seq::<Point2>::empty());
    assert(survivors(Seq::<Point2>::empty(), veins@, proximity as int) =~= Seq::<Point2>::empty())
        by {
        reveal(Seq::filter);
    }
    while i < n
        invariant
            i <= n,
            *auxins == *old(auxins),
            auxins@.len() == n,
            kept@ == survivors(auxins@.take(i as int), veins@, proximity as int),
        decreases n - i,
    {
        let a: Point2 = auxins[i];
        proof {
            let before = auxins@.take(i as int);
            assert(auxins@.take(i + 1) =~= before.push(a));
            before.lemma_filter_push(a, |a: Point2| !consumed(veins@, a, proximity as int));
        }
        if !is_consumed(a, veins, proximity) {
            kept.push(a);
        }
        i += 1;
    }
    assert(auxins@.take(n as int) =~= auxins@);
    *auxins = kept;
}

} // verus!

//! The two transitions of the simulation: a reset to the initial state and
//! one step of growth.
//!
//! The caller owns the network and the field and lends both to a transition
//! for as long as it runs, so nothing else reads or changes them meanwhile.
//! The simulation never advances by itself.

use crate::auxins::{
    all_in_viewport, consumed, in_viewport, kill_auxins_by_vein_proximity, lemma_survivors,
    spray_auxins, sprayed_and_culled, sprayed_onto, survivors, RandomSource,
};
use crate::geometry::{lemma_scaled_bound, lemma_unit_bounds, lemma_unit_of, Point2};
use crate::veins::{
    calc_growth_dir, directed, grow_new_veins, grown, grows_from, has_room, lemma_pull_side,
    lemma_sprouts, pull, sprout, sprouting, sprouts, Vein,
};
use vstd::prelude::*;

verus! {

/// The least proximity within which auxins may be consumed.
pub const MIN_PROXIMITY: u32 = 20;

/// What can be wrong with the settings of a simulation.
#[derive(Clone, Copy, Debug, PartialEq, Eq, Structural)]
pub enum SettingsError {
    /// Veins and auxins do not have the same radius.
    RadiiDiffer,
    /// The proximity is below `MIN_PROXIMITY`.
    ProximityTooSmall,
}

/// Whether the settings fit together, and else the first fault: the radii
/// are looked at before the proximity.
pub open spec fn settings_checked(vein_radius: u32, auxin_radius: u32, proximity: u32) -> Result<
    (),
    SettingsError,
> {
    if vein_radius != auxin_radius {
        Err(SettingsError::RadiiDiffer)
    } else if proximity < MIN_PROXIMITY {
        Err(SettingsError::ProximityTooSmall)
    } else {
        Ok(())
    }
}

/// Where the root vein stands: half way across the viewport, two thirds of
/// the way down.
pub open spec fn root(width: int, height: int) -> Vein {
    Vein {
        position: Point2 { x: (width / 2) as i32, y: (height * 2 / 3) as i32 },
        direction: Point2 { x: 0, y: 0 },
    }
}

/// The state after a reset: the root vein alone, and of `spray_rate` points
/// sprayed onto the viewport those that the root does not consume.
pub open spec fn is_initial(
    veins: Seq<Vein>,
    auxins: Seq<Point2>,
    width: int,
    height: int,
    proximity: int,
    spray_rate: int,
) -> bool {
    &&& veins == seq![root(width, height)]
    &&& sprayed_and_culled(
        Seq::<Point2>::empty(),
        auxins,
        veins,
        width,
        height,
        spray_rate,
        proximity,
    )
}

/// Whether `p` lies in the viewport or at most `margin` outside it.
pub open spec fn within_margin(p: Point2, width: int, height: int, margin: int) -> bool {
    &&& -margin <= p.x <= width - 1 + margin
    &&& -margin <= p.y <= height - 1 + margin
}

/// Whether every auxin lies in the viewport and every vein at most `margin`
/// outside it.
pub open spec fn contained(
    veins: Seq<Vein>,
    auxins: Seq<Point2>,
    width: int,
    height: int,
    margin: int,
) -> bool {
    &&& all_in_viewport(auxins, width, height)
    &&& forall|i: int|
        0 <= i < veins.len() ==> within_margin(
            (#[trigger] veins[i]).position,
            width,
            height,
            margin,
        )
}

/// Whether a step of `2 * radius` from `p`, in any direction, ends at a point
/// of the lattice.
pub open spec fn has_clearance(p: Point2, radius: int) -> bool {
    &&& i32::MIN + 2 * radius <= p.x <= i32::MAX - 2 * radius
    &&& i32::MIN + 2 * radius <= p.y <= i32::MAX - 2 * radius
}

/// Whether every vein has clearance for a step of `2 * radius`.
pub open spec fn all_clear(veins: Seq<Vein>, radius: int) -> bool {
    forall|i: int| 0 <= i < veins.len() ==> has_clearance((#[trigger] veins[i]).position, radius)
}

/// The state after a reset holds at most `spray_rate` auxins, each in the
/// viewport and none within `proximity` of the root, which stands in the
/// viewport too.
pub proof fn lemma_initial(
    veins: Seq<Vein>,
    auxins: Seq<Point2>,
    width: int,
    height: int,
    proximity: int,
    spray_rate: int,
)
    requires
        0 < width <= i32::MAX,
        0 < height <= i32::MAX,
        is_initial(veins, auxins, width, height, proximity, spray_rate),
    ensures
        auxins.len() <= spray_rate,
        forall|i: int| 0 <= i < auxins.len() ==> !consumed(veins, #[trigger] auxins[i], proximity),
        contained(veins, auxins, width, height, 0),
{
    let sprayed = choose|sprayed: Seq<Point2>|
        #![trigger sprayed_onto(Seq::<Point2>::empty(), sprayed, width, height, spray_rate)]
        sprayed_onto(Seq::<Point2>::empty(), sprayed, width, height, spray_rate) && auxins
            == survivors(sprayed, veins, proximity);
    lemma_survivors(sprayed, veins, proximity);
    assert forall|i: int| 0 <= i < auxins.len() implies in_viewport(
        #[trigger] auxins[i],
        width,
        height,
    ) && !consumed(veins, auxins[i], proximity) by {
        let a = auxins[i];
        assert(auxins.contains(a));
        assert(sprayed.contains(a));
        let t = choose|t: int| 0 <= t < sprayed.len() && sprayed[t] == a;
        assert(in_viewport(sprayed[t], width, height));
    }
    assert(veins[0] == root(width, height));
}

/// A reset leaves the same network whatever it found, and a field that
/// answers the same description: at most `spray_rate` auxins, each in the
/// viewport and none within `proximity` of the root.  So the states after one
/// reset and after a second one do not differ but in the points drawn.
pub proof fn lemma_reset_twice(
    veins: Seq<Vein>,
    auxins: Seq<Point2>,
    veins_again: Seq<Vein>,
    auxins_again: Seq<Point2>,
    width: int,
    height: int,
    proximity: int,
    spray_rate: int,
)
    requires
        0 < width <= i32::MAX,
        0 < height <= i32::MAX,
        is_initial(veins, auxins, width, height, proximity, spray_rate),
        is_initial(veins_again, auxins_again, width, height, proximity, spray_rate),
    ensures
        veins_again == veins,
        veins == seq![root(width, height)],
        auxins.len() <= spray_rate,
        auxins_again.len() <= spray_rate,
        all_in_viewport(auxins, width, height),
        all_in_viewport(auxins_again, width, height),
        forall|i: int| 0 <= i < auxins.len() ==> !consumed(veins, #[trigger] auxins[i], proximity),
        forall|i: int|
            0 <= i < auxins_again.len() ==> !consumed(veins, #[trigger] auxins_again[i], proximity),
{
    lemma_initial(veins, auxins, width, height, proximity, spray_rate);
    lemma_initial(veins_again, auxins_again, width, height, proximity, spray_rate);
}

/// A network whose auxins lie in the viewport never grows farther out of it
/// than one step: a vein at most `2 * radius` outside is not pulled away
/// from the viewport, and a vein inside grows by `2 * radius` at most.
pub proof fn lemma_growth_contained(
    veins: Seq<Vein>,
    auxins: Seq<Point2>,
    width: int,
    height: int,
    radius: int,
)
    requires
        0 < width,
        0 < height,
        0 <= radius,
        contained(veins, auxins, width, height, 2 * radius),
        all_clear(veins, radius),
    ensures
        contained(grown(directed(veins, auxins), radius), auxins, width, height, 2 * radius),
{
    let turned = directed(veins, auxins);
    let after = grown(turned, radius);
    lemma_sprouts(turned, radius);
    assert forall|k: int| 0 <= k < after.len() implies within_margin(
        (#[trigger] after[k]).position,
        width,
        height,
        2 * radius,
    ) by {
        if k < turned.len() {
            assert(after[k] == turned[k]);
            assert(turned[k].position == veins[k].position);
        } else {
            let new = sprouts(turned, radius)[k - turned.len()];
            assert(after[k] == new);
            assert(grows_from(turned, radius, new));
            let i = choose|i: int|
                0 <= i < turned.len() && sprouting(#[trigger] turned[i]) && new == sprout(
                    turned[i],
                    radius,
                );
            let p = veins[i].position;
            let d = turned[i].direction;
            assert(turned[i].position == p);
            assert(has_clearance(p, radius));
            assert(within_margin(p, width, height, 2 * radius));
            lemma_pull_side(veins, auxins, i);
            lemma_unit_of(pull(veins, auxins, i).0, pull(veins, auxins, i).1);
            lemma_scaled_bound(d.x as int, 2 * radius);
            lemma_scaled_bound(d.y as int, 2 * radius);
            if p.x >= width - 1 {
                assert(forall|j: int| 0 <= j < auxins.len() ==> (#[trigger] auxins[j]).x <= p.x);
            }
            if p.x <= 0 {
                assert(forall|j: int| 0 <= j < auxins.len() ==> (#[trigger] auxins[j]).x >= p.x);
            }
            if p.y >= height - 1 {
                assert(forall|j: int| 0 <= j < auxins.len() ==> (#[trigger] auxins[j]).y <= p.y);
            }
            if p.y <= 0 {
                assert(forall|j: int| 0 <= j < auxins.len() ==> (#[trigger] auxins[j]).y >= p.y);
            }
        }
    }
}

/// On a viewport that leaves two steps of room to the edge of the lattice, a
/// contained network has clearance for its next step.
pub proof fn lemma_contained_is_clear(
    veins: Seq<Vein>,
    auxins: Seq<Point2>,
    width: int,
    height: int,
    radius: int,
)
    requires
        0 < width,
        0 < height,
        0 <= radius,
        width - 1 + 4 * radius <= i32::MAX,
        height - 1 + 4 * radius <= i32::MAX,
        contained(veins, auxins, width, height, 2 * radius),
    ensures
        all_clear(veins, radius),
{
    assert forall|i: int| 0 <= i < veins.len() implies has_clearance(
        (#[trigger] veins[i]).position,
        radius,
    ) by {
        assert(within_margin(veins[i].position, width, height, 2 * radius));
    }
}

/// Checks the settings once, before the simulation starts: veins and auxins
/// have the same radius, and the proximity is at least `MIN_PROXIMITY`.
pub fn check_settings(vein_radius: u32, auxin_radius: u32, proximity: u32) -> (r: Result<
    (),
    SettingsError,
>)
    ensures
        r == settings_checked(vein_radius, auxin_radius, proximity),
{
    if vein_radius != auxin_radius {
        Err(SettingsError::RadiiDiffer)
    } else if proximity < MIN_PROXIMITY {
        Err(SettingsError::ProximityTooSmall)
    } else {
        Ok(())
    }
}

/// Whether every vein has clearance for a step of `2 * radius`, so that the
/// network can take one.
pub fn can_step(veins: &Vec<Vein>, radius: u32) -> (b: bool)
    ensures
        b == all_clear(veins@, radius as int),
{
    let reach: i64 = 2 * (radius as i64);
    let mut i: usize = 0;
    while i < veins.len()
        invariant
            i <= veins.len(),
            reach == 2 * radius,
            forall|t: int|
                0 <= t < i ==> has_clearance((#[trigger] veins@[t]).position, radius as int),
        decreases veins.len() - i,
    {
        let p: Point2 = veins[i].position;
        let x: i64 = p.x as i64;
        let y: i64 = p.y as i64;
        let low: i64 = i32::MIN as i64 + reach;
        let high: i64 = i32::MAX as i64 - reach;
        if x < low || x > high || y < low || y > high {
            assert(!has_clearance(veins@[i as int].position, radius as int));
            return false;
        }
        i += 1;
    }
    true
}

/// Puts the simulation into its initial state.
///
/// The network becomes the root vein alone.  The field becomes `spray_rate`
/// points drawn from `rng`, without those within `proximity` of the root.
/// What the two collections held before is dropped.
pub fn init<R: RandomSource>(
    rng: &mut R,
    auxins: &mut Vec<Point2>,
    veins: &mut Vec<Vein>,
    width: i32,
    height: i32,
    proximity: u32,
    auxin_spray_rate: usize,
)
    requires
        width > 0,
        height > 0,
    ensures
        is_initial(
            final(veins)@,
            final(auxins)@,
            width as int,
            height as int,
            proximity as int,
            auxin_spray_rate as int,
        ),
        final(auxins)@.len() <= auxin_spray_rate,
        forall|i: int|
            0 <= i < final(auxins)@.len() ==> !consumed(
                final(veins)@,
                #[trigger] final(auxins)@[i],
                proximity as int,
            ),
        contained(final(veins)@, final(auxins)@, width as int, height as int, 0),
{
    veins.clear();
    auxins.clear();
    let x: i32 = width / 2;
    let y: i32 = ((height as i64) * 2 / 3) as i32;
    veins.push(Vein::new(Point2::new(x, y)));
    assert(veins@ =~= seq![root(width as int, height as int)]);
    spray_auxins(rng, auxins, width, height, auxin_spray_rate);
    let ghost sprayed = auxins@;
    kill_auxins_by_vein_proximity(auxins, veins, proximity);
    proof {
        assert(sprayed_onto(
            Seq::<Point2>::empty(),
            sprayed,
            width as int,
            height as int,
            auxin_spray_rate as int,
        ));
        lemma_initial(
            veins@,
            auxins@,
            width as int,
            height as int,
            proximity as int,
            auxin_spray_rate as int,
        );
    }
}

/// Advances the simulation by one step.
///
/// Every vein turns toward the auxins nearest to it; every vein that is
/// pulled anywhere grows a new vein `2 * vein_radius` along its direction;
/// `spray_rate` new auxins are drawn from `rng`; and every auxin within
/// `proximity` of a vein, old or new, is removed.
///
/// Every vein needs clearance for a step, which `can_step` tests.  A state
/// whose auxins lie in the viewport, and whose veins lie at most one step
/// outside it, is followed by such a state; so on a viewport that leaves two
/// steps of room to the edge of the lattice, a simulation that began with
/// `init` has clearance for every step: see `lemma_contained_is_clear`.
pub fn calc_venation_step<R: RandomSource>(
    rng: &mut R,
    auxins: &mut Vec<Point2>,
    veins: &mut Vec<Vein>,
    width: i32,
    height: i32,
    vein_radius: u32,
    auxin_spray_rate: usize,
    proximity: u32,
)
    requires
        width > 0,
        height > 0,
        all_clear(old(veins)@, vein_radius as int),
    ensures
        final(veins)@ == grown(directed(old(veins)@, old(auxins)@), vein_radius as int),
        final(veins)@.len() >= old(veins)@.len(),
        forall|i: int|
            0 <= i < old(veins)@.len() ==> (#[trigger] final(veins)@[i]).position
                == old(veins)@[i].position,
        sprayed_and_culled(
            old(auxins)@,
            final(auxins)@,
            final(veins)@,
            width as int,
            height as int,
            auxin_spray_rate as int,
            proximity as int,
        ),
        contained(old(veins)@, old(auxins)@, width as int, height as int, 2 * vein_radius)
            ==> contained(
            final(veins)@,
            final(auxins)@,
            width as int,
            height as int,
            2 * vein_radius,
        ),
{
    calc_growth_dir(auxins, veins);
    proof {
        assert forall|i: int| 0 <= i < veins@.len() implies has_room(
            #[trigger] veins@[i],
            vein_radius as int,
        ) by {
            let v = veins@[i];
            assert(v.position == old(veins)@[i].position);
            assert(has_clearance(old(veins)@[i].position, vein_radius as int));
            lemma_unit_bounds(v.direction);
            lemma_scaled_bound(v.direction.x as int, 2 * vein_radius);
            lemma_scaled_bound(v.direction.y as int, 2 * vein_radius);
        }
    }
    grow_new_veins(veins, vein_radius);
    spray_auxins(rng, auxins, width, height, auxin_spray_rate);
    let ghost sprayed = auxins@;
    kill_auxins_by_vein_proximity(auxins, veins, proximity);
    proof {
        assert(sprayed_onto(
            old(auxins)@,
            sprayed,
            width as int,
            height as int,
            auxin_spray_rate as int,
        ));
        if contained(old(veins)@, old(auxins)@, width as int, height as int, 2 * vein_radius) {
            lemma_growth_contained(
                old(veins)@,
                old(auxins)@,
                width as int,
                height as int,
                vein_radius as int,
            );
            lemma_survivors(sprayed, veins@, proximity as int);
            assert forall|i: int| 0 <= i < sprayed.len() implies in_viewport(
                #[trigger] sprayed[i],
                width as int,
                height as int,
            ) by {
                if i < old(auxins)@.len() {
                    assert(sprayed.take(old(auxins)@.len() as int)[i] == sprayed[i]);
                }
            }
            assert forall|i: int| 0 <= i < auxins@.len() implies in_viewport(
                #[trigger] auxins@[i],
                width as int,
                height as int,
            ) by {
                let a = auxins@[i];
                assert(auxins@.contains(a));
                assert(sprayed.contains(a));
                let t = choose|t: int| 0 <= t < sprayed.len() && sprayed[t] == a;
                assert(in_viewport(sprayed[t], width as int, height as int));
            }
        }
    }
}

} // verus!

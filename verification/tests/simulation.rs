use venation::auxins::RandomSource;
use venation::geometry::{Point2, UNIT};
use venation::simulation::{
    calc_venation_step, can_step, check_settings, init, SettingsError, MIN_PROXIMITY,
};
use venation::veins::Vein;

/// Hands out the values of a list, over and over.
struct Listed {
    values: Vec<i32>,
    next: usize,
}

impl Listed {
    fn new(values: Vec<i32>) -> Listed {
        Listed { values, next: 0 }
    }
}

impl RandomSource for Listed {
    fn draw(&mut self, _lo: i32, _hi: i32) -> i32 {
        let v = self.values[self.next % self.values.len()];
        self.next += 1;
        v
    }
}

/// A small generator of its own, to scatter points.
struct Scatter {
    state: u64,
}

impl RandomSource for Scatter {
    fn draw(&mut self, lo: i32, hi: i32) -> i32 {
        self.state = self.state.wrapping_mul(6364136223846793005).wrapping_add(1442695040888963407);
        let span = (hi as i64 - lo as i64) as u64;
        (lo as i64 + ((self.state >> 33) % span) as i64) as i32
    }
}

fn vein_at(x: i32, y: i32) -> Vein {
    Vein::new(Point2::new(x, y))
}

fn pulled(x: i32, y: i32, dx: i32, dy: i32) -> Vein {
    Vein { position: Point2::new(x, y), direction: Point2::new(dx, dy) }
}

#[test]
fn reset_seeds_the_root_vein() {
    let mut rng = Scatter { state: 1 };
    let mut auxins: Vec<Point2> = Vec::new();
    let mut veins: Vec<Vein> = Vec::new();
    init(&mut rng, &mut auxins, &mut veins, 800, 600, 30, 20);
    assert_eq!(veins, vec![vein_at(400, 400)]);
    assert!(auxins.len() <= 20);
    for a in auxins.iter() {
        assert!(0 <= a.x && a.x < 800 && 0 <= a.y && a.y < 600);
        assert!(a.distance_squared(&Point2::new(400, 400)) > 900);
    }
}

#[test]
fn reset_removes_the_auxins_on_the_root() {
    let mut rng = Listed::new(vec![400, 400, 10, 10, 430, 400, 431, 400, 400, 370, 799, 599]);
    let mut auxins: Vec<Point2> = Vec::new();
    let mut veins: Vec<Vein> = Vec::new();
    init(&mut rng, &mut auxins, &mut veins, 800, 600, 30, 6);
    assert_eq!(veins, vec![vein_at(400, 400)]);
    assert_eq!(auxins, vec![Point2::new(10, 10), Point2::new(431, 400), Point2::new(799, 599)]);
}

#[test]
fn reset_drops_the_earlier_state() {
    let mut rng = Listed::new(vec![1, 2]);
    let mut auxins = vec![Point2::new(5, 5), Point2::new(6, 6)];
    let mut veins = vec![pulled(1, 1, UNIT, 0), vein_at(2, 2), vein_at(3, 3)];
    init(&mut rng, &mut auxins, &mut veins, 90, 30, 4, 1);
    assert_eq!(veins, vec![vein_at(45, 20)]);
    assert_eq!(auxins, vec![Point2::new(1, 2)]);
}

#[test]
fn reset_twice_gives_the_same_state() {
    let mut auxins: Vec<Point2> = Vec::new();
    let mut veins: Vec<Vein> = Vec::new();
    let mut rng = Scatter { state: 7 };
    init(&mut rng, &mut auxins, &mut veins, 800, 600, 30, 20);
    let first_veins = veins.clone();
    let first_auxins = auxins.clone();
    let mut again = Scatter { state: 7 };
    init(&mut again, &mut auxins, &mut veins, 800, 600, 30, 20);
    assert_eq!(veins, first_veins);
    assert_eq!(auxins, first_auxins);
    init(&mut again, &mut auxins, &mut veins, 800, 600, 30, 20);
    assert_eq!(veins, first_veins);
    assert!(auxins.len() <= 20);
    for a in auxins.iter() {
        assert!(0 <= a.x && a.x < 800 && 0 <= a.y && a.y < 600);
        assert!(a.distance_squared(&Point2::new(400, 400)) > 900);
    }
}

#[test]
fn reset_of_odd_viewports() {
    let mut rng = Listed::new(vec![0]);
    let mut auxins: Vec<Point2> = Vec::new();
    let mut veins: Vec<Vein> = Vec::new();
    init(&mut rng, &mut auxins, &mut veins, 1, 1, 0, 0);
    assert_eq!(veins, vec![vein_at(0, 0)]);
    assert!(auxins.is_empty());
    init(&mut rng, &mut auxins, &mut veins, 801, 601, 0, 0);
    assert_eq!(veins, vec![vein_at(400, 400)]);
    init(&mut rng, &mut auxins, &mut veins, 7, 5, 0, 0);
    assert_eq!(veins, vec![vein_at(3, 3)]);
    init(&mut rng, &mut auxins, &mut veins, i32::MAX, i32::MAX, 0, 0);
    assert_eq!(veins, vec![vein_at(1073741823, 1431655764)]);
}

#[test]
fn reset_without_spray() {
    let mut rng = Listed::new(vec![0]);
    let mut auxins = vec![Point2::new(5, 5)];
    let mut veins: Vec<Vein> = Vec::new();
    init(&mut rng, &mut auxins, &mut veins, 800, 600, 30, 0);
    assert_eq!(veins, vec![vein_at(400, 400)]);
    assert!(auxins.is_empty());
}

#[test]
fn step_turns_grows_sprays_and_culls() {
    let mut rng = Listed::new(vec![440, 400, 700, 50]);
    let mut auxins = vec![Point2::new(450, 400), Point2::new(100, 100)];
    let mut veins = vec![vein_at(400, 400), vein_at(100, 140)];
    calc_venation_step(&mut rng, &mut auxins, &mut veins, 800, 600, 5, 2, 30);
    assert_eq!(
        veins,
        vec![
            pulled(400, 400, UNIT, 0),
            pulled(100, 140, 0, -UNIT),
            vein_at(410, 400),
            vein_at(100, 130),
        ]
    );
    // (450, 400) is 40 from the new vein and stays; (100, 100) is 30 from
    // the other new vein and goes; of the new auxins (440, 400) is 30 from
    // the new vein and goes
    assert_eq!(auxins, vec![Point2::new(450, 400), Point2::new(700, 50)]);
}

#[test]
fn step_culls_the_new_auxins_against_the_new_veins() {
    // the auxin sprayed at (435, 400) is 35 from the old vein and 25 from
    // the one that grows in this step
    let mut rng = Listed::new(vec![435, 400]);
    let mut auxins = vec![Point2::new(500, 400)];
    let mut veins = vec![vein_at(400, 400)];
    calc_venation_step(&mut rng, &mut auxins, &mut veins, 800, 600, 5, 1, 30);
    assert_eq!(veins, vec![pulled(400, 400, UNIT, 0), vein_at(410, 400)]);
    assert_eq!(auxins, vec![Point2::new(500, 400)]);
}

#[test]
fn step_does_not_turn_toward_the_auxins_it_sprays() {
    let mut rng = Listed::new(vec![700, 400]);
    let mut auxins: Vec<Point2> = Vec::new();
    let mut veins = vec![vein_at(400, 400)];
    calc_venation_step(&mut rng, &mut auxins, &mut veins, 800, 600, 5, 1, 30);
    assert_eq!(veins, vec![vein_at(400, 400)]);
    assert_eq!(auxins, vec![Point2::new(700, 400)]);
    calc_venation_step(&mut rng, &mut auxins, &mut veins, 800, 600, 5, 0, 30);
    assert_eq!(veins, vec![pulled(400, 400, UNIT, 0), vein_at(410, 400)]);
    assert_eq!(auxins, vec![Point2::new(700, 400)]);
}

#[test]
fn step_of_an_empty_network() {
    let mut rng = Listed::new(vec![3, 4]);
    let mut auxins = vec![Point2::new(1, 1)];
    let mut veins: Vec<Vein> = Vec::new();
    calc_venation_step(&mut rng, &mut auxins, &mut veins, 800, 600, 5, 1, 30);
    assert!(veins.is_empty());
    assert_eq!(auxins, vec![Point2::new(1, 1), Point2::new(3, 4)]);
}

#[test]
fn network_only_grows() {
    let mut rng = Scatter { state: 42 };
    let mut auxins: Vec<Point2> = Vec::new();
    let mut veins: Vec<Vein> = Vec::new();
    init(&mut rng, &mut auxins, &mut veins, 800, 600, 30, 20);
    let mut steps = 0;
    while steps < 40 {
        let before = veins.clone();
        let pulled_before = auxins.len();
        assert!(can_step(&veins, 5));
        calc_venation_step(&mut rng, &mut auxins, &mut veins, 800, 600, 5, 20, 30);
        assert!(veins.len() >= before.len());
        assert!(veins.len() <= 2 * before.len());
        assert!(auxins.len() <= pulled_before + 20);
        let mut grew = 0;
        for (i, v) in before.iter().enumerate() {
            assert_eq!(veins[i].position, v.position);
            if !veins[i].direction.is_zero() {
                grew += 1;
            }
        }
        assert_eq!(veins.len(), before.len() + grew);
        for v in veins[before.len()..].iter() {
            assert!(v.direction.is_zero());
        }
        for a in auxins.iter() {
            assert!(0 <= a.x && a.x < 800 && 0 <= a.y && a.y < 600);
            for v in veins.iter() {
                assert!(a.distance_squared(&v.position) > 900);
            }
        }
        for v in veins.iter() {
            assert!(-10 <= v.position.x && v.position.x < 810);
            assert!(-10 <= v.position.y && v.position.y < 610);
        }
        steps += 1;
    }
    assert!(veins.len() > 1);
}

#[test]
fn can_step_asks_for_clearance_on_every_side() {
    assert!(can_step(&Vec::new(), u32::MAX));
    assert!(can_step(&vec![vein_at(0, 0)], 5));
    assert!(can_step(&vec![vein_at(i32::MAX - 10, i32::MIN + 10)], 5));
    assert!(!can_step(&vec![vein_at(i32::MAX - 9, 0)], 5));
    assert!(!can_step(&vec![vein_at(0, i32::MAX - 9)], 5));
    assert!(!can_step(&vec![vein_at(i32::MIN + 9, 0)], 5));
    assert!(!can_step(&vec![vein_at(0, i32::MIN + 9)], 5));
    assert!(!can_step(&vec![vein_at(0, 0), vein_at(i32::MAX, 0)], 5));
    assert!(can_step(&vec![vein_at(i32::MAX, i32::MIN)], 0));
    assert!(!can_step(&vec![vein_at(0, 0)], u32::MAX));
    assert!(can_step(&vec![vein_at(0, 0)], 1073741823));
    assert!(!can_step(&vec![vein_at(0, 0)], 1073741824));
}

#[test]
fn can_step_ignores_the_directions() {
    assert!(can_step(&vec![pulled(0, 0, i32::MAX, i32::MIN)], 5));
}

#[test]
fn settings_that_fit() {
    assert_eq!(check_settings(5, 5, 30), Ok(()));
    assert_eq!(check_settings(0, 0, 20), Ok(()));
    assert_eq!(check_settings(u32::MAX, u32::MAX, u32::MAX), Ok(()));
    assert_eq!(MIN_PROXIMITY, 20);
}

#[test]
fn settings_with_different_radii() {
    assert_eq!(check_settings(5, 6, 30), Err(SettingsError::RadiiDiffer));
    assert_eq!(check_settings(6, 5, 30), Err(SettingsError::RadiiDiffer));
}

#[test]
fn settings_with_a_small_proximity() {
    assert_eq!(check_settings(5, 5, 19), Err(SettingsError::ProximityTooSmall));
    assert_eq!(check_settings(5, 5, 0), Err(SettingsError::ProximityTooSmall));
}

#[test]
fn settings_with_both_faults_name_the_radii() {
    assert_eq!(check_settings(5, 6, 19), Err(SettingsError::RadiiDiffer));
}

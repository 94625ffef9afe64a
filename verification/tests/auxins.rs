use venation::auxins::{
    is_consumed, kill_auxins_by_vein_proximity, place, spray_auxins, RandomSource,
};
use venation::geometry::Point2;
use venation::veins::Vein;

/// Hands out the values of a list, over and over.
struct Listed {
    values: Vec<i32>,
    next: usize,
    asked: Vec<(i32, i32)>,
}

impl Listed {
    fn new(values: Vec<i32>) -> Listed {
        Listed { values, next: 0, asked: Vec::new() }
    }
}

impl RandomSource for Listed {
    fn draw(&mut self, lo: i32, hi: i32) -> i32 {
        self.asked.push((lo, hi));
        let v = self.values[self.next % self.values.len()];
        self.next += 1;
        v
    }
}

fn vein_at(x: i32, y: i32) -> Vein {
    Vein::new(Point2::new(x, y))
}

#[test]
fn place_keeps_a_point_of_the_viewport() {
    assert_eq!(place(0, 0, 800, 600), Point2::new(0, 0));
    assert_eq!(place(799, 599, 800, 600), Point2::new(799, 599));
    assert_eq!(place(123, 456, 800, 600), Point2::new(123, 456));
}

#[test]
fn place_moves_a_point_to_the_nearest_edge() {
    assert_eq!(place(800, 600, 800, 600), Point2::new(799, 599));
    assert_eq!(place(-1, -1, 800, 600), Point2::new(0, 0));
    assert_eq!(place(i32::MAX, i32::MIN, 800, 600), Point2::new(799, 0));
    assert_eq!(place(5, 700, 800, 600), Point2::new(5, 599));
    assert_eq!(place(-5, 7, 800, 600), Point2::new(0, 7));
}

#[test]
fn place_in_the_smallest_viewport() {
    assert_eq!(place(0, 0, 1, 1), Point2::new(0, 0));
    assert_eq!(place(17, -3, 1, 1), Point2::new(0, 0));
}

#[test]
fn spray_appends_the_drawn_points() {
    let mut rng = Listed::new(vec![1, 2, 3, 4, 5, 6]);
    let mut auxins = vec![Point2::new(9, 9)];
    spray_auxins(&mut rng, &mut auxins, 800, 600, 3);
    assert_eq!(
        auxins,
        vec![Point2::new(9, 9), Point2::new(1, 2), Point2::new(3, 4), Point2::new(5, 6)]
    );
}

#[test]
fn spray_asks_for_the_width_then_the_height() {
    let mut rng = Listed::new(vec![0]);
    let mut auxins: Vec<Point2> = Vec::new();
    spray_auxins(&mut rng, &mut auxins, 800, 600, 2);
    assert_eq!(rng.asked, vec![(0, 800), (0, 600), (0, 800), (0, 600)]);
}

#[test]
fn spray_of_nothing() {
    let mut rng = Listed::new(vec![1]);
    let mut auxins = vec![Point2::new(9, 9)];
    spray_auxins(&mut rng, &mut auxins, 800, 600, 0);
    assert_eq!(auxins, vec![Point2::new(9, 9)]);
    assert!(rng.asked.is_empty());
}

#[test]
fn spray_keeps_what_the_field_held() {
    let mut rng = Listed::new(vec![10, 20]);
    let before = vec![Point2::new(-5, 2000), Point2::new(1, 1), Point2::new(1, 1)];
    let mut auxins = before.clone();
    spray_auxins(&mut rng, &mut auxins, 800, 600, 20);
    assert_eq!(auxins.len(), 23);
    assert_eq!(auxins[..3].to_vec(), before);
}

#[test]
fn spray_stays_in_the_viewport_whatever_is_drawn() {
    let mut rng = Listed::new(vec![-1, 600, 800, -7, i32::MAX, i32::MIN, 799, 599, 0, 0]);
    let mut auxins: Vec<Point2> = Vec::new();
    spray_auxins(&mut rng, &mut auxins, 800, 600, 5);
    assert_eq!(
        auxins,
        vec![
            Point2::new(0, 599),
            Point2::new(799, 0),
            Point2::new(799, 0),
            Point2::new(799, 599),
            Point2::new(0, 0),
        ]
    );
}

#[test]
fn spray_allows_duplicates() {
    let mut rng = Listed::new(vec![4, 4]);
    let mut auxins: Vec<Point2> = Vec::new();
    spray_auxins(&mut rng, &mut auxins, 10, 10, 3);
    assert_eq!(auxins, vec![Point2::new(4, 4); 3]);
}

#[test]
fn is_consumed_within_the_radius() {
    let veins = vec![vein_at(400, 400)];
    assert!(is_consumed(Point2::new(400, 400), &veins, 30));
    assert!(is_consumed(Point2::new(430, 400), &veins, 30));
    assert!(is_consumed(Point2::new(418, 424), &veins, 30));
    assert!(!is_consumed(Point2::new(431, 400), &veins, 30));
    assert!(!is_consumed(Point2::new(418, 425), &veins, 30));
}

#[test]
fn is_consumed_with_radius_zero() {
    let veins = vec![vein_at(4, 4)];
    assert!(is_consumed(Point2::new(4, 4), &veins, 0));
    assert!(!is_consumed(Point2::new(4, 5), &veins, 0));
}

#[test]
fn is_consumed_without_veins() {
    let veins: Vec<Vein> = Vec::new();
    assert!(!is_consumed(Point2::new(4, 4), &veins, u32::MAX));
}

#[test]
fn is_consumed_with_the_largest_radius() {
    let veins = vec![vein_at(i32::MIN, i32::MIN)];
    assert!(is_consumed(Point2::new(i32::MAX, i32::MIN), &veins, u32::MAX));
    assert!(!is_consumed(Point2::new(i32::MAX, i32::MIN + 1), &veins, u32::MAX));
}

#[test]
fn cull_removes_what_any_vein_reaches() {
    let veins = vec![vein_at(0, 0), vein_at(100, 0)];
    let mut auxins = vec![
        Point2::new(50, 0),
        Point2::new(10, 0),
        Point2::new(50, 50),
        Point2::new(95, 5),
        Point2::new(0, 31),
        Point2::new(0, 30),
    ];
    kill_auxins_by_vein_proximity(&mut auxins, &veins, 30);
    assert_eq!(auxins, vec![Point2::new(50, 0), Point2::new(50, 50), Point2::new(0, 31)]);
}

#[test]
fn cull_looks_at_every_vein() {
    // out of reach of the first and the last vein, within reach of the second
    let veins = vec![vein_at(0, 0), vein_at(40, 0), vein_at(1000, 1000)];
    let mut auxins = vec![Point2::new(25, 0)];
    kill_auxins_by_vein_proximity(&mut auxins, &veins, 20);
    assert!(auxins.is_empty());
    let mut other = vec![Point2::new(990, 990), Point2::new(500, 500)];
    kill_auxins_by_vein_proximity(&mut other, &veins, 20);
    assert_eq!(other, vec![Point2::new(500, 500)]);
}

#[test]
fn cull_removes_an_auxin_once_where_several_veins_reach_it() {
    let veins = vec![vein_at(0, 0), vein_at(1, 0), vein_at(2, 0)];
    let mut auxins = vec![Point2::new(1, 1), Point2::new(500, 500)];
    kill_auxins_by_vein_proximity(&mut auxins, &veins, 30);
    assert_eq!(auxins, vec![Point2::new(500, 500)]);
}

#[test]
fn cull_without_veins_removes_nothing() {
    let veins: Vec<Vein> = Vec::new();
    let before = vec![Point2::new(1, 1), Point2::new(2, 2), Point2::new(1, 1)];
    let mut auxins = before.clone();
    kill_auxins_by_vein_proximity(&mut auxins, &veins, 1000);
    assert_eq!(auxins, before);
}

#[test]
fn cull_of_an_empty_field() {
    let veins = vec![vein_at(0, 0)];
    let mut auxins: Vec<Point2> = Vec::new();
    kill_auxins_by_vein_proximity(&mut auxins, &veins, 30);
    assert!(auxins.is_empty());
}

#[test]
fn cull_keeps_the_order_and_the_duplicates() {
    let veins = vec![vein_at(0, 0)];
    let mut auxins = vec![
        Point2::new(90, 0),
        Point2::new(1, 1),
        Point2::new(50, 0),
        Point2::new(90, 0),
        Point2::new(2, 2),
        Point2::new(70, 0),
        Point2::new(1, 1),
    ];
    kill_auxins_by_vein_proximity(&mut auxins, &veins, 30);
    assert_eq!(
        auxins,
        vec![Point2::new(90, 0), Point2::new(50, 0), Point2::new(90, 0), Point2::new(70, 0)]
    );
}

#[test]
fn cull_can_remove_everything() {
    let veins = vec![vein_at(5, 5)];
    let mut auxins = vec![Point2::new(5, 5), Point2::new(6, 6), Point2::new(4, 4)];
    kill_auxins_by_vein_proximity(&mut auxins, &veins, 30);
    assert!(auxins.is_empty());
}

#[test]
fn cull_ignores_the_direction_of_a_vein() {
    let veins = vec![Vein { position: Point2::new(0, 0), direction: Point2::new(65536, 0) }];
    let mut auxins = vec![Point2::new(40, 0), Point2::new(-40, 0), Point2::new(20, 0)];
    kill_auxins_by_vein_proximity(&mut auxins, &veins, 30);
    assert_eq!(auxins, vec![Point2::new(40, 0), Point2::new(-40, 0)]);
}

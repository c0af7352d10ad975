use visual_sims::grass::{Grass, World, VARIATION_MAX, VARIATION_MIN};

fn grass(age: u32, death_age: u32) -> Grass {
    Grass { age, death_age }
}

fn count_cells(w: &World) -> usize {
    let mut n = 0;
    for x in 0..w.size() {
        for y in 0..w.size() {
            if w.cell(x, y).is_some() {
                n += 1;
            }
        }
    }
    n
}

#[test]
fn with_variation_scales_in_thousandths() {
    assert_eq!(Grass::with_variation(50, 800), grass(0, 40));
    assert_eq!(Grass::with_variation(50, 1200), grass(0, 60));
    assert_eq!(Grass::with_variation(50, 1000), grass(0, 50));
    assert_eq!(Grass::with_variation(7, 999), grass(0, 6));
    assert_eq!(Grass::with_variation(0, 1200), grass(0, 0));
}

#[test]
fn with_variation_saturates() {
    assert_eq!(Grass::with_variation(u32::MAX, 1200).death_age, u32::MAX);
    assert_eq!(Grass::with_variation(u32::MAX, 800).death_age, 3_435_973_836);
}

#[test]
fn new_grass_death_age_varies_within_bounds() {
    assert_eq!(VARIATION_MIN, 800);
    assert_eq!(VARIATION_MAX, 1200);
    let mut seen_low = false;
    let mut seen_high = false;
    for _ in 0..2000 {
        let g = Grass::new(1000);
        assert_eq!(g.age, 0);
        assert!(800 <= g.death_age && g.death_age <= 1200);
        seen_low |= g.death_age < 1000;
        seen_high |= g.death_age > 1000;
    }
    assert!(seen_low && seen_high);
}

#[test]
fn update_ages_one_step() {
    let mut g = grass(3, 50);
    g.update();
    assert_eq!(g, grass(4, 50));
}

#[test]
fn reproduce_and_death_thresholds() {
    assert!(grass(10, 50).can_reproduce(10));
    assert!(!grass(9, 50).can_reproduce(10));
    assert!(grass(49, 50).can_reproduce(10));
    assert!(!grass(50, 50).can_reproduce(10));
    assert!(grass(50, 50).is_dead());
    assert!(grass(60, 50).is_dead());
    assert!(!grass(49, 50).is_dead());
    assert!(grass(9, 50).is_young(10));
    assert!(!grass(10, 50).is_young(10));
}

#[test]
fn new_world_is_empty() {
    let w = World::new(4);
    assert_eq!(w.size(), 4);
    assert_eq!(count_cells(&w), 0);
    assert_eq!(World::new(0).size(), 0);
}

#[test]
fn plant_inside_and_outside() {
    let mut w = World::new(3);
    assert!(w.plant(2, 1, grass(0, 5)));
    assert_eq!(w.cell(2, 1), Some(grass(0, 5)));
    assert!(!w.plant(3, 0, grass(0, 5)));
    assert!(!w.plant(0, 3, grass(0, 5)));
    assert_eq!(count_cells(&w), 1);
}

#[test]
fn seed_target_in_bounds_and_empty() {
    let mut w = World::new(3);
    assert_eq!(w.seed_target(1, 1, 1, 1), Some((2, 2)));
    assert_eq!(w.seed_target(1, 1, -1, 0), Some((0, 1)));
    assert_eq!(w.seed_target(0, 0, -1, 0), None);
    assert_eq!(w.seed_target(2, 2, 1, 0), None);
    assert_eq!(w.seed_target(2, 2, 0, 1), None);
    w.plant(2, 2, grass(0, 5));
    assert_eq!(w.seed_target(1, 1, 1, 1), None);
    assert_eq!(w.seed_target(1, 1, i64::MIN, 0), None);
    assert_eq!(w.seed_target(1, 1, 0, i64::MAX), None);
}

#[test]
fn dead_cell_is_removed_on_update() {
    let mut w = World::new(3);
    w.plant(0, 0, grass(5, 5));
    w.plant(1, 1, grass(60, 50));
    w.update(1, 10, 50, 1);
    assert_eq!(w.cell(0, 0), None);
    assert_eq!(w.cell(1, 1), None);
    assert_eq!(count_cells(&w), 0);
}

#[test]
fn cell_dies_on_the_step_that_reaches_its_death_age() {
    let mut w = World::new(2);
    w.plant(0, 1, grass(0, 3));
    w.update(0, 10, 3, 0);
    assert_eq!(w.cell(0, 1), Some(grass(1, 3)));
    w.update(0, 10, 3, 0);
    assert_eq!(w.cell(0, 1), Some(grass(2, 3)));
    w.update(0, 10, 3, 0);
    assert_eq!(w.cell(0, 1), None);
}

#[test]
fn young_cell_only_ages() {
    let mut w = World::new(5);
    w.plant(2, 2, grass(0, 50));
    w.update(100, 10, 50, 2);
    assert_eq!(w.cell(2, 2), Some(grass(1, 50)));
    assert_eq!(count_cells(&w), 1);
}

#[test]
fn mature_cell_seeds_one_neighbour_within_radius() {
    let mut w = World::new(5);
    w.plant(2, 2, grass(10, 50));
    w.update(1000, 10, 50, 1);
    assert_eq!(w.cell(2, 2), Some(grass(11, 50)));
    assert_eq!(count_cells(&w), 2);
    for x in 0..5 {
        for y in 0..5 {
            if (x, y) == (2, 2) {
                continue;
            }
            if let Some(g) = w.cell(x, y) {
                assert!((1..=3).contains(&x) && (1..=3).contains(&y));
                assert!(g.age <= 1);
                assert!(40 <= g.death_age && g.death_age <= 60);
            }
        }
    }
}

#[test]
fn zero_radius_or_zero_seeds_plant_nothing() {
    let mut w = World::new(3);
    w.plant(1, 1, grass(20, 50));
    w.update(50, 10, 50, 0);
    assert_eq!(count_cells(&w), 1);
    w.update(0, 10, 50, 2);
    assert_eq!(count_cells(&w), 1);
    assert_eq!(w.cell(1, 1), Some(grass(22, 50)));
}

#[test]
fn single_cell_world_has_no_room_to_seed() {
    let mut w = World::new(1);
    w.plant(0, 0, grass(10, 50));
    w.update(100, 0, 50, 3);
    assert_eq!(w.cell(0, 0), Some(grass(11, 50)));
}

#[test]
fn empty_world_stays_empty() {
    let mut w = World::new(4);
    w.update(5, 0, 50, 3);
    assert_eq!(count_cells(&w), 0);
}

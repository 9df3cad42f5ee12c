use raytracer::integrator::{is_spent, next_step, Encounter, Step};

#[test]
fn spent_path_is_black_whatever_it_meets() {
    assert_eq!(next_step(0, Encounter::Miss), Step::Black);
    assert_eq!(next_step(0, Encounter::Absorbed), Step::Black);
    assert_eq!(next_step(0, Encounter::Scattered), Step::Black);
}

#[test]
fn negative_budget_is_spent_too() {
    assert!(is_spent(-1));
    assert!(is_spent(i32::MIN));
    assert_eq!(next_step(-1, Encounter::Miss), Step::Black);
    assert_eq!(next_step(i32::MIN, Encounter::Scattered), Step::Black);
}

#[test]
fn budget_is_spent_at_zero_only() {
    assert!(is_spent(0));
    assert!(!is_spent(1));
    assert!(!is_spent(50));
    assert!(!is_spent(i32::MAX));
}

#[test]
fn miss_shows_the_sky() {
    assert_eq!(next_step(1, Encounter::Miss), Step::Sky);
    assert_eq!(next_step(50, Encounter::Miss), Step::Sky);
}

#[test]
fn absorbed_ray_is_black() {
    assert_eq!(next_step(1, Encounter::Absorbed), Step::Black);
    assert_eq!(next_step(50, Encounter::Absorbed), Step::Black);
}

#[test]
fn scattered_ray_goes_on_with_one_bounce_less() {
    assert_eq!(next_step(50, Encounter::Scattered), Step::Bounce { depth: 49 });
    assert_eq!(next_step(1, Encounter::Scattered), Step::Bounce { depth: 0 });
    assert_eq!(next_step(i32::MAX, Encounter::Scattered), Step::Bounce { depth: i32::MAX - 1 });
}

#[test]
fn path_that_always_scatters_ends_with_its_budget() {
    let mut depth = 50;
    let mut bounces = 0;
    loop {
        match next_step(depth, Encounter::Scattered) {
            Step::Bounce { depth: rest } => {
                depth = rest;
                bounces += 1;
            }
            end => {
                assert_eq!(end, Step::Black);
                break;
            }
        }
    }
    assert_eq!(bounces, 50);
    assert_eq!(depth, 0);
}

#[test]
fn path_ends_early_in_the_sky() {
    let met = [Encounter::Scattered, Encounter::Scattered, Encounter::Miss, Encounter::Scattered];
    let mut depth = 10;
    let mut bounces = 0;
    let mut end = Step::Black;
    for e in met {
        match next_step(depth, e) {
            Step::Bounce { depth: rest } => {
                depth = rest;
                bounces += 1;
            }
            other => {
                end = other;
                break;
            }
        }
    }
    assert_eq!(bounces, 2);
    assert_eq!(end, Step::Sky);
}

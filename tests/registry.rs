use nbody::pairs::all_pairs;
use nbody::registry::{Body, Registry};
use std::cell::{Cell, RefCell};

type V = [i64; 3];

fn sub(a: V, b: V) -> V {
    [a[0] - b[0], a[1] - b[1], a[2] - b[2]]
}

fn add(a: V, b: V) -> V {
    [a[0] + b[0], a[1] + b[1], a[2] + b[2]]
}

fn scale(a: V, k: i64) -> V {
    [a[0] * k, a[1] * k, a[2] * k]
}

fn body(mass: i64, position: V, previous_position: V) -> Body<V, i64> {
    Body {
        mass,
        radius: 1,
        position,
        previous_position,
        acceleration: [0, 0, 0],
    }
}

fn star() -> Body<V, i64> {
    body(500, [0, 0, 0], [0, 0, 0])
}

fn sample(n: i64) -> Registry<V, i64> {
    let generated = (1..=n)
        .map(|k| body(k, [k, 2 * k - 7, 5 - k], [k - 1, 2 * k - 7, 5 - k]))
        .collect();
    Registry::new(generated, star())
}

// An exact integer stand-in for gravity: equal and opposite, scaled by the
// other body's mass.
fn interact(a: Body<V, i64>, b: Body<V, i64>) -> (V, V) {
    let d = sub(b.position, a.position);
    (
        add(a.acceleration, scale(d, b.mass)),
        sub(b.acceleration, scale(d, a.mass)),
    )
}

fn advance(b: Body<V, i64>) -> V {
    add(sub(scale(b.position, 2), b.previous_position), b.acceleration)
}

fn momentum_of_accelerations(r: &Registry<V, i64>) -> V {
    let mut total = [0, 0, 0];
    for k in 0..r.len() {
        let b = r.body(k);
        total = add(total, scale(b.acceleration, b.mass));
    }
    total
}

#[test]
fn star_comes_last_and_alone() {
    let r = sample(100);
    assert_eq!(r.len(), 101);
    assert_eq!(r.generated_count(), 100);
    assert_eq!(r.star_index(), 100);
    let stars = (0..r.len()).filter(|&k| r.is_star(k)).count();
    assert_eq!(stars, 1);
    assert!(r.is_star(100));
    assert!(!r.is_star(0));
    assert_eq!(r.star().mass, 500);
    assert_eq!(r.body(3).mass, 4);
}

#[test]
fn lone_star_registry() {
    let mut r = Registry::new(Vec::new(), star());
    assert_eq!(r.len(), 1);
    assert_eq!(r.generated_count(), 0);
    assert!(r.is_star(0));
    let calls = Cell::new(0u32);
    r.accumulate(|a: Body<V, i64>, b: Body<V, i64>| {
        calls.set(calls.get() + 1);
        interact(a, b)
    });
    assert_eq!(calls.get(), 0);
    assert_eq!(r.star().acceleration, [0, 0, 0]);
    assert_eq!(r.positions(), vec![[0, 0, 0]]);
}

#[test]
fn accumulation_visits_each_pair_once_in_order() {
    let mut r = sample(100);
    let seen = RefCell::new(Vec::new());
    r.accumulate(|a: Body<V, i64>, b: Body<V, i64>| {
        seen.borrow_mut().push((a.mass, b.mass));
        interact(a, b)
    });
    let seen = seen.into_inner();
    assert_eq!(seen.len(), 101 * 100 / 2);
    let mass_of = |k: usize| if k == 100 { 500 } else { k as i64 + 1 };
    let expected: Vec<(i64, i64)> = all_pairs(101)
        .into_iter()
        .map(|(i, j)| (mass_of(i), mass_of(j)))
        .collect();
    assert_eq!(seen, expected);
}

#[test]
fn accumulation_keeps_positions() {
    let mut r = sample(6);
    let before = r.positions();
    r.accumulate(interact);
    assert_eq!(r.positions(), before);
    assert_eq!(r.body(0).previous_position, [0, -5, 4]);
}

#[test]
fn equal_and_opposite_contributions() {
    let mut r = Registry::new(
        vec![body(3, [1, 0, 0], [1, 0, 0]), body(5, [4, 4, 0], [4, 4, 0])],
        body(7, [0, 0, 0], [0, 0, 0]),
    );
    r.accumulate(interact);
    assert_eq!(momentum_of_accelerations(&r), [0, 0, 0]);
    // body 0 is pulled by body 1 (mass 5) and the star (mass 7)
    assert_eq!(r.body(0).acceleration, [15 - 7, 20, 0]);
}

#[test]
fn tick_integrates_and_clears_accelerations() {
    let mut r = Registry::new(
        vec![body(2, [1, 2, 3], [0, 0, 0])],
        body(1, [0, 0, 0], [0, 0, 0]),
    );
    r.tick(interact, advance, [0, 0, 0]);
    // body 0: acceleration (-1, -2, -3) * 1; 2p - prev + a = (1, 2, 3)
    assert_eq!(r.body(0).position, [1, 2, 3]);
    assert_eq!(r.body(0).previous_position, [1, 2, 3]);
    // star: acceleration (1, 2, 3) * 2
    assert_eq!(r.star().position, [2, 4, 6]);
    for k in 0..r.len() {
        assert_eq!(r.body(k).acceleration, [0, 0, 0]);
    }
}

#[test]
fn integrate_alone() {
    let mut r = Registry::new(Vec::new(), body(9, [1, 2, 3], [0, 1, 1]));
    let mut b = *r.star();
    b.acceleration = [1, 1, 1];
    let mut r2 = Registry::new(Vec::new(), b);
    r2.integrate(advance, [0, 0, 0]);
    assert_eq!(r2.star().position, [3, 4, 6]);
    assert_eq!(r2.star().previous_position, [1, 2, 3]);
    assert_eq!(r2.star().acceleration, [0, 0, 0]);
    assert_eq!(r2.star().mass, 9);
    r.integrate(advance, [0, 0, 0]);
    assert_eq!(r.star().position, [2, 3, 5]);
}

#[test]
fn runs_are_reproducible() {
    let mut a = sample(20);
    let mut b = sample(20);
    for _ in 0..10 {
        a.tick(interact, advance, [0, 0, 0]);
        b.tick(interact, advance, [0, 0, 0]);
        assert_eq!(a.positions(), b.positions());
    }
}

#[test]
fn momentum_kept_over_ticks() {
    let mut r = sample(8);
    let momentum = |r: &Registry<V, i64>| {
        let mut total = [0, 0, 0];
        for k in 0..r.len() {
            let b = r.body(k);
            total = add(total, scale(sub(b.position, b.previous_position), b.mass));
        }
        total
    };
    let start = momentum(&r);
    for _ in 0..5 {
        r.tick(interact, advance, [0, 0, 0]);
        assert_eq!(momentum(&r), start);
    }
}

#[test]
fn run_is_ticks_in_a_row() {
    let mut a = sample(12);
    let mut b = sample(12);
    a.run(7, interact, advance, [0, 0, 0]);
    for _ in 0..7 {
        b.tick(interact, advance, [0, 0, 0]);
    }
    assert_eq!(a.positions(), b.positions());
    assert_eq!(a.len(), 13);
}

#[test]
fn run_of_no_ticks_changes_nothing() {
    let mut r = sample(4);
    let before = r.positions();
    r.run(0, interact, advance, [0, 0, 0]);
    assert_eq!(r.positions(), before);
    assert_eq!(r.body(2).previous_position, [2, -1, 2]);
}

use nbody::generation::{check_body_count, draw_order, ConfigError, Draw, DEFAULT_BODY_COUNT, DEFAULT_SEED};

#[test]
fn zero_bodies_refused() {
    assert_eq!(check_body_count(0), Err(ConfigError::NoBodies));
}

#[test]
fn usual_counts_accepted() {
    assert_eq!(check_body_count(1), Ok(1));
    assert_eq!(check_body_count(DEFAULT_BODY_COUNT), Ok(100));
}

#[test]
fn uncountable_pairs_refused() {
    assert_eq!(check_body_count(usize::MAX), Err(ConfigError::TooManyBodies));
    assert_eq!(check_body_count(usize::MAX / 2), Err(ConfigError::TooManyBodies));
}

#[test]
fn defaults() {
    assert_eq!(DEFAULT_SEED, 19878367467713);
    assert_eq!(DEFAULT_BODY_COUNT, 100);
}

#[test]
fn draws_in_stream_order() {
    assert_eq!(
        draw_order(),
        vec![
            Draw::Radius,
            Draw::DirectionX,
            Draw::DirectionY,
            Draw::DirectionZ,
            Draw::Distance,
            Draw::Red,
            Draw::Green,
            Draw::Blue,
            Draw::VelocityX,
            Draw::VelocityY,
            Draw::VelocityZ,
        ]
    );
}

#[test]
fn draw_bounds() {
    assert_eq!(Draw::Radius.bounds_tenths(), (1, 7));
    assert_eq!(Draw::DirectionY.bounds_tenths(), (-10, 10));
    assert_eq!(Draw::Distance.bounds_tenths(), (2, 10));
    assert_eq!(Draw::Blue.bounds_tenths(), (5, 10));
    assert_eq!(Draw::VelocityZ.bounds_tenths(), (-5, 5));
}

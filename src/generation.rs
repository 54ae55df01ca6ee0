use crate::pairs::pair_count_spec;
use vstd::prelude::*;

verus! {

/// Number of bodies generated besides the star.
pub const DEFAULT_BODY_COUNT: usize = 100;

/// Seed of the random stream that places the generated bodies.
pub const DEFAULT_SEED: u64 = 19878367467713;

/// Why a requested number of generated bodies is refused.
#[derive(PartialEq, Eq, Structural, Clone, Copy, Debug)]
pub enum ConfigError {
    /// No body would be generated: the simulation would hold the star alone.
    NoBodies,
    /// The pairs of one tick, the star included, could not be counted in a `usize`.
    TooManyBodies,
}

/// Whether `n` generated bodies and the star make a simulation worth running.
pub open spec fn body_count_ok(n: nat) -> bool {
    n > 0 && pair_count_spec(n + 1) <= usize::MAX
}

/// Checks a requested number of generated bodies before generation.
pub fn check_body_count(n: usize) -> (r: Result<usize, ConfigError>)
    ensures
        n == 0 ==> r == Err::<usize, ConfigError>(ConfigError::NoBodies),
        n > 0 && pair_count_spec(n as nat + 1) > usize::MAX ==> r == Err::<usize, ConfigError>(
            ConfigError::TooManyBodies,
        ),
        body_count_ok(n as nat) ==> r == Ok::<usize, ConfigError>(n),
{
    if n == 0 {
        return Err(ConfigError::NoBodies);
    }
    let total: u128 = n as u128 + 1;
    assert(total * n <= u128::MAX) by (nonlinear_arith)
        requires
            total <= 0x1_0000_0000_0000_0000,
            n < 0x1_0000_0000_0000_0000,
    ;
    let twice: u128 = total * (n as u128);
    assert(twice == (n + 1) * n);
    if twice / 2 > usize::MAX as u128 {
        Err(ConfigError::TooManyBodies)
    } else {
        Ok(n)
    }
}

/// One draw from the random stream while a body is generated.
#[derive(PartialEq, Eq, Structural, Clone, Copy, Debug)]
pub enum Draw {
    Radius,
    DirectionX,
    DirectionY,
    DirectionZ,
    /// Before its cube root is taken and scaled, the distance from the centre.
    Distance,
    Red,
    Green,
    Blue,
    VelocityX,
    VelocityY,
    VelocityZ,
}

/// The draws for one body, in the order the stream is consumed. Another order
/// places the bodies differently.
pub open spec fn draw_order_spec() -> Seq<Draw> {
    seq![
        Draw::Radius,
        Draw::DirectionX,
        Draw::DirectionY,
        Draw::DirectionZ,
        Draw::Distance,
        Draw::Red,
        Draw::Green,
        Draw::Blue,
        Draw::VelocityX,
        Draw::VelocityY,
        Draw::VelocityZ,
    ]
}

/// The half-open range `[lo, hi)` of a draw, both ends in tenths.
pub open spec fn bounds_spec(d: Draw) -> (int, int) {
    match d {
        Draw::Radius => (1, 7),
        Draw::DirectionX | Draw::DirectionY | Draw::DirectionZ => (-10, 10),
        Draw::Distance => (2, 10),
        Draw::Red | Draw::Green | Draw::Blue => (5, 10),
        Draw::VelocityX | Draw::VelocityY | Draw::VelocityZ => (-5, 5),
    }
}

/// The draws for one body, in order.
pub fn draw_order() -> (r: Vec<Draw>)
    ensures
        r@ == draw_order_spec(),
{
    let r = vec![
        Draw::Radius,
        Draw::DirectionX,
        Draw::DirectionY,
        Draw::DirectionZ,
        Draw::Distance,
        Draw::Red,
        Draw::Green,
        Draw::Blue,
        Draw::VelocityX,
        Draw::VelocityY,
        Draw::VelocityZ,
    ];
    assert(r@ =~= draw_order_spec());
    r
}

impl Draw {
    /// The range of this draw, `(lo, hi)` in tenths, with `lo < hi`.
    pub fn bounds_tenths(&self) -> (r: (i32, i32))
        ensures
            r.0 as int == bounds_spec(*self).0,
            r.1 as int == bounds_spec(*self).1,
            r.0 < r.1,
    {
        match self {
            Draw::Radius => (1, 7),
            Draw::DirectionX | Draw::DirectionY | Draw::DirectionZ => (-10, 10),
            Draw::Distance => (2, 10),
            Draw::Red | Draw::Green | Draw::Blue => (5, 10),
            Draw::VelocityX | Draw::VelocityY | Draw::VelocityZ => (-5, 5),
        }
    }
}

} // verus!

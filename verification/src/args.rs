//! Settings of the calculator.

use vstd::prelude::*;

verus! {

/// The unit of the angles that the trigonometric functions take and give.
#[derive(Debug, Clone, Copy, PartialEq, Eq, Structural)]
pub enum AngleUnit {
    Radian,
    Degrees,
}

/// The settings of one run.
#[derive(Debug, Clone, Copy)]
pub struct Args {
    pub angle_unit: AngleUnit,
    /// Number of decimal places in the output, 0 to 63.
    pub fix: Option<usize>,
    /// No colours in the output.
    pub no_color: bool,
    /// Print each parsed statement.
    pub debug: bool,
}

/// How results are written: decimal places, radix, and the unit of angles.
#[derive(Debug, Clone, Copy)]
pub struct Config {
    pub fix: u8,
    pub base: u8,
    pub angle_unit: AngleUnit,
}

impl Default for Config {
    fn default() -> (config: Config)
        ensures
            config.fix == 10,
            config.base == 10,
            config.angle_unit == AngleUnit::Radian,
    {
        Config { fix: 10, base: 10, angle_unit: AngleUnit::Radian }
    }
}

/// Whether a number of decimal places can be asked for: none, or one from
/// 0 to 63.
pub fn fix_in_range(fix: &Option<usize>) -> (r: bool)
    ensures
        r == match *fix {
            None => true,
            Some(places) => places < 64,
        },
{
    match fix {
        None => true,
        Some(places) => *places < 64,
    }
}

} // verus!

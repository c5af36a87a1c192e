//! What a run is configured by: the raster's dimensions, the number of steps
//! of the walk and the two colours, with their defaults.

use vstd::prelude::*;
use crate::color::Color;

verus! {

/// The default width of the raster, in cells.
pub const WIDTH: usize = 1920;

/// The default height of the raster, in cells.
pub const HEIGHT: usize = 1080;

/// The default number of steps of the walk.
pub const MAX_ITERATIONS: usize = 200_000;

/// The default background colour, packed.
pub const COLOR_BACKGROUND: u32 = 0xFF1D_2021;

/// The default colour of the leaf, packed.
pub const COLOR_LEAF: u32 = 0xFFB8_BB26;

/// Why a configuration is refused.
#[derive(Clone, Copy, Debug, PartialEq, Eq, Structural)]
pub enum ConfigError {
    /// The width is zero.
    ZeroWidth,
    /// The height is zero.
    ZeroHeight,
    /// The number of steps is zero.
    ZeroIterations,
}

/// The parameters of a run.
#[derive(Clone, Copy, Debug, PartialEq, Eq, Structural)]
pub struct Config {
    pub width: usize,
    pub height: usize,
    pub iterations: usize,
    pub background: Color,
    pub leaf: Color,
}

impl Config {
    /// The default configuration.
    pub open spec fn standard() -> Config {
        Config {
            width: WIDTH,
            height: HEIGHT,
            iterations: MAX_ITERATIONS,
            background: Color { red: 0x21, green: 0x20, blue: 0x1D },
            leaf: Color { red: 0x26, green: 0xBB, blue: 0xB8 },
        }
    }

    /// What `validate` answers: the first of width, height and number of steps
    /// that is zero, in that order, or nothing where all three are positive.
    pub open spec fn verdict(self) -> Result<(), ConfigError> {
        if self.width == 0 {
            Err(ConfigError::ZeroWidth)
        } else if self.height == 0 {
            Err(ConfigError::ZeroHeight)
        } else if self.iterations == 0 {
            Err(ConfigError::ZeroIterations)
        } else {
            Ok(())
        }
    }

    /// Checks that the width, the height and the number of steps are positive.
    pub fn validate(&self) -> (checked: Result<(), ConfigError>)
        ensures
            checked == self.verdict(),
    {
        if self.width == 0 {
            Err(ConfigError::ZeroWidth)
        } else if self.height == 0 {
            Err(ConfigError::ZeroHeight)
        } else if self.iterations == 0 {
            Err(ConfigError::ZeroIterations)
        } else {
            Ok(())
        }
    }
}

impl Default for Config {
    /// The default configuration: the default dimensions and number of steps,
    /// and the two default colours read out of their packed values.
    fn default() -> (config: Config)
        ensures
            config == Config::standard(),
            config.verdict() == Ok::<(), ConfigError>(()),
    {
        let background = Color::from_packed(COLOR_BACKGROUND);
        let leaf = Color::from_packed(COLOR_LEAF);
        assert(Color::unpacked(0xFF1D_2021u32) == (Color { red: 0x21, green: 0x20, blue: 0x1D }))
            by (bit_vector);
        assert(Color::unpacked(0xFFB8_BB26u32) == (Color { red: 0x26, green: 0xBB, blue: 0xB8 }))
            by (bit_vector);
        Config { width: WIDTH, height: HEIGHT, iterations: MAX_ITERATIONS, background, leaf }
    }
}

} // verus!

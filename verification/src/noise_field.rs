//! The scalar field behind the background: fractal noise plus cellular
//! noise, each with a seed of its own.
//!
//! The two generators are evaluated by the caller; this module holds the
//! settings they are made with and the rule that composes their samples.

use crate::vector::{clamp_to_i64, saturate, SCALE};
use vstd::prelude::*;

verus! {

/// The largest number of octaves a fractal generator sums.
pub const MAX_OCTAVES: usize = 32;

/// Frequency of the first octave of the nebula, in units of `1 / SCALE`.
pub const NEBULA_FREQUENCY: i64 = 2 * SCALE;

/// Number of octaves of the nebula.
pub const NEBULA_OCTAVES: usize = 5;

/// Frequency growth per octave of the nebula, in units of `1 / SCALE`.
pub const NEBULA_LACUNARITY: i64 = 3 * SCALE;

/// Amplitude falloff per octave of the nebula: 0.6, in units of `1 / SCALE`.
pub const NEBULA_PERSISTENCE: i64 = 39322;

/// Frequency of the cellular star layer, in units of `1 / SCALE`.
pub const STAR_FREQUENCY: i64 = SCALE;

/// Why a set of noise parameters is refused.
#[derive(Clone, Copy, Debug, PartialEq, Eq, Structural)]
pub enum NoiseError {
    /// The seed has no successor to give to the second generator.
    SeedTooLarge,
    /// The octave count is zero.
    NoOctaves,
    /// The octave count is above `MAX_OCTAVES`.
    TooManyOctaves,
    /// A frequency, the persistence or the lacunarity is not positive.
    NotPositive,
}

/// The parameters of the composed field. Frequencies, persistence and
/// lacunarity are in units of `1 / SCALE`.
#[derive(Clone, Copy, Debug, PartialEq, Eq, Structural)]
pub struct NoiseSettings {
    pub seed: u32,
    pub frequency: i64,
    pub persistence: i64,
    pub lacunarity: i64,
    pub octaves: usize,
    pub cell_frequency: i64,
}

/// The sample of the composed field: fractal plus cellular noise,
/// saturating.
pub open spec fn composed(fractal: i64, cellular: i64) -> i64 {
    clamp_to_i64(fractal + cellular) as i64
}

/// Composes one sample of each generator.
pub fn combine(fractal: i64, cellular: i64) -> (v: i64)
    ensures
        v == composed(fractal, cellular),
{
    saturate(fractal as i128 + cellular as i128)
}

/// Composes two layers sample by sample; `None` where they differ in
/// length.
pub fn compose_layers(fractal: &Vec<i64>, cellular: &Vec<i64>) -> (res: Option<Vec<i64>>)
    ensures
        res is Some <==> fractal.len() == cellular.len(),
        res matches Some(field) ==> field.len() == fractal.len() && forall|i: int|
            0 <= i < field.len() ==> #[trigger] field[i] == composed(fractal[i], cellular[i]),
{
    if fractal.len() != cellular.len() {
        return None;
    }
    let mut field: Vec<i64> = Vec::with_capacity(fractal.len());
    let mut i: usize = 0;
    while i < fractal.len()
        invariant
            i <= fractal.len(),
            fractal.len() == cellular.len(),
            field.len() == i,
            forall|k: int| 0 <= k < i ==> #[trigger] field[k] == composed(fractal[k], cellular[k]),
        decreases fractal.len() - i,
    {
        field.push(combine(fractal[i], cellular[i]));
        i += 1;
    }
    Some(field)
}

impl NoiseSettings {
    /// Which error, if any, these parameters give; the first that applies.
    pub open spec fn error(self) -> Option<NoiseError> {
        if self.seed == u32::MAX {
            Some(NoiseError::SeedTooLarge)
        } else if self.octaves == 0 {
            Some(NoiseError::NoOctaves)
        } else if self.octaves > MAX_OCTAVES {
            Some(NoiseError::TooManyOctaves)
        } else if self.frequency <= 0 || self.persistence <= 0 || self.lacunarity <= 0
            || self.cell_frequency <= 0 {
            Some(NoiseError::NotPositive)
        } else {
            None
        }
    }

    /// The parameters are accepted.
    pub open spec fn wf(self) -> bool {
        self.error() is None
    }

    /// Checks the parameters.
    pub fn validate(&self) -> (res: Result<(), NoiseError>)
        ensures
            res is Ok <==> self.wf(),
            res matches Err(e) ==> self.error() == Some(e),
    {
        if self.seed == u32::MAX {
            Err(NoiseError::SeedTooLarge)
        } else if self.octaves == 0 {
            Err(NoiseError::NoOctaves)
        } else if self.octaves > MAX_OCTAVES {
            Err(NoiseError::TooManyOctaves)
        } else if self.frequency <= 0 || self.persistence <= 0 || self.lacunarity <= 0
            || self.cell_frequency <= 0 {
            Err(NoiseError::NotPositive)
        } else {
            Ok(())
        }
    }

    /// The settings of the nebula background for a seed.
    pub fn nebula(seed: u32) -> (res: Result<NoiseSettings, NoiseError>)
        ensures
            seed == u32::MAX <==> res == Err::<NoiseSettings, NoiseError>(NoiseError::SeedTooLarge),
            seed < u32::MAX <==> res == Ok::<NoiseSettings, NoiseError>(
                NoiseSettings {
                    seed,
                    frequency: NEBULA_FREQUENCY,
                    persistence: NEBULA_PERSISTENCE,
                    lacunarity: NEBULA_LACUNARITY,
                    octaves: NEBULA_OCTAVES,
                    cell_frequency: STAR_FREQUENCY,
                },
            ),
            res matches Ok(s) ==> s.wf(),
    {
        let settings = NoiseSettings {
            seed,
            frequency: NEBULA_FREQUENCY,
            persistence: NEBULA_PERSISTENCE,
            lacunarity: NEBULA_LACUNARITY,
            octaves: NEBULA_OCTAVES,
            cell_frequency: STAR_FREQUENCY,
        };
        match settings.validate() {
            Ok(()) => Ok(settings),
            Err(e) => Err(e),
        }
    }

    /// The seed of the fractal generator.
    pub fn fractal_seed(&self) -> (s: u32)
        ensures
            s == self.seed,
    {
        self.seed
    }

    /// The seed of the cellular generator: the one after the fractal seed,
    /// so that the two layers are not correlated.
    pub fn cell_seed(&self) -> (s: u32)
        requires
            self.wf(),
        ensures
            s == self.seed + 1,
    {
        self.seed + 1
    }
}

} // verus!

use vstd::prelude::*;

verus! {

/// Speech-related configuration options.
#[derive(Clone, Copy, Debug, PartialEq, Eq, Structural)]
pub struct SpeechSettings {
    /// The speech rate.
    pub rate: i32,
}

impl SpeechSettings {
    /// Build speech settings with the given rate.
    pub fn new(rate: i32) -> (r: Self)
        ensures
            r.rate == rate,
    {
        Self { rate }
    }
}

impl Default for SpeechSettings {
    fn default() -> (r: Self)
        ensures
            r.rate == 0,
    {
        Self { rate: 0 }
    }
}

/// A read-only view of the configuration, obtained by the configuration
/// loader outside the cache; the cache itself recognizes no configuration.
#[derive(Clone, Copy, Debug, PartialEq, Eq, Structural)]
pub struct ApplicationConfig {
    /// The speech section.
    pub speech: SpeechSettings,
}

impl Default for ApplicationConfig {
    fn default() -> (r: Self)
        ensures
            r.speech.rate == 0,
    {
        Self { speech: SpeechSettings { rate: 0 } }
    }
}

} // verus!

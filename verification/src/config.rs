use vstd::prelude::*;

verus! {

/// Configuration parameters for encoding and decoding.
#[derive(Debug, Clone, Copy, PartialEq, Eq, Structural)]
pub struct Config {
    /// Flag to skip scalar values during encoding, and zero them during decoding.
    pub zeroed_scalar_values: bool,
}

impl Config {
    /// Serialized length.
    pub const LEN: usize = 1;

    /// The default configuration, where scalar values are stored.
    pub open spec fn spec_default() -> Config {
        Config { zeroed_scalar_values: false }
    }

    /// Create the default configuration.
    pub fn new() -> (c: Config)
        ensures
            c == Config::spec_default(),
    {
        Config { zeroed_scalar_values: false }
    }

    /// If true, then don't store the scalar values and deserialize them as zero.
    pub fn with_zeroed_scalar_values(&mut self, zeroed_scalar_values: bool) -> (r: &mut Self)
        ensures
            *r == (Config { zeroed_scalar_values }),
            *final(self) == *final(r),
    {
        self.zeroed_scalar_values = zeroed_scalar_values;
        self
    }
}

impl Default for Config {
    fn default() -> (c: Config)
        ensures
            c == Config::spec_default(),
    {
        Config::new()
    }
}

} // verus!

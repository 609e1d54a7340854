use vstd::prelude::*;
use vstd::bytes::lemma_auto_spec_u64_to_from_le_bytes;

use crate::config::Config;

use crate::error::Error;
use crate::plonk::constraint::spec_constraint_len;
use crate::plonk::element::Element;
use crate::plonk::primitives::spec_bool_byte;
use crate::plonk::witness::spec_witness_len;
use crate::source::{spec_index_bytes, spec_read_index};

verus! {

/// Metadata information of the CDF file.
#[derive(Debug, Clone, Copy, PartialEq, Eq, Structural)]
pub struct Preamble {
    /// Witnesses count.
    pub witnesses: usize,
    /// Constraints count.
    pub constraints: usize,
    /// Configuration parameters for encoding and decoding.
    pub config: Config,
}

impl DeepView for Preamble {
    type V = Preamble;

    open spec fn deep_view(&self) -> Preamble {
        *self
    }
}

impl Preamble {
    /// Serialized length: the two counts as 64-bit integers, then the configuration.
    pub const LEN: usize = 17;

    /// The default preamble: one witness, no constraints and the default configuration.
    pub open spec fn spec_default() -> Preamble {
        Preamble { witnesses: 1, constraints: 0, config: Config::spec_default() }
    }

    /// Offset of the witness at `idx`: witnesses are stored right after the preamble.
    pub open spec fn spec_witness_offset(&self, idx: int) -> int {
        17 + idx * spec_witness_len(self.config)
    }

    /// Offset of the constraint at `idx`: constraints are stored after all witnesses.
    pub open spec fn spec_constraint_offset(&self, idx: int) -> int {
        17 + self.witnesses * spec_witness_len(self.config) + idx * spec_constraint_len(self.config)
    }

    /// Offset of the source path at `idx` of a cache stored after all constraints.
    pub open spec fn spec_source_cache_offset(&self, idx: int) -> int {
        self.spec_constraint_offset(self.constraints as int) + idx * 1024
    }

    /// Length of the file that the preamble describes.
    pub open spec fn spec_total_len(&self) -> int {
        self.spec_constraint_offset(self.constraints as int)
    }

    /// The offsets of the described file fit in memory addresses.
    pub open spec fn spec_fits(&self) -> bool {
        self.spec_total_len() <= usize::MAX
    }

    /// Create a new preamble instance: the default preamble.
    pub fn new() -> (p: Preamble)
        ensures
            p == Preamble::spec_default(),
    {
        Preamble { witnesses: 1, constraints: 0, config: Config::new() }
    }

    /// Set the witnesses count. A circuit has at least one witness: a zero count gives a
    /// preamble that [`Element::validate`] refuses.
    pub fn with_witnesses(&mut self, witnesses: usize) -> (r: &mut Self)
        ensures
            *r == (Preamble { witnesses, ..*old(self) }),
            *final(self) == *final(r),
    {
        self.witnesses = witnesses;
        self
    }

    /// Set the constraints count.
    pub fn with_constraints(&mut self, constraints: usize) -> (r: &mut Self)
        ensures
            *r == (Preamble { constraints, ..*old(self) }),
            *final(self) == *final(r),
    {
        self.constraints = constraints;
        self
    }

    /// Set the configuration parameters.
    pub fn with_config(&mut self, config: Config) -> (r: &mut Self)
        ensures
            *r == (Preamble { config, ..*old(self) }),
            *final(self) == *final(r),
    {
        self.config = config;
        self
    }

    /// Check that the offsets of the described file fit in memory addresses.
    pub fn fits(&self) -> (b: bool)
        ensures
            b == self.spec_fits(),
    {
        let wl: u128 = if self.config.zeroed_scalar_values { 1048 } else { 1080 };
        let cl: u128 = if self.config.zeroed_scalar_values { 1117 } else { 1501 };
        proof {
            assert(self.witnesses * wl <= 0xffff_ffff_ffff_ffff * 1501) by (nonlinear_arith)
                requires
                    self.witnesses <= 0xffff_ffff_ffff_ffff,
                    wl <= 1501,
            ;
            assert(self.constraints * cl <= 0xffff_ffff_ffff_ffff * 1501) by (nonlinear_arith)
                requires
                    self.constraints <= 0xffff_ffff_ffff_ffff,
                    cl <= 1501,
            ;
        }
        let total: u128 = 17 + self.witnesses as u128 * wl + self.constraints as u128 * cl;
        total <= usize::MAX as u128
    }

    /// Witness offset in the file, from an index; `None` if no witness has the index.
    pub fn witness_offset(&self, idx: usize) -> (ofs: Option<usize>)
        requires
            self.spec_fits(),
        ensures
            ofs is Some <==> idx < self.witnesses,
            ofs is Some ==> ofs.unwrap() == self.spec_witness_offset(idx as int),
    {
        if idx < self.witnesses {
            let wl: usize = if self.config.zeroed_scalar_values { 1048 } else { 1080 };
            proof {
                let cl = spec_constraint_len(self.config) as int;
                assert(idx * wl <= self.witnesses * wl) by (nonlinear_arith)
                    requires
                        idx < self.witnesses,
                ;
                assert(self.constraints * cl >= 0) by (nonlinear_arith)
                    requires
                        cl >= 0,
                ;
            }
            Some(Self::LEN + idx * wl)
        } else {
            None
        }
    }

    /// Constraint offset in the file, from an index; `None` if no constraint has the index.
    pub fn constraint_offset(&self, idx: usize) -> (ofs: Option<usize>)
        requires
            self.spec_fits(),
        ensures
            ofs is Some <==> idx < self.constraints,
            ofs is Some ==> ofs.unwrap() == self.spec_constraint_offset(idx as int),
    {
        if idx < self.constraints {
            let wl: usize = if self.config.zeroed_scalar_values { 1048 } else { 1080 };
            let cl: usize = if self.config.zeroed_scalar_values { 1117 } else { 1501 };
            proof {
                assert(idx * cl <= self.constraints * cl) by (nonlinear_arith)
                    requires
                        idx < self.constraints,
                ;
                assert(self.witnesses * wl >= 0) by (nonlinear_arith)
                    requires
                        wl >= 0,
                ;
            }
            Some(Self::LEN + self.witnesses * wl + idx * cl)
        } else {
            None
        }
    }

    /// Offset of the source path at `idx` of a cache stored after all constraints.
    pub fn source_cache_offset(&self, idx: usize) -> (ofs: usize)
        requires
            self.spec_source_cache_offset(idx as int) <= usize::MAX,
        ensures
            ofs == self.spec_source_cache_offset(idx as int),
    {
        let wl: usize = if self.config.zeroed_scalar_values { 1048 } else { 1080 };
        let cl: usize = if self.config.zeroed_scalar_values { 1117 } else { 1501 };
        proof {
            assert(self.witnesses * wl >= 0 && self.constraints * cl >= 0 && idx * 1024 >= 0) by (nonlinear_arith)
                requires
                    wl >= 0,
                    cl >= 0,
            ;
        }
        Self::LEN + self.witnesses * wl + self.constraints * cl + idx * 1024
    }

    /// Length of the file that the preamble describes: the preamble, the witnesses and the
    /// constraints.
    pub fn total_len(&self) -> (n: usize)
        requires
            self.spec_fits(),
        ensures
            n == self.spec_total_len(),
    {
        let wl: usize = if self.config.zeroed_scalar_values { 1048 } else { 1080 };
        let cl: usize = if self.config.zeroed_scalar_values { 1117 } else { 1501 };
        proof {
            assert(self.witnesses * wl >= 0 && self.constraints * cl >= 0) by (nonlinear_arith)
                requires
                    wl >= 0,
                    cl >= 0,
            ;
        }
        Self::LEN + self.witnesses * wl + self.constraints * cl
    }
}

impl Default for Preamble {
    fn default() -> (p: Preamble)
        ensures
            p == Preamble::spec_default(),
    {
        Preamble::new()
    }
}

impl std::ops::Deref for Preamble {
    type Target = Config;

    /// The configuration of the file.
    fn deref(&self) -> (c: &Config)
        ensures
            *c == self.config,
    {
        &self.config
    }
}

impl Element for Preamble {
    open spec fn spec_len(config: Config) -> nat {
        17
    }

    /// Witnesses count, constraints count, then the configuration.
    open spec fn spec_encode(&self, config: Config) -> Seq<u8> {
        spec_index_bytes(self.witnesses) + spec_index_bytes(self.constraints) + seq![
            spec_bool_byte(self.config.zeroed_scalar_values),
        ]
    }

    open spec fn spec_default() -> Preamble {
        Preamble::spec_default()
    }

    open spec fn spec_decode_into(old: Preamble, config: Config, bytes: Seq<u8>) -> Result<Preamble, Error> {
        Ok(
            Preamble {
                witnesses: spec_read_index(bytes, 0),
                constraints: spec_read_index(bytes, 8),
                config: Config { zeroed_scalar_values: bytes[16] != 0 },
            },
        )
    }

    /// A circuit has at least one witness.
    open spec fn spec_validate(&self, preamble: Preamble) -> Result<(), Error> {
        if self.witnesses == 0 {
            Err(Error::NoWitnesses)
        } else {
            Ok(())
        }
    }

    open spec fn spec_normalize(&self, config: Config) -> Preamble {
        *self
    }

    proof fn lemma_encode_len(&self, config: Config) {
        lemma_auto_spec_u64_to_from_le_bytes();
    }

    proof fn lemma_decode_prefix(old: Preamble, config: Config, bytes: Seq<u8>) {
        assert(bytes.take(17).subrange(0, 8) =~= bytes.subrange(0, 8));
        assert(bytes.take(17).subrange(8, 16) =~= bytes.subrange(8, 16));
    }

    proof fn lemma_roundtrip(&self, config: Config) {
        lemma_auto_spec_u64_to_from_le_bytes();
        let enc = self.spec_encode(config);
        assert(enc.subrange(0, 8) =~= spec_index_bytes(self.witnesses));
        assert(enc.subrange(8, 16) =~= spec_index_bytes(self.constraints));
    }

    fn zeroed() -> (r: Preamble) {
        Preamble::new()
    }

    fn len(config: &Config) -> (n: usize) {
        17
    }

    fn to_buffer(&self, config: &Config, buf: &mut [u8]) {
        proof {
            lemma_auto_spec_u64_to_from_le_bytes();
        }
        let rest = self.witnesses.encode(config, buf);
        let rest = self.constraints.encode(config, rest);
        let _ = self.config.zeroed_scalar_values.encode(config, rest);
        assert(buf@ =~= self.spec_encode(*config) + old(buf)@.skip(17));
    }

    fn try_from_buffer_in_place(&mut self, config: &Config, buf: &[u8]) -> (r: Result<(), Error>) {
        let ghost bytes = buf@;
        let rest = match self.witnesses.try_decode_in_place(config, buf) {
            Ok(r) => r,
            Err(e) => return Err(e),
        };
        assert(bytes.take(8) =~= bytes.subrange(0, 8));
        let rest = match self.constraints.try_decode_in_place(config, rest) {
            Ok(r) => r,
            Err(e) => return Err(e),
        };
        assert(bytes.skip(8).take(8) =~= bytes.subrange(8, 16));
        assert(rest@ =~= bytes.skip(16));
        let mut flag = self.config.zeroed_scalar_values;
        match flag.try_decode_in_place(config, rest) {
            Ok(_) => {},
            Err(e) => return Err(e),
        }
        self.config = Config { zeroed_scalar_values: flag };
        Ok(())
    }

    fn validate(&self, preamble: &Preamble) -> (r: Result<(), Error>) {
        if self.witnesses == 0 {
            Err(Error::NoWitnesses)
        } else {
            Ok(())
        }
    }
}

} // verus!

use vstd::prelude::*;
use vstd::bytes::lemma_auto_spec_u64_to_from_le_bytes;

use crate::config::Config;
use crate::constraint::{Constraint, spec_constraint_len};
use crate::context::{DecoderContext, DecoderContextView, EncoderContext};
use crate::element::{Codec, DecodableElement, Element, EncodableElement};
use crate::error::Error;
use crate::primitives::spec_bool_byte;
use crate::source::{spec_index_bytes, spec_read_index};
use crate::witness::{Witness, spec_witness_len};

verus! {

/// Metadata information of the CDF file.
#[derive(Debug, Clone, Copy, PartialEq, Eq, Structural)]
pub struct Preamble {
    /// Witnesses count.
    pub witnesses: usize,
    /// Constraints count.
    pub constraints: usize,
    /// Configuration parameters for encoding and decoding.
    pub config: Config,
}

impl DeepView for Preamble {
    type V = Preamble;

    open spec fn deep_view(&self) -> Preamble {
        *self
    }
}

impl Preamble {
    /// Serialized length.
    pub const LEN: usize = 17;

    /// Offset of the witness at `idx`: witnesses are stored right after the preamble.
    pub open spec fn spec_witness_offset(&self, idx: int) -> int {
        17 + idx * spec_witness_len(self.config)
    }

    /// Offset of the constraint at `idx`: constraints are stored after all witnesses.
    pub open spec fn spec_constraint_offset(&self, idx: int) -> int {
        17 + self.witnesses * spec_witness_len(self.config) + idx * spec_constraint_len(
            self.config,
        )
    }

    /// Offset of the source cache, stored after all constraints.
    pub open spec fn spec_source_cache_offset(&self) -> int {
        self.spec_constraint_offset(self.constraints as int)
    }

    /// The offsets of the described file fit in memory addresses.
    pub open spec fn spec_fits(&self) -> bool {
        self.spec_source_cache_offset() <= usize::MAX
    }

    /// The default preamble: one witness, no constraints.
    pub open spec fn spec_default() -> Preamble {
        Preamble { witnesses: 1, constraints: 0, config: Config::spec_default() }
    }

    /// Create a new preamble instance.
    pub fn new(witnesses: usize, constraints: usize, config: Config) -> (p: Preamble)
        ensures
            p == (Preamble { witnesses, constraints, config }),
    {
        Preamble { witnesses, constraints, config }
    }

    /// Check whether the offsets of the described file fit in memory addresses.
    pub fn fits(&self) -> (b: bool)
        ensures
            b == self.spec_fits(),
    {
        let wl = Witness::len(&self.config) as u128;
        let cl = Constraint::len(&self.config) as u128;
        let w = self.witnesses as u128;
        let c = self.constraints as u128;
        assert(w * wl <= 0xffff_ffff_ffff_ffffu128 * 73) by (nonlinear_arith)
            requires w <= 0xffff_ffff_ffff_ffffu128, wl <= 73;
        assert(c * cl <= 0xffff_ffff_ffff_ffffu128 * 449) by (nonlinear_arith)
            requires c <= 0xffff_ffff_ffff_ffffu128, cl <= 449;
        17 + w * wl + c * cl <= usize::MAX as u128
    }

    /// Witness offset in CDF, from an index.
    pub fn witness_offset(&self, idx: usize) -> (ofs: Option<usize>)
        requires
            self.spec_fits(),
        ensures
            ofs is Some <==> idx < self.witnesses,
            ofs is Some ==> ofs.unwrap() == self.spec_witness_offset(idx as int),
    {
        if idx < self.witnesses {
            let wl = Witness::len(&self.config);
            proof {
                let cl = spec_constraint_len(self.config) as int;
                assert(idx * wl <= self.witnesses * wl) by (nonlinear_arith)
                    requires idx < self.witnesses;
                assert(self.constraints * cl >= 0) by (nonlinear_arith)
                    requires cl >= 0;
            }
            Some(Self::LEN + idx * wl)
        } else {
            None
        }
    }

    /// Constraint offset in CDF, from an index.
    pub fn constraint_offset(&self, idx: usize) -> (ofs: Option<usize>)
        requires
            self.spec_fits(),
        ensures
            ofs is Some <==> idx < self.constraints,
            ofs is Some ==> ofs.unwrap() == self.spec_constraint_offset(idx as int),
    {
        if idx < self.constraints {
            let wl = Witness::len(&self.config);
            let cl = Constraint::len(&self.config);
            proof {
                assert(idx * cl <= self.constraints * cl) by (nonlinear_arith)
                    requires idx < self.constraints;
                assert(self.witnesses * wl >= 0) by (nonlinear_arith)
                    requires wl >= 0;
            }
            Some(Self::LEN + self.witnesses * wl + idx * cl)
        } else {
            None
        }
    }

    /// Cache starting position.
    pub fn source_cache_offset(&self) -> (ofs: usize)
        requires
            self.spec_fits(),
        ensures
            ofs == self.spec_source_cache_offset(),
    {
        let wl = Witness::len(&self.config);
        let cl = Constraint::len(&self.config);
        proof {
            assert(self.witnesses * wl >= 0) by (nonlinear_arith)
                requires wl >= 0;
            assert(self.constraints * cl >= 0) by (nonlinear_arith)
                requires cl >= 0;
        }
        Self::LEN + self.witnesses * wl + self.constraints * cl
    }
}

impl Default for Preamble {
    fn default() -> (p: Preamble)
        ensures
            p == Preamble::spec_default(),
    {
        Preamble { witnesses: 1, constraints: 0, config: Config::new() }
    }
}

impl Element for Preamble {
    open spec fn spec_len(config: Config) -> nat {
        17
    }

    fn len(config: &Config) -> (n: usize) {
        17
    }

    fn validate(&self, preamble: &Preamble) -> (r: Result<(), Error>) {
        let _ = self.witnesses.validate(preamble);
        let _ = self.constraints.validate(preamble);
        let _ = self.config.validate(preamble);
        Ok(())
    }
}

impl EncodableElement for Preamble {
    open spec fn spec_register(&self, paths: Seq<Seq<char>>) -> Seq<Seq<char>> {
        paths
    }

    /// Witnesses count, constraints count, then the configuration.
    open spec fn spec_encode(&self, config: Config, paths: Seq<Seq<char>>) -> Seq<u8> {
        spec_index_bytes(self.witnesses) + spec_index_bytes(self.constraints) + seq![
            spec_bool_byte(self.config.zeroed_scalar_values),
        ]
    }

    proof fn lemma_encode_len(&self, config: Config, paths: Seq<Seq<char>>) {
        lemma_auto_spec_u64_to_from_le_bytes();
    }

    proof fn lemma_register_extends(&self, paths: Seq<Seq<char>>) {
        assert(paths.is_prefix_of(paths));
    }

    fn to_buffer(&self, ctx: &mut EncoderContext, buf: &mut [u8]) {
        let ghost config = ctx@.preamble.config;
        proof {
            lemma_auto_spec_u64_to_from_le_bytes();
        }
        let rest = self.witnesses.encode(ctx, buf);
        let rest = self.constraints.encode(ctx, rest);
        let _ = self.config.encode(ctx, rest);
        assert(buf@ =~= self.spec_encode(config, ctx@.paths) + old(buf)@.skip(17));
    }
}

impl DecodableElement for Preamble {
    open spec fn spec_default() -> Preamble {
        Preamble::spec_default()
    }

    open spec fn spec_decode_into(old: Preamble, ctx: DecoderContextView, bytes: Seq<u8>) -> Result<Preamble, Error> {
        if bytes.len() < 17 {
            Err(Error::BufferTooSmall)
        } else {
            Ok(
                Preamble {
                    witnesses: spec_read_index(bytes, 0),
                    constraints: spec_read_index(bytes, 8),
                    config: Config { zeroed_scalar_values: bytes[16] != 0 },
                },
            )
        }
    }

    proof fn lemma_decode_needs_len(old: Preamble, ctx: DecoderContextView, bytes: Seq<u8>) {
    }

    proof fn lemma_decode_prefix(old: Preamble, ctx: DecoderContextView, bytes: Seq<u8>) {
        assert(bytes.take(17).subrange(0, 8) =~= bytes.subrange(0, 8));
        assert(bytes.take(17).subrange(8, 16) =~= bytes.subrange(8, 16));
    }

    fn zeroed() -> (r: Preamble) {
        Preamble { witnesses: 1, constraints: 0, config: Config::new() }
    }

    fn try_from_buffer_in_place(&mut self, ctx: &DecoderContext, buf: &[u8]) -> (r: Result<(), Error>) {
        match Self::validate_buffer(ctx.config(), buf) {
            Ok(()) => {},
            Err(e) => return Err(e),
        }
        let ghost bytes = buf@;
        let rest = match self.witnesses.try_decode_in_place(ctx, buf) {
            Ok(r) => r,
            Err(e) => return Err(e),
        };
        assert(bytes.take(8) =~= bytes.subrange(0, 8));
        let rest = match self.constraints.try_decode_in_place(ctx, rest) {
            Ok(r) => r,
            Err(e) => return Err(e),
        };
        assert(bytes.skip(8).take(8) =~= bytes.subrange(8, 16));
        assert(rest@ =~= bytes.skip(16));
        match self.config.try_decode_in_place(ctx, rest) {
            Ok(_) => {},
            Err(e) => return Err(e),
        }
        Ok(())
    }
}

impl Codec for Preamble {
    open spec fn spec_normalize(&self, config: Config) -> Preamble {
        *self
    }

    proof fn lemma_roundtrip(&self, ctx: DecoderContextView, paths: Seq<Seq<char>>) {
        lemma_auto_spec_u64_to_from_le_bytes();
        let enc = self.spec_encode(ctx.config, paths);
        assert(enc.subrange(0, 8) =~= spec_index_bytes(self.witnesses));
        assert(enc.subrange(8, 16) =~= spec_index_bytes(self.constraints));
    }
}

} // verus!

use vstd::prelude::*;

use crate::config::Config;
use crate::context::{DecoderContext, DecoderContextView, EncoderContext};
use crate::element::{Codec, DecodableElement, Element, EncodableElement};
use crate::error::Error;
use crate::preamble::Preamble;
use crate::scalar::{Scalar, spec_zero_scalar};

verus! {

/// Model of the scalar at slot `k` of a run of scalars: zeroed when the configuration skips
/// scalar values.
pub open spec fn spec_scalar_slot(config: Config, bytes: Seq<u8>, k: int) -> Seq<u8> {
    if config.zeroed_scalar_values {
        spec_zero_scalar()
    } else {
        bytes.subrange(32 * k, 32 * k + 32)
    }
}

/// Model of the selectors of a polynomial.
pub struct SelectorsView {
    /// Qm (mult) selector
    pub qm: Seq<u8>,
    /// Ql (left) selector
    pub ql: Seq<u8>,
    /// Qr (right) selector
    pub qr: Seq<u8>,
    /// Qd (fourth) selector
    pub qd: Seq<u8>,
    /// Qc (constant) selector
    pub qc: Seq<u8>,
    /// Qo (output) selector
    pub qo: Seq<u8>,
    /// Public input
    pub pi: Seq<u8>,
    /// Qarith (arithmetic) internal selector
    pub qarith: Seq<u8>,
    /// Qlogic (logical) internal selector
    pub qlogic: Seq<u8>,
    /// Qrange (range check) internal selector
    pub qrange: Seq<u8>,
    /// Qgroup_variable (ecc group variable add) internal selector
    pub qgroup_variable: Seq<u8>,
    /// Qgroup_fixed (ecc group fixed add) internal selector
    pub qfixed_add: Seq<u8>,
}

/// Polynomial selectors.
#[derive(Debug, Default, Clone, Copy, PartialEq, Eq, Hash)]
pub struct Selectors {
    /// Qm (mult) selector
    pub qm: Scalar,
    /// Ql (left) selector
    pub ql: Scalar,
    /// Qr (right) selector
    pub qr: Scalar,
    /// Qd (fourth) selector
    pub qd: Scalar,
    /// Qc (constant) selector
    pub qc: Scalar,
    /// Qo (output) selector
    pub qo: Scalar,
    /// Public input
    pub pi: Scalar,
    /// Qarith (arithmetic) internal selector
    pub qarith: Scalar,
    /// Qlogic (logical) internal selector
    pub qlogic: Scalar,
    /// Qrange (range check) internal selector
    pub qrange: Scalar,
    /// Qgroup_variable (ecc group variable add) internal selector
    pub qgroup_variable: Scalar,
    /// Qgroup_fixed (ecc group fixed add) internal selector
    pub qfixed_add: Scalar,
}

impl DeepView for Selectors {
    type V = SelectorsView;

    open spec fn deep_view(&self) -> SelectorsView {
        SelectorsView {
            qm: self.qm.deep_view(),
            ql: self.ql.deep_view(),
            qr: self.qr.deep_view(),
            qd: self.qd.deep_view(),
            qc: self.qc.deep_view(),
            qo: self.qo.deep_view(),
            pi: self.pi.deep_view(),
            qarith: self.qarith.deep_view(),
            qlogic: self.qlogic.deep_view(),
            qrange: self.qrange.deep_view(),
            qgroup_variable: self.qgroup_variable.deep_view(),
            qfixed_add: self.qfixed_add.deep_view(),
        }
    }
}

impl Selectors {
    /// Model of the selectors as a decoding under `config` gives them back.
    pub open spec fn spec_normalized(&self, config: Config) -> SelectorsView {
        SelectorsView {
            qm: self.qm.spec_normalized(config),
            ql: self.ql.spec_normalized(config),
            qr: self.qr.spec_normalized(config),
            qd: self.qd.spec_normalized(config),
            qc: self.qc.spec_normalized(config),
            qo: self.qo.spec_normalized(config),
            pi: self.pi.spec_normalized(config),
            qarith: self.qarith.spec_normalized(config),
            qlogic: self.qlogic.spec_normalized(config),
            qrange: self.qrange.spec_normalized(config),
            qgroup_variable: self.qgroup_variable.spec_normalized(config),
            qfixed_add: self.qfixed_add.spec_normalized(config),
        }
    }
}

impl Element for Selectors {
    open spec fn spec_len(config: Config) -> nat {
        12 * Scalar::spec_len(config)
    }

    fn len(config: &Config) -> (n: usize) {
        if config.zeroed_scalar_values {
            0
        } else {
            384
        }
    }

    fn validate(&self, preamble: &Preamble) -> (r: Result<(), Error>) {
        let _ = self.qm.validate(preamble);
        let _ = self.ql.validate(preamble);
        let _ = self.qr.validate(preamble);
        let _ = self.qd.validate(preamble);
        let _ = self.qc.validate(preamble);
        let _ = self.qo.validate(preamble);
        let _ = self.pi.validate(preamble);
        let _ = self.qarith.validate(preamble);
        let _ = self.qlogic.validate(preamble);
        let _ = self.qrange.validate(preamble);
        let _ = self.qgroup_variable.validate(preamble);
        let _ = self.qfixed_add.validate(preamble);
        Ok(())
    }
}

impl EncodableElement for Selectors {
    open spec fn spec_register(&self, paths: Seq<Seq<char>>) -> Seq<Seq<char>> {
        paths
    }

    /// The selectors, in declaration order.
    open spec fn spec_encode(&self, config: Config, paths: Seq<Seq<char>>) -> Seq<u8> {
        self.qm.spec_encode(config, paths)
            + self.ql.spec_encode(config, paths)
            + self.qr.spec_encode(config, paths)
            + self.qd.spec_encode(config, paths)
            + self.qc.spec_encode(config, paths)
            + self.qo.spec_encode(config, paths)
            + self.pi.spec_encode(config, paths)
            + self.qarith.spec_encode(config, paths)
            + self.qlogic.spec_encode(config, paths)
            + self.qrange.spec_encode(config, paths)
            + self.qgroup_variable.spec_encode(config, paths)
            + self.qfixed_add.spec_encode(config, paths)
    }

    proof fn lemma_encode_len(&self, config: Config, paths: Seq<Seq<char>>) {
        self.qm.lemma_encode_len(config, paths);
        self.ql.lemma_encode_len(config, paths);
        self.qr.lemma_encode_len(config, paths);
        self.qd.lemma_encode_len(config, paths);
        self.qc.lemma_encode_len(config, paths);
        self.qo.lemma_encode_len(config, paths);
        self.pi.lemma_encode_len(config, paths);
        self.qarith.lemma_encode_len(config, paths);
        self.qlogic.lemma_encode_len(config, paths);
        self.qrange.lemma_encode_len(config, paths);
        self.qgroup_variable.lemma_encode_len(config, paths);
        self.qfixed_add.lemma_encode_len(config, paths);
    }

    proof fn lemma_register_extends(&self, paths: Seq<Seq<char>>) {
        assert(paths.is_prefix_of(paths));
    }

    fn to_buffer(&self, ctx: &mut EncoderContext, buf: &mut [u8]) {
        let ghost config = ctx@.preamble.config;
        let ghost paths = ctx@.paths;
        let rest = self.qm.encode(ctx, buf);
        let rest = self.ql.encode(ctx, rest);
        let rest = self.qr.encode(ctx, rest);
        let rest = self.qd.encode(ctx, rest);
        let rest = self.qc.encode(ctx, rest);
        let rest = self.qo.encode(ctx, rest);
        let rest = self.pi.encode(ctx, rest);
        let rest = self.qarith.encode(ctx, rest);
        let rest = self.qlogic.encode(ctx, rest);
        let rest = self.qrange.encode(ctx, rest);
        let rest = self.qgroup_variable.encode(ctx, rest);
        let _ = self.qfixed_add.encode(ctx, rest);
        proof {
            assert(buf@ =~= self.spec_encode(config, paths) + old(buf)@.skip(Self::spec_len(config) as int));
        }
    }
}

impl DecodableElement for Selectors {
    open spec fn spec_default() -> SelectorsView {
        SelectorsView {
            qm: spec_zero_scalar(),
            ql: spec_zero_scalar(),
            qr: spec_zero_scalar(),
            qd: spec_zero_scalar(),
            qc: spec_zero_scalar(),
            qo: spec_zero_scalar(),
            pi: spec_zero_scalar(),
            qarith: spec_zero_scalar(),
            qlogic: spec_zero_scalar(),
            qrange: spec_zero_scalar(),
            qgroup_variable: spec_zero_scalar(),
            qfixed_add: spec_zero_scalar(),
        }
    }

    open spec fn spec_decode_into(old: SelectorsView, ctx: DecoderContextView, bytes: Seq<u8>) -> Result<SelectorsView, Error> {
        if bytes.len() < Self::spec_len(ctx.config) {
            Err(Error::BufferTooSmall)
        } else {
            Ok(SelectorsView {
                qm: spec_scalar_slot(ctx.config, bytes, 0),
                ql: spec_scalar_slot(ctx.config, bytes, 1),
                qr: spec_scalar_slot(ctx.config, bytes, 2),
                qd: spec_scalar_slot(ctx.config, bytes, 3),
                qc: spec_scalar_slot(ctx.config, bytes, 4),
                qo: spec_scalar_slot(ctx.config, bytes, 5),
                pi: spec_scalar_slot(ctx.config, bytes, 6),
                qarith: spec_scalar_slot(ctx.config, bytes, 7),
                qlogic: spec_scalar_slot(ctx.config, bytes, 8),
                qrange: spec_scalar_slot(ctx.config, bytes, 9),
                qgroup_variable: spec_scalar_slot(ctx.config, bytes, 10),
                qfixed_add: spec_scalar_slot(ctx.config, bytes, 11),
            })
        }
    }

    proof fn lemma_decode_needs_len(old: SelectorsView, ctx: DecoderContextView, bytes: Seq<u8>) {
    }

    proof fn lemma_decode_prefix(old: SelectorsView, ctx: DecoderContextView, bytes: Seq<u8>) {
        let n = Self::spec_len(ctx.config) as int;
        if !ctx.config.zeroed_scalar_values {
            assert(bytes.take(n).subrange(32 * 0int, 32 * 0int + 32) =~= bytes.subrange(32 * 0int, 32 * 0int + 32));
            assert(bytes.take(n).subrange(32 * 1int, 32 * 1int + 32) =~= bytes.subrange(32 * 1int, 32 * 1int + 32));
            assert(bytes.take(n).subrange(32 * 2int, 32 * 2int + 32) =~= bytes.subrange(32 * 2int, 32 * 2int + 32));
            assert(bytes.take(n).subrange(32 * 3int, 32 * 3int + 32) =~= bytes.subrange(32 * 3int, 32 * 3int + 32));
            assert(bytes.take(n).subrange(32 * 4int, 32 * 4int + 32) =~= bytes.subrange(32 * 4int, 32 * 4int + 32));
            assert(bytes.take(n).subrange(32 * 5int, 32 * 5int + 32) =~= bytes.subrange(32 * 5int, 32 * 5int + 32));
            assert(bytes.take(n).subrange(32 * 6int, 32 * 6int + 32) =~= bytes.subrange(32 * 6int, 32 * 6int + 32));
            assert(bytes.take(n).subrange(32 * 7int, 32 * 7int + 32) =~= bytes.subrange(32 * 7int, 32 * 7int + 32));
            assert(bytes.take(n).subrange(32 * 8int, 32 * 8int + 32) =~= bytes.subrange(32 * 8int, 32 * 8int + 32));
            assert(bytes.take(n).subrange(32 * 9int, 32 * 9int + 32) =~= bytes.subrange(32 * 9int, 32 * 9int + 32));
            assert(bytes.take(n).subrange(32 * 10int, 32 * 10int + 32) =~= bytes.subrange(32 * 10int, 32 * 10int + 32));
            assert(bytes.take(n).subrange(32 * 11int, 32 * 11int + 32) =~= bytes.subrange(32 * 11int, 32 * 11int + 32));
        }
    }

    fn zeroed() -> (r: Selectors) {
        Selectors {
            qm: Scalar::zero(),
            ql: Scalar::zero(),
            qr: Scalar::zero(),
            qd: Scalar::zero(),
            qc: Scalar::zero(),
            qo: Scalar::zero(),
            pi: Scalar::zero(),
            qarith: Scalar::zero(),
            qlogic: Scalar::zero(),
            qrange: Scalar::zero(),
            qgroup_variable: Scalar::zero(),
            qfixed_add: Scalar::zero(),
        }
    }

    fn try_from_buffer_in_place(&mut self, ctx: &DecoderContext, buf: &[u8]) -> (r: Result<(), Error>) {
        match Self::validate_buffer(ctx.config(), buf) {
            Ok(()) => {},
            Err(e) => return Err(e),
        }
        let ghost bytes = buf@;
        let ghost sl = Scalar::spec_len(ctx@.config) as int;
        let mut rest = buf;
        assert(rest@ =~= bytes.skip(0 * sl));
        match self.qm.try_decode_in_place(ctx, rest) {
            Ok(r) => {
                rest = r;
            },
            Err(e) => return Err(e),
        }
        assert(self.qm.deep_view() == spec_scalar_slot(ctx@.config, bytes, 0)) by {
            if !ctx@.config.zeroed_scalar_values {
                assert(bytes.skip(0 * sl).take(32) =~= bytes.subrange(32 * 0int, 32 * 0int + 32));
            }
        }
        assert(rest@ =~= bytes.skip(1 * sl));
        match self.ql.try_decode_in_place(ctx, rest) {
            Ok(r) => {
                rest = r;
            },
            Err(e) => return Err(e),
        }
        assert(self.ql.deep_view() == spec_scalar_slot(ctx@.config, bytes, 1)) by {
            if !ctx@.config.zeroed_scalar_values {
                assert(bytes.skip(1 * sl).take(32) =~= bytes.subrange(32 * 1int, 32 * 1int + 32));
            }
        }
        assert(rest@ =~= bytes.skip(2 * sl));
        match self.qr.try_decode_in_place(ctx, rest) {
            Ok(r) => {
                rest = r;
            },
            Err(e) => return Err(e),
        }
        assert(self.qr.deep_view() == spec_scalar_slot(ctx@.config, bytes, 2)) by {
            if !ctx@.config.zeroed_scalar_values {
                assert(bytes.skip(2 * sl).take(32) =~= bytes.subrange(32 * 2int, 32 * 2int + 32));
            }
        }
        assert(rest@ =~= bytes.skip(3 * sl));
        match self.qd.try_decode_in_place(ctx, rest) {
            Ok(r) => {
                rest = r;
            },
            Err(e) => return Err(e),
        }
        assert(self.qd.deep_view() == spec_scalar_slot(ctx@.config, bytes, 3)) by {
            if !ctx@.config.zeroed_scalar_values {
                assert(bytes.skip(3 * sl).take(32) =~= bytes.subrange(32 * 3int, 32 * 3int + 32));
            }
        }
        assert(rest@ =~= bytes.skip(4 * sl));
        match self.qc.try_decode_in_place(ctx, rest) {
            Ok(r) => {
                rest = r;
            },
            Err(e) => return Err(e),
        }
        assert(self.qc.deep_view() == spec_scalar_slot(ctx@.config, bytes, 4)) by {
            if !ctx@.config.zeroed_scalar_values {
                assert(bytes.skip(4 * sl).take(32) =~= bytes.subrange(32 * 4int, 32 * 4int + 32));
            }
        }
        assert(rest@ =~= bytes.skip(5 * sl));
        match self.qo.try_decode_in_place(ctx, rest) {
            Ok(r) => {
                rest = r;
            },
            Err(e) => return Err(e),
        }
        assert(self.qo.deep_view() == spec_scalar_slot(ctx@.config, bytes, 5)) by {
            if !ctx@.config.zeroed_scalar_values {
                assert(bytes.skip(5 * sl).take(32) =~= bytes.subrange(32 * 5int, 32 * 5int + 32));
            }
        }
        assert(rest@ =~= bytes.skip(6 * sl));
        match self.pi.try_decode_in_place(ctx, rest) {
            Ok(r) => {
                rest = r;
            },
            Err(e) => return Err(e),
        }
        assert(self.pi.deep_view() == spec_scalar_slot(ctx@.config, bytes, 6)) by {
            if !ctx@.config.zeroed_scalar_values {
                assert(bytes.skip(6 * sl).take(32) =~= bytes.subrange(32 * 6int, 32 * 6int + 32));
            }
        }
        assert(rest@ =~= bytes.skip(7 * sl));
        match self.qarith.try_decode_in_place(ctx, rest) {
            Ok(r) => {
                rest = r;
            },
            Err(e) => return Err(e),
        }
        assert(self.qarith.deep_view() == spec_scalar_slot(ctx@.config, bytes, 7)) by {
            if !ctx@.config.zeroed_scalar_values {
                assert(bytes.skip(7 * sl).take(32) =~= bytes.subrange(32 * 7int, 32 * 7int + 32));
            }
        }
        assert(rest@ =~= bytes.skip(8 * sl));
        match self.qlogic.try_decode_in_place(ctx, rest) {
            Ok(r) => {
                rest = r;
            },
            Err(e) => return Err(e),
        }
        assert(self.qlogic.deep_view() == spec_scalar_slot(ctx@.config, bytes, 8)) by {
            if !ctx@.config.zeroed_scalar_values {
                assert(bytes.skip(8 * sl).take(32) =~= bytes.subrange(32 * 8int, 32 * 8int + 32));
            }
        }
        assert(rest@ =~= bytes.skip(9 * sl));
        match self.qrange.try_decode_in_place(ctx, rest) {
            Ok(r) => {
                rest = r;
            },
            Err(e) => return Err(e),
        }
        assert(self.qrange.deep_view() == spec_scalar_slot(ctx@.config, bytes, 9)) by {
            if !ctx@.config.zeroed_scalar_values {
                assert(bytes.skip(9 * sl).take(32) =~= bytes.subrange(32 * 9int, 32 * 9int + 32));
            }
        }
        assert(rest@ =~= bytes.skip(10 * sl));
        match self.qgroup_variable.try_decode_in_place(ctx, rest) {
            Ok(r) => {
                rest = r;
            },
            Err(e) => return Err(e),
        }
        assert(self.qgroup_variable.deep_view() == spec_scalar_slot(ctx@.config, bytes, 10)) by {
            if !ctx@.config.zeroed_scalar_values {
                assert(bytes.skip(10 * sl).take(32) =~= bytes.subrange(32 * 10int, 32 * 10int + 32));
            }
        }
        assert(rest@ =~= bytes.skip(11 * sl));
        match self.qfixed_add.try_decode_in_place(ctx, rest) {
            Ok(r) => {
                rest = r;
            },
            Err(e) => return Err(e),
        }
        assert(self.qfixed_add.deep_view() == spec_scalar_slot(ctx@.config, bytes, 11)) by {
            if !ctx@.config.zeroed_scalar_values {
                assert(bytes.skip(11 * sl).take(32) =~= bytes.subrange(32 * 11int, 32 * 11int + 32));
            }
        }
        Ok(())
    }
}

impl Codec for Selectors {
    open spec fn spec_normalize(&self, config: Config) -> SelectorsView {
        self.spec_normalized(config)
    }

    proof fn lemma_roundtrip(&self, ctx: DecoderContextView, paths: Seq<Seq<char>>) {
        let enc = self.spec_encode(ctx.config, paths);
        self.lemma_encode_len(ctx.config, paths);
        if !ctx.config.zeroed_scalar_values {
            self.qm.lemma_model_len();
            assert(enc.subrange(32 * 0int, 32 * 0int + 32) =~= self.qm.deep_view());
            self.ql.lemma_model_len();
            assert(enc.subrange(32 * 1int, 32 * 1int + 32) =~= self.ql.deep_view());
            self.qr.lemma_model_len();
            assert(enc.subrange(32 * 2int, 32 * 2int + 32) =~= self.qr.deep_view());
            self.qd.lemma_model_len();
            assert(enc.subrange(32 * 3int, 32 * 3int + 32) =~= self.qd.deep_view());
            self.qc.lemma_model_len();
            assert(enc.subrange(32 * 4int, 32 * 4int + 32) =~= self.qc.deep_view());
            self.qo.lemma_model_len();
            assert(enc.subrange(32 * 5int, 32 * 5int + 32) =~= self.qo.deep_view());
            self.pi.lemma_model_len();
            assert(enc.subrange(32 * 6int, 32 * 6int + 32) =~= self.pi.deep_view());
            self.qarith.lemma_model_len();
            assert(enc.subrange(32 * 7int, 32 * 7int + 32) =~= self.qarith.deep_view());
            self.qlogic.lemma_model_len();
            assert(enc.subrange(32 * 8int, 32 * 8int + 32) =~= self.qlogic.deep_view());
            self.qrange.lemma_model_len();
            assert(enc.subrange(32 * 9int, 32 * 9int + 32) =~= self.qrange.deep_view());
            self.qgroup_variable.lemma_model_len();
            assert(enc.subrange(32 * 10int, 32 * 10int + 32) =~= self.qgroup_variable.deep_view());
            self.qfixed_add.lemma_model_len();
            assert(enc.subrange(32 * 11int, 32 * 11int + 32) =~= self.qfixed_add.deep_view());
        }
    }
}

/// Model of the wired witnesses of a polynomial.
pub struct WiredWitnessesView {
    /// Wired `a`
    pub a: usize,
    /// Wired `b`
    pub b: usize,
    /// Wired `d` (fourth)
    pub d: usize,
    /// Wired `o` (output)
    pub o: usize,
}

/// Polynomial witnesses allocated to a constraint system.
#[derive(Debug, Default, Clone, Copy, PartialEq, Eq, Hash, Structural)]
pub struct WiredWitnesses {
    /// Wired `a`
    pub a: usize,
    /// Wired `b`
    pub b: usize,
    /// Wired `d` (fourth)
    pub d: usize,
    /// Wired `o` (output)
    pub o: usize,
}

impl DeepView for WiredWitnesses {
    type V = WiredWitnessesView;

    open spec fn deep_view(&self) -> WiredWitnessesView {
        WiredWitnessesView { a: self.a, b: self.b, d: self.d, o: self.o }
    }
}

/// Index read from the 8 bytes of slot `k`.
pub open spec fn spec_index_slot(bytes: Seq<u8>, k: int) -> usize {
    vstd::bytes::spec_u64_from_le_bytes(bytes.subrange(8 * k, 8 * k + 8)) as usize
}

impl Element for WiredWitnesses {
    open spec fn spec_len(config: Config) -> nat {
        32
    }

    fn len(config: &Config) -> (n: usize) {
        32
    }

    fn validate(&self, preamble: &Preamble) -> (r: Result<(), Error>) {
        let _ = self.a.validate(preamble);
        let _ = self.b.validate(preamble);
        let _ = self.d.validate(preamble);
        let _ = self.o.validate(preamble);
        Ok(())
    }
}

impl EncodableElement for WiredWitnesses {
    open spec fn spec_register(&self, paths: Seq<Seq<char>>) -> Seq<Seq<char>> {
        paths
    }

    /// The wired indices, in declaration order.
    open spec fn spec_encode(&self, config: Config, paths: Seq<Seq<char>>) -> Seq<u8> {
        self.a.spec_encode(config, paths)
            + self.b.spec_encode(config, paths)
            + self.d.spec_encode(config, paths)
            + self.o.spec_encode(config, paths)
    }

    proof fn lemma_encode_len(&self, config: Config, paths: Seq<Seq<char>>) {
        self.a.lemma_encode_len(config, paths);
        self.b.lemma_encode_len(config, paths);
        self.d.lemma_encode_len(config, paths);
        self.o.lemma_encode_len(config, paths);
    }

    proof fn lemma_register_extends(&self, paths: Seq<Seq<char>>) {
        assert(paths.is_prefix_of(paths));
    }

    fn to_buffer(&self, ctx: &mut EncoderContext, buf: &mut [u8]) {
        let ghost config = ctx@.preamble.config;
        let ghost paths = ctx@.paths;
        let rest = self.a.encode(ctx, buf);
        let rest = self.b.encode(ctx, rest);
        let rest = self.d.encode(ctx, rest);
        let _ = self.o.encode(ctx, rest);
        proof {
            assert(buf@ =~= self.spec_encode(config, paths) + old(buf)@.skip(32));
        }
    }
}

impl DecodableElement for WiredWitnesses {
    open spec fn spec_default() -> WiredWitnessesView {
        WiredWitnessesView { a: 0, b: 0, d: 0, o: 0 }
    }

    open spec fn spec_decode_into(old: WiredWitnessesView, ctx: DecoderContextView, bytes: Seq<u8>) -> Result<WiredWitnessesView, Error> {
        if bytes.len() < 32 {
            Err(Error::BufferTooSmall)
        } else {
            Ok(WiredWitnessesView {
                a: spec_index_slot(bytes, 0),
                b: spec_index_slot(bytes, 1),
                d: spec_index_slot(bytes, 2),
                o: spec_index_slot(bytes, 3),
            })
        }
    }

    proof fn lemma_decode_needs_len(old: WiredWitnessesView, ctx: DecoderContextView, bytes: Seq<u8>) {
    }

    proof fn lemma_decode_prefix(old: WiredWitnessesView, ctx: DecoderContextView, bytes: Seq<u8>) {
        assert(bytes.take(32).subrange(8 * 0int, 8 * 0int + 8) =~= bytes.subrange(8 * 0int, 8 * 0int + 8));
        assert(bytes.take(32).subrange(8 * 1int, 8 * 1int + 8) =~= bytes.subrange(8 * 1int, 8 * 1int + 8));
        assert(bytes.take(32).subrange(8 * 2int, 8 * 2int + 8) =~= bytes.subrange(8 * 2int, 8 * 2int + 8));
        assert(bytes.take(32).subrange(8 * 3int, 8 * 3int + 8) =~= bytes.subrange(8 * 3int, 8 * 3int + 8));
    }

    fn zeroed() -> (r: WiredWitnesses) {
        WiredWitnesses { a: 0, b: 0, d: 0, o: 0 }
    }

    fn try_from_buffer_in_place(&mut self, ctx: &DecoderContext, buf: &[u8]) -> (r: Result<(), Error>) {
        let ghost bytes = buf@;
        let mut rest = buf;
        assert(rest@ =~= bytes.skip(8 * 0int));
        match self.a.try_decode_in_place(ctx, rest) {
            Ok(r) => {
                rest = r;
            },
            Err(e) => return Err(e),
        }
        assert(self.a == spec_index_slot(bytes, 0)) by {
            assert(bytes.skip(8 * 0int).take(8) =~= bytes.subrange(8 * 0int, 8 * 0int + 8));
        }
        assert(rest@ =~= bytes.skip(8 * 1int));
        match self.b.try_decode_in_place(ctx, rest) {
            Ok(r) => {
                rest = r;
            },
            Err(e) => return Err(e),
        }
        assert(self.b == spec_index_slot(bytes, 1)) by {
            assert(bytes.skip(8 * 1int).take(8) =~= bytes.subrange(8 * 1int, 8 * 1int + 8));
        }
        assert(rest@ =~= bytes.skip(8 * 2int));
        match self.d.try_decode_in_place(ctx, rest) {
            Ok(r) => {
                rest = r;
            },
            Err(e) => return Err(e),
        }
        assert(self.d == spec_index_slot(bytes, 2)) by {
            assert(bytes.skip(8 * 2int).take(8) =~= bytes.subrange(8 * 2int, 8 * 2int + 8));
        }
        assert(rest@ =~= bytes.skip(8 * 3int));
        match self.o.try_decode_in_place(ctx, rest) {
            Ok(r) => {
                rest = r;
            },
            Err(e) => return Err(e),
        }
        assert(self.o == spec_index_slot(bytes, 3)) by {
            assert(bytes.skip(8 * 3int).take(8) =~= bytes.subrange(8 * 3int, 8 * 3int + 8));
        }
        Ok(())
    }
}

impl Codec for WiredWitnesses {
    open spec fn spec_normalize(&self, config: Config) -> WiredWitnessesView {
        self.deep_view()
    }

    proof fn lemma_roundtrip(&self, ctx: DecoderContextView, paths: Seq<Seq<char>>) {
        let enc = self.spec_encode(ctx.config, paths);
        self.lemma_encode_len(ctx.config, paths);
        self.a.lemma_roundtrip(ctx, paths);
        self.a.lemma_encode_len(ctx.config, paths);
        assert(enc.subrange(8 * 0int, 8 * 0int + 8) =~= self.a.spec_encode(ctx.config, paths));
        assert(self.a.spec_encode(ctx.config, paths).take(8) =~= self.a.spec_encode(ctx.config, paths));
        self.b.lemma_roundtrip(ctx, paths);
        self.b.lemma_encode_len(ctx.config, paths);
        assert(enc.subrange(8 * 1int, 8 * 1int + 8) =~= self.b.spec_encode(ctx.config, paths));
        assert(self.b.spec_encode(ctx.config, paths).take(8) =~= self.b.spec_encode(ctx.config, paths));
        self.d.lemma_roundtrip(ctx, paths);
        self.d.lemma_encode_len(ctx.config, paths);
        assert(enc.subrange(8 * 2int, 8 * 2int + 8) =~= self.d.spec_encode(ctx.config, paths));
        assert(self.d.spec_encode(ctx.config, paths).take(8) =~= self.d.spec_encode(ctx.config, paths));
        self.o.lemma_roundtrip(ctx, paths);
        self.o.lemma_encode_len(ctx.config, paths);
        assert(enc.subrange(8 * 3int, 8 * 3int + 8) =~= self.o.spec_encode(ctx.config, paths));
        assert(self.o.spec_encode(ctx.config, paths).take(8) =~= self.o.spec_encode(ctx.config, paths));
    }
}

} // verus!

use vstd::prelude::*;

use crate::config::Config;
use crate::error::Error;
use crate::plonk::element::Element;
use crate::plonk::preamble::Preamble;
use crate::plonk::primitives::{spec_by_config, spec_scalar_bytes, spec_scalar_normalized};
use crate::scalar::{Scalar, spec_zero_scalar};
use crate::plonk::indexed_witness::{IndexedWitness, IndexedWitnessView};

verus! {

/// Model of a polynomial.
pub struct PolynomialView {
    /// Qm (mult) selector.
    pub qm: Seq<u8>,
    /// Ql (left) selector.
    pub ql: Seq<u8>,
    /// Qr (right) selector.
    pub qr: Seq<u8>,
    /// Qd (fourth) selector.
    pub qd: Seq<u8>,
    /// Qc (constant) selector.
    pub qc: Seq<u8>,
    /// Qo (output) selector.
    pub qo: Seq<u8>,
    /// Public input.
    pub pi: Seq<u8>,
    /// Wired `a`.
    pub a: IndexedWitnessView,
    /// Wired `b`.
    pub b: IndexedWitnessView,
    /// Wired `d` (fourth).
    pub d: IndexedWitnessView,
    /// Wired `o` (output).
    pub o: IndexedWitnessView,
    /// Result of the evaluation of the polynomial.
    pub re: bool,
}

impl PolynomialView {
    /// Bytes of the encoding under `config`.
    pub open spec fn spec_encode(&self, config: Config) -> Seq<u8> {
        spec_scalar_bytes(self.qm, config)
            + spec_scalar_bytes(self.ql, config)
            + spec_scalar_bytes(self.qr, config)
            + spec_scalar_bytes(self.qd, config)
            + spec_scalar_bytes(self.qc, config)
            + spec_scalar_bytes(self.qo, config)
            + spec_scalar_bytes(self.pi, config)
            + self.a.spec_encode(config)
            + self.b.spec_encode(config)
            + self.d.spec_encode(config)
            + self.o.spec_encode(config)
            + self.re.spec_encode(config)
    }

    /// Model that a decoding of the encoding under `config` gives back.
    pub open spec fn spec_normalize(&self, config: Config) -> PolynomialView {
        PolynomialView {
            qm: spec_scalar_normalized(self.qm, config),
            ql: spec_scalar_normalized(self.ql, config),
            qr: spec_scalar_normalized(self.qr, config),
            qd: spec_scalar_normalized(self.qd, config),
            qc: spec_scalar_normalized(self.qc, config),
            qo: spec_scalar_normalized(self.qo, config),
            pi: spec_scalar_normalized(self.pi, config),
            a: self.a.spec_normalize(config),
            b: self.b.spec_normalize(config),
            d: self.d.spec_normalize(config),
            o: self.o.spec_normalize(config),
            re: self.re,
        }
    }

    /// Outcome of the validations against `preamble`.
    pub open spec fn spec_validate(&self, preamble: Preamble) -> Result<(), Error> {
        match self.a.spec_validate(preamble) {
            Err(e) => Err(e),
            Ok(_) =>             match self.b.spec_validate(preamble) {
                Err(e) => Err(e),
                Ok(_) =>                 match self.d.spec_validate(preamble) {
                    Err(e) => Err(e),
                    Ok(_) =>                     match self.o.spec_validate(preamble) {
                        Err(e) => Err(e),
                        Ok(_) => Ok(()),
                        },
                    },
                },
        }
    }
}

/// PLONK polynomial expression representation with its selectors and witnesses.
#[derive(Debug, Default, Clone, Copy, PartialEq, Eq, Hash)]
pub struct Polynomial {
    qm: Scalar,
    ql: Scalar,
    qr: Scalar,
    qd: Scalar,
    qc: Scalar,
    qo: Scalar,
    pi: Scalar,
    a: IndexedWitness,
    b: IndexedWitness,
    d: IndexedWitness,
    o: IndexedWitness,
    re: bool,
}

impl DeepView for Polynomial {
    type V = PolynomialView;

    closed spec fn deep_view(&self) -> PolynomialView {
        PolynomialView {
            qm: self.qm.deep_view(),
            ql: self.ql.deep_view(),
            qr: self.qr.deep_view(),
            qd: self.qd.deep_view(),
            qc: self.qc.deep_view(),
            qo: self.qo.deep_view(),
            pi: self.pi.deep_view(),
            a: self.a.deep_view(),
            b: self.b.deep_view(),
            d: self.d.deep_view(),
            o: self.o.deep_view(),
            re: self.re.deep_view(),
        }
    }
}

impl Element for Polynomial {
    open spec fn spec_len(config: Config) -> nat {
        spec_by_config(config, 69, 421) as nat
    }

    open spec fn spec_encode(&self, config: Config) -> Seq<u8> {
        self.deep_view().spec_encode(config)
    }

    open spec fn spec_default() -> PolynomialView {
        PolynomialView {
            qm: spec_zero_scalar(),
            ql: spec_zero_scalar(),
            qr: spec_zero_scalar(),
            qd: spec_zero_scalar(),
            qc: spec_zero_scalar(),
            qo: spec_zero_scalar(),
            pi: spec_zero_scalar(),
            a: IndexedWitness::spec_default(),
            b: IndexedWitness::spec_default(),
            d: IndexedWitness::spec_default(),
            o: IndexedWitness::spec_default(),
            re: false,
        }
    }

    open spec fn spec_decode_into(old: PolynomialView, config: Config, bytes: Seq<u8>) -> Result<PolynomialView, Error> {
        match Scalar::spec_decode_into(old.qm, config, bytes.skip(0)) {
            Err(e) => Err(e),
            Ok(qm) =>             match Scalar::spec_decode_into(old.ql, config, bytes.skip(spec_by_config(config, 0, 32))) {
                Err(e) => Err(e),
                Ok(ql) =>                 match Scalar::spec_decode_into(old.qr, config, bytes.skip(spec_by_config(config, 0, 64))) {
                    Err(e) => Err(e),
                    Ok(qr) =>                     match Scalar::spec_decode_into(old.qd, config, bytes.skip(spec_by_config(config, 0, 96))) {
                        Err(e) => Err(e),
                        Ok(qd) =>                         match Scalar::spec_decode_into(old.qc, config, bytes.skip(spec_by_config(config, 0, 128))) {
                            Err(e) => Err(e),
                            Ok(qc) =>                             match Scalar::spec_decode_into(old.qo, config, bytes.skip(spec_by_config(config, 0, 160))) {
                                Err(e) => Err(e),
                                Ok(qo) =>                                 match Scalar::spec_decode_into(old.pi, config, bytes.skip(spec_by_config(config, 0, 192))) {
                                    Err(e) => Err(e),
                                    Ok(pi) =>                                     match IndexedWitness::spec_decode_into(old.a, config, bytes.skip(spec_by_config(config, 0, 224))) {
                                        Err(e) => Err(e),
                                        Ok(a) =>                                         match IndexedWitness::spec_decode_into(old.b, config, bytes.skip(spec_by_config(config, 17, 273))) {
                                            Err(e) => Err(e),
                                            Ok(b) =>                                             match IndexedWitness::spec_decode_into(old.d, config, bytes.skip(spec_by_config(config, 34, 322))) {
                                                Err(e) => Err(e),
                                                Ok(d) =>                                                 match IndexedWitness::spec_decode_into(old.o, config, bytes.skip(spec_by_config(config, 51, 371))) {
                                                    Err(e) => Err(e),
                                                    Ok(o) =>                                                     match bool::spec_decode_into(old.re, config, bytes.skip(spec_by_config(config, 68, 420))) {
                                                        Err(e) => Err(e),
                                                        Ok(re) => Ok(PolynomialView { qm, ql, qr, qd, qc, qo, pi, a, b, d, o, re }),
                                                        },
                                                    },
                                                },
                                            },
                                        },
                                    },
                                },
                            },
                        },
                    },
                },
        }
    }

    open spec fn spec_validate(&self, preamble: Preamble) -> Result<(), Error> {
        self.deep_view().spec_validate(preamble)
    }

    open spec fn spec_normalize(&self, config: Config) -> PolynomialView {
        self.deep_view().spec_normalize(config)
    }

    proof fn lemma_encode_len(&self, config: Config) {
        let v = self.deep_view();
        self.qm.lemma_encode_len(config);
        assert(self.qm.spec_encode(config) == spec_scalar_bytes(v.qm, config));
        assert(self.qm.spec_encode(config).len() == spec_by_config(config, 0, 32));
        self.ql.lemma_encode_len(config);
        assert(self.ql.spec_encode(config) == spec_scalar_bytes(v.ql, config));
        assert(self.ql.spec_encode(config).len() == spec_by_config(config, 0, 32));
        self.qr.lemma_encode_len(config);
        assert(self.qr.spec_encode(config) == spec_scalar_bytes(v.qr, config));
        assert(self.qr.spec_encode(config).len() == spec_by_config(config, 0, 32));
        self.qd.lemma_encode_len(config);
        assert(self.qd.spec_encode(config) == spec_scalar_bytes(v.qd, config));
        assert(self.qd.spec_encode(config).len() == spec_by_config(config, 0, 32));
        self.qc.lemma_encode_len(config);
        assert(self.qc.spec_encode(config) == spec_scalar_bytes(v.qc, config));
        assert(self.qc.spec_encode(config).len() == spec_by_config(config, 0, 32));
        self.qo.lemma_encode_len(config);
        assert(self.qo.spec_encode(config) == spec_scalar_bytes(v.qo, config));
        assert(self.qo.spec_encode(config).len() == spec_by_config(config, 0, 32));
        self.pi.lemma_encode_len(config);
        assert(self.pi.spec_encode(config) == spec_scalar_bytes(v.pi, config));
        assert(self.pi.spec_encode(config).len() == spec_by_config(config, 0, 32));
        self.a.lemma_encode_len(config);
        assert(self.a.spec_encode(config) == v.a.spec_encode(config));
        assert(self.a.spec_encode(config).len() == spec_by_config(config, 17, 49));
        self.b.lemma_encode_len(config);
        assert(self.b.spec_encode(config) == v.b.spec_encode(config));
        assert(self.b.spec_encode(config).len() == spec_by_config(config, 17, 49));
        self.d.lemma_encode_len(config);
        assert(self.d.spec_encode(config) == v.d.spec_encode(config));
        assert(self.d.spec_encode(config).len() == spec_by_config(config, 17, 49));
        self.o.lemma_encode_len(config);
        assert(self.o.spec_encode(config) == v.o.spec_encode(config));
        assert(self.o.spec_encode(config).len() == spec_by_config(config, 17, 49));
        self.re.lemma_encode_len(config);
        assert(self.re.spec_encode(config) == v.re.spec_encode(config));
        assert(self.re.spec_encode(config).len() == 1);
        assert(self.spec_encode(config) == v.spec_encode(config));
        assert(v.spec_encode(config).len() == Self::spec_len(config));
    }

    proof fn lemma_decode_prefix(old: PolynomialView, config: Config, bytes: Seq<u8>) {
        let n = Self::spec_len(config) as int;
        let t = bytes.take(n);
        Scalar::lemma_decode_prefix(old.qm, config, bytes.skip(0));
        Scalar::lemma_decode_prefix(old.qm, config, t.skip(0));
        assert(t.skip(0).take(spec_by_config(config, 0, 32)) =~= bytes.skip(0).take(spec_by_config(config, 0, 32)));
        Scalar::lemma_decode_prefix(old.ql, config, bytes.skip(spec_by_config(config, 0, 32)));
        Scalar::lemma_decode_prefix(old.ql, config, t.skip(spec_by_config(config, 0, 32)));
        assert(t.skip(spec_by_config(config, 0, 32)).take(spec_by_config(config, 0, 32)) =~= bytes.skip(spec_by_config(config, 0, 32)).take(spec_by_config(config, 0, 32)));
        Scalar::lemma_decode_prefix(old.qr, config, bytes.skip(spec_by_config(config, 0, 64)));
        Scalar::lemma_decode_prefix(old.qr, config, t.skip(spec_by_config(config, 0, 64)));
        assert(t.skip(spec_by_config(config, 0, 64)).take(spec_by_config(config, 0, 32)) =~= bytes.skip(spec_by_config(config, 0, 64)).take(spec_by_config(config, 0, 32)));
        Scalar::lemma_decode_prefix(old.qd, config, bytes.skip(spec_by_config(config, 0, 96)));
        Scalar::lemma_decode_prefix(old.qd, config, t.skip(spec_by_config(config, 0, 96)));
        assert(t.skip(spec_by_config(config, 0, 96)).take(spec_by_config(config, 0, 32)) =~= bytes.skip(spec_by_config(config, 0, 96)).take(spec_by_config(config, 0, 32)));
        Scalar::lemma_decode_prefix(old.qc, config, bytes.skip(spec_by_config(config, 0, 128)));
        Scalar::lemma_decode_prefix(old.qc, config, t.skip(spec_by_config(config, 0, 128)));
        assert(t.skip(spec_by_config(config, 0, 128)).take(spec_by_config(config, 0, 32)) =~= bytes.skip(spec_by_config(config, 0, 128)).take(spec_by_config(config, 0, 32)));
        Scalar::lemma_decode_prefix(old.qo, config, bytes.skip(spec_by_config(config, 0, 160)));
        Scalar::lemma_decode_prefix(old.qo, config, t.skip(spec_by_config(config, 0, 160)));
        assert(t.skip(spec_by_config(config, 0, 160)).take(spec_by_config(config, 0, 32)) =~= bytes.skip(spec_by_config(config, 0, 160)).take(spec_by_config(config, 0, 32)));
        Scalar::lemma_decode_prefix(old.pi, config, bytes.skip(spec_by_config(config, 0, 192)));
        Scalar::lemma_decode_prefix(old.pi, config, t.skip(spec_by_config(config, 0, 192)));
        assert(t.skip(spec_by_config(config, 0, 192)).take(spec_by_config(config, 0, 32)) =~= bytes.skip(spec_by_config(config, 0, 192)).take(spec_by_config(config, 0, 32)));
        IndexedWitness::lemma_decode_prefix(old.a, config, bytes.skip(spec_by_config(config, 0, 224)));
        IndexedWitness::lemma_decode_prefix(old.a, config, t.skip(spec_by_config(config, 0, 224)));
        assert(t.skip(spec_by_config(config, 0, 224)).take(spec_by_config(config, 17, 49)) =~= bytes.skip(spec_by_config(config, 0, 224)).take(spec_by_config(config, 17, 49)));
        IndexedWitness::lemma_decode_prefix(old.b, config, bytes.skip(spec_by_config(config, 17, 273)));
        IndexedWitness::lemma_decode_prefix(old.b, config, t.skip(spec_by_config(config, 17, 273)));
        assert(t.skip(spec_by_config(config, 17, 273)).take(spec_by_config(config, 17, 49)) =~= bytes.skip(spec_by_config(config, 17, 273)).take(spec_by_config(config, 17, 49)));
        IndexedWitness::lemma_decode_prefix(old.d, config, bytes.skip(spec_by_config(config, 34, 322)));
        IndexedWitness::lemma_decode_prefix(old.d, config, t.skip(spec_by_config(config, 34, 322)));
        assert(t.skip(spec_by_config(config, 34, 322)).take(spec_by_config(config, 17, 49)) =~= bytes.skip(spec_by_config(config, 34, 322)).take(spec_by_config(config, 17, 49)));
        IndexedWitness::lemma_decode_prefix(old.o, config, bytes.skip(spec_by_config(config, 51, 371)));
        IndexedWitness::lemma_decode_prefix(old.o, config, t.skip(spec_by_config(config, 51, 371)));
        assert(t.skip(spec_by_config(config, 51, 371)).take(spec_by_config(config, 17, 49)) =~= bytes.skip(spec_by_config(config, 51, 371)).take(spec_by_config(config, 17, 49)));
        bool::lemma_decode_prefix(old.re, config, bytes.skip(spec_by_config(config, 68, 420)));
        bool::lemma_decode_prefix(old.re, config, t.skip(spec_by_config(config, 68, 420)));
        assert(t.skip(spec_by_config(config, 68, 420)).take(1) =~= bytes.skip(spec_by_config(config, 68, 420)).take(1));
    }

    proof fn lemma_roundtrip(&self, config: Config) {
        let enc = self.spec_encode(config);
        self.qm.lemma_encode_len(config);
        self.ql.lemma_encode_len(config);
        self.qr.lemma_encode_len(config);
        self.qd.lemma_encode_len(config);
        self.qc.lemma_encode_len(config);
        self.qo.lemma_encode_len(config);
        self.pi.lemma_encode_len(config);
        self.a.lemma_encode_len(config);
        self.b.lemma_encode_len(config);
        self.d.lemma_encode_len(config);
        self.o.lemma_encode_len(config);
        self.re.lemma_encode_len(config);
        self.qm.lemma_roundtrip(config);
        Scalar::lemma_decode_prefix(Scalar::spec_default(), config, enc.skip(0));
        assert(enc.skip(0).take(spec_by_config(config, 0, 32)) =~= self.qm.spec_encode(config));
        self.ql.lemma_roundtrip(config);
        Scalar::lemma_decode_prefix(Scalar::spec_default(), config, enc.skip(spec_by_config(config, 0, 32)));
        assert(enc.skip(spec_by_config(config, 0, 32)).take(spec_by_config(config, 0, 32)) =~= self.ql.spec_encode(config));
        self.qr.lemma_roundtrip(config);
        Scalar::lemma_decode_prefix(Scalar::spec_default(), config, enc.skip(spec_by_config(config, 0, 64)));
        assert(enc.skip(spec_by_config(config, 0, 64)).take(spec_by_config(config, 0, 32)) =~= self.qr.spec_encode(config));
        self.qd.lemma_roundtrip(config);
        Scalar::lemma_decode_prefix(Scalar::spec_default(), config, enc.skip(spec_by_config(config, 0, 96)));
        assert(enc.skip(spec_by_config(config, 0, 96)).take(spec_by_config(config, 0, 32)) =~= self.qd.spec_encode(config));
        self.qc.lemma_roundtrip(config);
        Scalar::lemma_decode_prefix(Scalar::spec_default(), config, enc.skip(spec_by_config(config, 0, 128)));
        assert(enc.skip(spec_by_config(config, 0, 128)).take(spec_by_config(config, 0, 32)) =~= self.qc.spec_encode(config));
        self.qo.lemma_roundtrip(config);
        Scalar::lemma_decode_prefix(Scalar::spec_default(), config, enc.skip(spec_by_config(config, 0, 160)));
        assert(enc.skip(spec_by_config(config, 0, 160)).take(spec_by_config(config, 0, 32)) =~= self.qo.spec_encode(config));
        self.pi.lemma_roundtrip(config);
        Scalar::lemma_decode_prefix(Scalar::spec_default(), config, enc.skip(spec_by_config(config, 0, 192)));
        assert(enc.skip(spec_by_config(config, 0, 192)).take(spec_by_config(config, 0, 32)) =~= self.pi.spec_encode(config));
        self.a.lemma_roundtrip(config);
        IndexedWitness::lemma_decode_prefix(IndexedWitness::spec_default(), config, enc.skip(spec_by_config(config, 0, 224)));
        assert(enc.skip(spec_by_config(config, 0, 224)).take(spec_by_config(config, 17, 49)) =~= self.a.spec_encode(config));
        self.b.lemma_roundtrip(config);
        IndexedWitness::lemma_decode_prefix(IndexedWitness::spec_default(), config, enc.skip(spec_by_config(config, 17, 273)));
        assert(enc.skip(spec_by_config(config, 17, 273)).take(spec_by_config(config, 17, 49)) =~= self.b.spec_encode(config));
        self.d.lemma_roundtrip(config);
        IndexedWitness::lemma_decode_prefix(IndexedWitness::spec_default(), config, enc.skip(spec_by_config(config, 34, 322)));
        assert(enc.skip(spec_by_config(config, 34, 322)).take(spec_by_config(config, 17, 49)) =~= self.d.spec_encode(config));
        self.o.lemma_roundtrip(config);
        IndexedWitness::lemma_decode_prefix(IndexedWitness::spec_default(), config, enc.skip(spec_by_config(config, 51, 371)));
        assert(enc.skip(spec_by_config(config, 51, 371)).take(spec_by_config(config, 17, 49)) =~= self.o.spec_encode(config));
        self.re.lemma_roundtrip(config);
        bool::lemma_decode_prefix(bool::spec_default(), config, enc.skip(spec_by_config(config, 68, 420)));
        assert(enc.skip(spec_by_config(config, 68, 420)).take(1) =~= self.re.spec_encode(config));
    }

    fn zeroed() -> (r: Polynomial) {
        Polynomial {
            qm: Scalar::zero(),
            ql: Scalar::zero(),
            qr: Scalar::zero(),
            qd: Scalar::zero(),
            qc: Scalar::zero(),
            qo: Scalar::zero(),
            pi: Scalar::zero(),
            a: IndexedWitness::zeroed(),
            b: IndexedWitness::zeroed(),
            d: IndexedWitness::zeroed(),
            o: IndexedWitness::zeroed(),
            re: false,
        }
    }

    fn len(config: &Config) -> (n: usize) {
        if config.zeroed_scalar_values {
            69
        } else {
            421
        }
    }

    fn to_buffer(&self, config: &Config, buf: &mut [u8]) {
        let _buf_len = buf.len();
        let sl: usize = if config.zeroed_scalar_values {
            0
        } else {
            224
        };
        proof {
            self.lemma_encode_len(*config);
            self.qm.lemma_encode_len(*config);
            self.ql.lemma_encode_len(*config);
            self.qr.lemma_encode_len(*config);
            self.qd.lemma_encode_len(*config);
            self.qc.lemma_encode_len(*config);
            self.qo.lemma_encode_len(*config);
            self.pi.lemma_encode_len(*config);
            assert(self.spec_selector_bytes(*config).len() == sl);
            assert(self.spec_encode(*config) =~= self.spec_selector_bytes(*config) + self.spec_wire_bytes(*config));
        }
        self.encode_selectors(config, buf);
        let ghost mid = buf@;
        let (_, rest) = buf.split_at_mut(sl);
        self.encode_wires(config, rest);
        proof {
            assert(mid.skip(sl as int) =~= old(buf)@.skip(sl as int));
            assert(buf@ =~= self.spec_encode(*config) + old(buf)@.skip(Self::spec_len(*config) as int));
        }
    }

    fn try_from_buffer_in_place(&mut self, config: &Config, buf: &[u8]) -> (r: Result<(), Error>) {
        let ghost bytes = buf@;
        let rest = buf;
        assert(rest@ =~= bytes.skip(0));
        let rest = match self.qm.try_decode_in_place(config, rest) {
            Ok(r) => r,
            Err(e) => return Err(e),
        };
        assert(rest@ =~= bytes.skip(spec_by_config(*config, 0, 32)));
        let rest = match self.ql.try_decode_in_place(config, rest) {
            Ok(r) => r,
            Err(e) => return Err(e),
        };
        assert(rest@ =~= bytes.skip(spec_by_config(*config, 0, 64)));
        let rest = match self.qr.try_decode_in_place(config, rest) {
            Ok(r) => r,
            Err(e) => return Err(e),
        };
        assert(rest@ =~= bytes.skip(spec_by_config(*config, 0, 96)));
        let rest = match self.qd.try_decode_in_place(config, rest) {
            Ok(r) => r,
            Err(e) => return Err(e),
        };
        assert(rest@ =~= bytes.skip(spec_by_config(*config, 0, 128)));
        let rest = match self.qc.try_decode_in_place(config, rest) {
            Ok(r) => r,
            Err(e) => return Err(e),
        };
        assert(rest@ =~= bytes.skip(spec_by_config(*config, 0, 160)));
        let rest = match self.qo.try_decode_in_place(config, rest) {
            Ok(r) => r,
            Err(e) => return Err(e),
        };
        assert(rest@ =~= bytes.skip(spec_by_config(*config, 0, 192)));
        let rest = match self.pi.try_decode_in_place(config, rest) {
            Ok(r) => r,
            Err(e) => return Err(e),
        };
        assert(rest@ =~= bytes.skip(spec_by_config(*config, 0, 224)));
        let rest = match self.a.try_decode_in_place(config, rest) {
            Ok(r) => r,
            Err(e) => return Err(e),
        };
        assert(rest@ =~= bytes.skip(spec_by_config(*config, 17, 273)));
        let rest = match self.b.try_decode_in_place(config, rest) {
            Ok(r) => r,
            Err(e) => return Err(e),
        };
        assert(rest@ =~= bytes.skip(spec_by_config(*config, 34, 322)));
        let rest = match self.d.try_decode_in_place(config, rest) {
            Ok(r) => r,
            Err(e) => return Err(e),
        };
        assert(rest@ =~= bytes.skip(spec_by_config(*config, 51, 371)));
        let rest = match self.o.try_decode_in_place(config, rest) {
            Ok(r) => r,
            Err(e) => return Err(e),
        };
        assert(rest@ =~= bytes.skip(spec_by_config(*config, 68, 420)));
        let rest = match self.re.try_decode_in_place(config, rest) {
            Ok(r) => r,
            Err(e) => return Err(e),
        };
        Ok(())
    }

    fn validate(&self, preamble: &Preamble) -> (r: Result<(), Error>) {
        match self.qm.validate(preamble) {
            Ok(()) => {},
            Err(e) => return Err(e),
        }
        match self.ql.validate(preamble) {
            Ok(()) => {},
            Err(e) => return Err(e),
        }
        match self.qr.validate(preamble) {
            Ok(()) => {},
            Err(e) => return Err(e),
        }
        match self.qd.validate(preamble) {
            Ok(()) => {},
            Err(e) => return Err(e),
        }
        match self.qc.validate(preamble) {
            Ok(()) => {},
            Err(e) => return Err(e),
        }
        match self.qo.validate(preamble) {
            Ok(()) => {},
            Err(e) => return Err(e),
        }
        match self.pi.validate(preamble) {
            Ok(()) => {},
            Err(e) => return Err(e),
        }
        match self.a.validate(preamble) {
            Ok(()) => {},
            Err(e) => return Err(e),
        }
        match self.b.validate(preamble) {
            Ok(()) => {},
            Err(e) => return Err(e),
        }
        match self.d.validate(preamble) {
            Ok(()) => {},
            Err(e) => return Err(e),
        }
        match self.o.validate(preamble) {
            Ok(()) => {},
            Err(e) => return Err(e),
        }
        match self.re.validate(preamble) {
            Ok(()) => {},
            Err(e) => return Err(e),
        }
        Ok(())
    }
}

impl Polynomial {
    /// Bytes of the selectors under `config`.
    spec fn spec_selector_bytes(&self, config: Config) -> Seq<u8> {
        self.qm.spec_encode(config) + self.ql.spec_encode(config) + self.qr.spec_encode(config) + self.qd.spec_encode(config) + self.qc.spec_encode(config) + self.qo.spec_encode(config) + self.pi.spec_encode(config)
    }

    /// Bytes of the wired witnesses and the result under `config`.
    spec fn spec_wire_bytes(&self, config: Config) -> Seq<u8> {
        self.a.spec_encode(config) + self.b.spec_encode(config) + self.d.spec_encode(config) + self.o.spec_encode(config) + self.re.spec_encode(config)
    }

    /// Write the selectors into the front of the buffer.
    fn encode_selectors(&self, config: &Config, buf: &mut [u8])
        requires
            old(buf)@.len() >= spec_by_config(*config, 0, 224),
        ensures
            final(buf)@ == self.spec_selector_bytes(*config) + old(buf)@.skip(spec_by_config(*config, 0, 224)),
    {
        let rest = self.qm.encode(config, buf);
        let rest = self.ql.encode(config, rest);
        let rest = self.qr.encode(config, rest);
        let rest = self.qd.encode(config, rest);
        let rest = self.qc.encode(config, rest);
        let rest = self.qo.encode(config, rest);
        let rest = self.pi.encode(config, rest);
        proof {
            self.qm.lemma_encode_len(*config);
            assert(buf@ =~= self.spec_selector_bytes(*config) + old(buf)@.skip(spec_by_config(*config, 0, 224)));
        }
    }

    /// Write the wired witnesses and the result into the front of the buffer.
    fn encode_wires(&self, config: &Config, buf: &mut [u8])
        requires
            old(buf)@.len() >= spec_by_config(*config, 69, 197),
        ensures
            final(buf)@ == self.spec_wire_bytes(*config) + old(buf)@.skip(spec_by_config(*config, 69, 197)),
    {
        let rest = self.a.encode(config, buf);
        let rest = self.b.encode(config, rest);
        let rest = self.d.encode(config, rest);
        let rest = self.o.encode(config, rest);
        let rest = self.re.encode(config, rest);
        proof {
            assert(buf@ =~= self.spec_wire_bytes(*config) + old(buf)@.skip(spec_by_config(*config, 69, 197)));
        }
    }

    /// Create a new polynomial.
    pub fn new(
        qm: Scalar, ql: Scalar, qr: Scalar, qd: Scalar, qc: Scalar, qo: Scalar, pi: Scalar, a: IndexedWitness, b: IndexedWitness, d: IndexedWitness, o: IndexedWitness, re: bool,
    ) -> (p: Polynomial)
        ensures
            p.deep_view() == (PolynomialView { qm: qm.deep_view(), ql: ql.deep_view(), qr: qr.deep_view(), qd: qd.deep_view(), qc: qc.deep_view(), qo: qo.deep_view(), pi: pi.deep_view(), a: a.deep_view(), b: b.deep_view(), d: d.deep_view(), o: o.deep_view(), re }),
    {
        Polynomial { qm, ql, qr, qd, qc, qo, pi, a, b, d, o, re }
    }

    /// Check if the polynomial evaluation is ok.
    pub fn is_ok(&self) -> (b: bool)
        ensures
            b == self.deep_view().re,
    {
        self.re
    }

    /// Fetch the constraint internals: the selectors, the wired witnesses and the result.
    pub fn internals(&self) -> (r: (
        &Scalar,
        &Scalar,
        &Scalar,
        &Scalar,
        &Scalar,
        &Scalar,
        &Scalar,
        &IndexedWitness,
        &IndexedWitness,
        &IndexedWitness,
        &IndexedWitness,
        bool,
    ))
        ensures
            r.0.deep_view() == self.deep_view().qm,
            r.1.deep_view() == self.deep_view().ql,
            r.2.deep_view() == self.deep_view().qr,
            r.3.deep_view() == self.deep_view().qd,
            r.4.deep_view() == self.deep_view().qc,
            r.5.deep_view() == self.deep_view().qo,
            r.6.deep_view() == self.deep_view().pi,
            r.7.deep_view() == self.deep_view().a,
            r.8.deep_view() == self.deep_view().b,
            r.9.deep_view() == self.deep_view().d,
            r.10.deep_view() == self.deep_view().o,
            r.11 == self.deep_view().re,
    {
        (
            &self.qm,
            &self.ql,
            &self.qr,
            &self.qd,
            &self.qc,
            &self.qo,
            &self.pi,
            &self.a,
            &self.b,
            &self.d,
            &self.o,
            self.re,
        )
    }
}

} // verus!

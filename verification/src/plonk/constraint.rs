use vstd::prelude::*;

use crate::config::Config;
use crate::error::Error;
use crate::plonk::element::Element;
use crate::plonk::preamble::Preamble;
use crate::plonk::primitives::{spec_by_config, spec_zeroes};

use crate::bytes::encode_zeroes;
use crate::plonk::polynomial::{Polynomial, PolynomialView};
use crate::plonk::source::{Source, SourceView};

verus! {

/// Serialized length of a constraint: id, polynomial, source, and the room of a scalar.
pub open spec fn spec_constraint_len(config: Config) -> nat {
    if config.zeroed_scalar_values {
        1117
    } else {
        1501
    }
}

/// Model of a constraint.
pub struct ConstraintView {
    /// Id of the constraint in the constraint system.
    pub id: u64,
    /// Polynomial of the constraint.
    pub polynomial: PolynomialView,
    /// Source of the constraint.
    pub source: SourceView,
}

impl ConstraintView {
    /// Bytes of the encoding under `config`.
    pub open spec fn spec_encode(&self, config: Config) -> Seq<u8> {
        self.id.spec_encode(config)
            + self.polynomial.spec_encode(config)
            + self.source.spec_encode(config)
            + spec_zeroes(spec_by_config(config, 0, 32) as nat)
    }

    /// Model that a decoding of the encoding under `config` gives back.
    pub open spec fn spec_normalize(&self, config: Config) -> ConstraintView {
        ConstraintView {
            id: self.id,
            polynomial: self.polynomial.spec_normalize(config),
            source: self.source.spec_normalize(config),
        }
    }

    /// Outcome of the validations against `preamble`.
    pub open spec fn spec_validate(&self, preamble: Preamble) -> Result<(), Error> {
        match self.polynomial.spec_validate(preamble) {
            Err(e) => Err(e),
            Ok(_) =>             match self.source.spec_validate(preamble) {
                Err(e) => Err(e),
                Ok(_) => Ok(()),
                },
        }
    }
}

/// Constraint gate of a circuit.
#[derive(Debug, Default, Clone, PartialEq, Eq, Hash)]
pub struct Constraint {
    id: u64,
    polynomial: Polynomial,
    source: Source,
}

impl DeepView for Constraint {
    type V = ConstraintView;

    closed spec fn deep_view(&self) -> ConstraintView {
        ConstraintView {
            id: self.id.deep_view(),
            polynomial: self.polynomial.deep_view(),
            source: self.source.deep_view(),
        }
    }
}

impl Element for Constraint {
    open spec fn spec_len(config: Config) -> nat {
        spec_by_config(config, 1117, 1501) as nat
    }

    open spec fn spec_encode(&self, config: Config) -> Seq<u8> {
        self.deep_view().spec_encode(config)
    }

    open spec fn spec_default() -> ConstraintView {
        ConstraintView {
            id: 0,
            polynomial: Polynomial::spec_default(),
            source: Source::spec_default(),
        }
    }

    open spec fn spec_decode_into(old: ConstraintView, config: Config, bytes: Seq<u8>) -> Result<ConstraintView, Error> {
        match u64::spec_decode_into(old.id, config, bytes.skip(0)) {
            Err(e) => Err(e),
            Ok(id) =>             match Polynomial::spec_decode_into(old.polynomial, config, bytes.skip(8)) {
                Err(e) => Err(e),
                Ok(polynomial) =>                 match Source::spec_decode_into(old.source, config, bytes.skip(spec_by_config(config, 77, 429))) {
                    Err(e) => Err(e),
                    Ok(source) => Ok(ConstraintView { id, polynomial, source }),
                    },
                },
        }
    }

    open spec fn spec_validate(&self, preamble: Preamble) -> Result<(), Error> {
        self.deep_view().spec_validate(preamble)
    }

    open spec fn spec_normalize(&self, config: Config) -> ConstraintView {
        self.deep_view().spec_normalize(config)
    }

    proof fn lemma_encode_len(&self, config: Config) {
        let v = self.deep_view();
        self.id.lemma_encode_len(config);
        assert(self.id.spec_encode(config) == v.id.spec_encode(config));
        assert(self.id.spec_encode(config).len() == 8);
        self.polynomial.lemma_encode_len(config);
        assert(self.polynomial.spec_encode(config) == v.polynomial.spec_encode(config));
        assert(self.polynomial.spec_encode(config).len() == spec_by_config(config, 69, 421));
        self.source.lemma_encode_len(config);
        assert(self.source.spec_encode(config) == v.source.spec_encode(config));
        assert(self.source.spec_encode(config).len() == 1040);
        assert(self.spec_encode(config) == v.spec_encode(config));
        assert(v.spec_encode(config).len() == Self::spec_len(config));
    }

    proof fn lemma_decode_prefix(old: ConstraintView, config: Config, bytes: Seq<u8>) {
        let n = Self::spec_len(config) as int;
        let t = bytes.take(n);
        u64::lemma_decode_prefix(old.id, config, bytes.skip(0));
        u64::lemma_decode_prefix(old.id, config, t.skip(0));
        assert(t.skip(0).take(8) =~= bytes.skip(0).take(8));
        Polynomial::lemma_decode_prefix(old.polynomial, config, bytes.skip(8));
        Polynomial::lemma_decode_prefix(old.polynomial, config, t.skip(8));
        assert(t.skip(8).take(spec_by_config(config, 69, 421)) =~= bytes.skip(8).take(spec_by_config(config, 69, 421)));
        Source::lemma_decode_prefix(old.source, config, bytes.skip(spec_by_config(config, 77, 429)));
        Source::lemma_decode_prefix(old.source, config, t.skip(spec_by_config(config, 77, 429)));
        assert(t.skip(spec_by_config(config, 77, 429)).take(1040) =~= bytes.skip(spec_by_config(config, 77, 429)).take(1040));
    }

    proof fn lemma_roundtrip(&self, config: Config) {
        let enc = self.spec_encode(config);
        self.id.lemma_encode_len(config);
        self.polynomial.lemma_encode_len(config);
        self.source.lemma_encode_len(config);
        self.id.lemma_roundtrip(config);
        u64::lemma_decode_prefix(u64::spec_default(), config, enc.skip(0));
        assert(enc.skip(0).take(8) =~= self.id.spec_encode(config));
        self.polynomial.lemma_roundtrip(config);
        Polynomial::lemma_decode_prefix(Polynomial::spec_default(), config, enc.skip(8));
        assert(enc.skip(8).take(spec_by_config(config, 69, 421)) =~= self.polynomial.spec_encode(config));
        self.source.lemma_roundtrip(config);
        Source::lemma_decode_prefix(Source::spec_default(), config, enc.skip(spec_by_config(config, 77, 429)));
        assert(enc.skip(spec_by_config(config, 77, 429)).take(1040) =~= self.source.spec_encode(config));
    }

    fn zeroed() -> (r: Constraint) {
        Constraint {
            id: 0,
            polynomial: Polynomial::zeroed(),
            source: Source::zeroed(),
        }
    }

    fn len(config: &Config) -> (n: usize) {
        if config.zeroed_scalar_values {
            1117
        } else {
            1501
        }
    }

    fn to_buffer(&self, config: &Config, buf: &mut [u8]) {
        let _buf_len = buf.len();
        let rest = self.id.encode(config, buf);
        let rest = self.polynomial.encode(config, rest);
        let rest = self.source.encode(config, rest);
        let pad: usize = if config.zeroed_scalar_values {
            0
        } else {
            32
        };
        let _ = encode_zeroes(pad, rest);
        proof {
            self.lemma_encode_len(*config);
            assert(buf@ =~= self.spec_encode(*config) + old(buf)@.skip(Self::spec_len(*config) as int));
        }
    }

    fn try_from_buffer_in_place(&mut self, config: &Config, buf: &[u8]) -> (r: Result<(), Error>) {
        let ghost bytes = buf@;
        let rest = buf;
        assert(rest@ =~= bytes.skip(0));
        let rest = match self.id.try_decode_in_place(config, rest) {
            Ok(r) => r,
            Err(e) => return Err(e),
        };
        assert(rest@ =~= bytes.skip(8));
        let rest = match self.polynomial.try_decode_in_place(config, rest) {
            Ok(r) => r,
            Err(e) => return Err(e),
        };
        assert(rest@ =~= bytes.skip(spec_by_config(*config, 77, 429)));
        let rest = match self.source.try_decode_in_place(config, rest) {
            Ok(r) => r,
            Err(e) => return Err(e),
        };
        Ok(())
    }

    fn validate(&self, preamble: &Preamble) -> (r: Result<(), Error>) {
        match self.id.validate(preamble) {
            Ok(()) => {},
            Err(e) => return Err(e),
        }
        match self.polynomial.validate(preamble) {
            Ok(()) => {},
            Err(e) => return Err(e),
        }
        match self.source.validate(preamble) {
            Ok(()) => {},
            Err(e) => return Err(e),
        }
        Ok(())
    }
}

impl Constraint {
    /// Generate a new constraint.
    pub fn new(id: u64, polynomial: Polynomial, source: Source) -> (c: Constraint)
        ensures
            c.deep_view() == (ConstraintView { id, polynomial: polynomial.deep_view(), source: source.deep_view() }),
    {
        Constraint { id, polynomial, source }
    }

    /// Id of the constraint in the constraint system.
    pub fn id(&self) -> (id: u64)
        ensures
            id == self.deep_view().id,
    {
        self.id
    }

    /// Polynomial of the constraint in the constraint system.
    pub fn polynomial(&self) -> (p: &Polynomial)
        ensures
            p.deep_view() == self.deep_view().polynomial,
    {
        &self.polynomial
    }

    /// Source file that originated the constraint.
    pub fn source(&self) -> (s: &Source)
        ensures
            s.deep_view() == self.deep_view().source,
    {
        &self.source
    }

    /// Check if the polynomial evaluation is ok.
    pub fn is_ok(&self) -> (b: bool)
        ensures
            b == self.deep_view().polynomial.re,
    {
        self.polynomial.is_ok()
    }
}

} // verus!

use vstd::prelude::*;

use crate::config::Config;
use crate::context::{DecoderContext, DecoderContextView, EncoderContext};
use crate::element::{Codec, DecodableElement, Element, EncodableElement};
use crate::error::Error;
use crate::preamble::Preamble;

use crate::selectors::{Selectors, SelectorsView, WiredWitnesses, WiredWitnessesView};

verus! {

/// Model of a polynomial.
pub struct PolynomialView {
    /// Selectors of the polynomial.
    pub selectors: SelectorsView,
    /// Wired witnesses.
    pub witnesses: WiredWitnessesView,
    /// Polynomial evaluated to zero?
    pub evaluation: bool,
}

/// PLONK polynomial expression representation with its selectors and witnesses.
#[derive(Debug, Default, Clone, Copy, PartialEq, Eq, Hash)]
pub struct Polynomial {
    /// Selectors of the polynomial.
    pub selectors: Selectors,
    /// Wired witnesses.
    pub witnesses: WiredWitnesses,
    /// Polynomial evaluated to zero?
    pub evaluation: bool,
}

impl DeepView for Polynomial {
    type V = PolynomialView;

    open spec fn deep_view(&self) -> PolynomialView {
        PolynomialView {
            selectors: self.selectors.deep_view(),
            witnesses: self.witnesses.deep_view(),
            evaluation: self.evaluation,
        }
    }
}

impl Polynomial {
    /// Model of the polynomial as a decoding under `config` gives it back: selectors
    /// zeroed when the configuration skips scalar values.
    pub open spec fn spec_normalized(&self, config: Config) -> PolynomialView {
        PolynomialView {
            selectors: self.selectors.spec_normalized(config),
            witnesses: self.witnesses.deep_view(),
            evaluation: self.evaluation,
        }
    }

    /// Create a new polynomial with evaluation to either correct or incorrect.
    pub fn new(selectors: Selectors, witnesses: WiredWitnesses, evaluation: bool) -> (p: Polynomial)
        ensures
            p == (Polynomial { selectors, witnesses, evaluation }),
    {
        Polynomial { selectors, witnesses, evaluation }
    }

    /// Check if the polynomial evaluation is ok.
    pub fn is_ok(&self) -> (b: bool)
        ensures
            b == self.evaluation,
    {
        self.evaluation
    }

    /// Wire selectors.
    pub fn selectors(&self) -> (s: &Selectors)
        ensures
            *s == self.selectors,
    {
        &self.selectors
    }

    /// Wired witnesses.
    pub fn witnesses(&self) -> (w: &WiredWitnesses)
        ensures
            *w == self.witnesses,
    {
        &self.witnesses
    }
}

impl Element for Polynomial {
    open spec fn spec_len(config: Config) -> nat {
        Selectors::spec_len(config) + WiredWitnesses::spec_len(config) + bool::spec_len(config)
    }

    fn len(config: &Config) -> (n: usize) {
        if config.zeroed_scalar_values {
            33
        } else {
            417
        }
    }

    fn validate(&self, preamble: &Preamble) -> (r: Result<(), Error>) {
        let _ = self.selectors.validate(preamble);
        let _ = self.witnesses.validate(preamble);
        let _ = self.evaluation.validate(preamble);
        Ok(())
    }
}

impl EncodableElement for Polynomial {
    open spec fn spec_register(&self, paths: Seq<Seq<char>>) -> Seq<Seq<char>> {
        paths
    }

    /// Selectors, wired witnesses, then the evaluation.
    open spec fn spec_encode(&self, config: Config, paths: Seq<Seq<char>>) -> Seq<u8> {
        self.selectors.spec_encode(config, paths) + self.witnesses.spec_encode(config, paths)
            + self.evaluation.spec_encode(config, paths)
    }

    proof fn lemma_encode_len(&self, config: Config, paths: Seq<Seq<char>>) {
        self.selectors.lemma_encode_len(config, paths);
        self.witnesses.lemma_encode_len(config, paths);
    }

    proof fn lemma_register_extends(&self, paths: Seq<Seq<char>>) {
        assert(paths.is_prefix_of(paths));
    }

    fn to_buffer(&self, ctx: &mut EncoderContext, buf: &mut [u8]) {
        let ghost config = ctx@.preamble.config;
        let ghost paths = ctx@.paths;
        let rest = self.selectors.encode(ctx, buf);
        let rest = self.witnesses.encode(ctx, rest);
        let _ = self.evaluation.encode(ctx, rest);
        proof {
            assert(buf@ =~= self.spec_encode(config, paths) + old(buf)@.skip(
                Self::spec_len(config) as int,
            ));
        }
    }
}

impl DecodableElement for Polynomial {
    open spec fn spec_default() -> PolynomialView {
        PolynomialView {
            selectors: Selectors::spec_default(),
            witnesses: WiredWitnesses::spec_default(),
            evaluation: false,
        }
    }

    open spec fn spec_decode_into(old: PolynomialView, ctx: DecoderContextView, bytes: Seq<u8>) -> Result<PolynomialView, Error> {
        let sl = Selectors::spec_len(ctx.config) as int;
        if bytes.len() < Self::spec_len(ctx.config) {
            Err(Error::BufferTooSmall)
        } else {
            Ok(PolynomialView {
                selectors: Selectors::spec_decode_into(old.selectors, ctx, bytes)->Ok_0,
                witnesses: WiredWitnesses::spec_decode_into(old.witnesses, ctx, bytes.skip(sl))->Ok_0,
                evaluation: bytes[sl + 32] != 0,
            })
        }
    }

    proof fn lemma_decode_needs_len(old: PolynomialView, ctx: DecoderContextView, bytes: Seq<u8>) {
    }

    proof fn lemma_decode_prefix(old: PolynomialView, ctx: DecoderContextView, bytes: Seq<u8>) {
        let sl = Selectors::spec_len(ctx.config) as int;
        let n = Self::spec_len(ctx.config) as int;
        Selectors::lemma_decode_prefix(old.selectors, ctx, bytes);
        Selectors::lemma_decode_prefix(old.selectors, ctx, bytes.take(n));
        assert(bytes.take(n).take(sl) =~= bytes.take(sl));
        WiredWitnesses::lemma_decode_prefix(old.witnesses, ctx, bytes.skip(sl));
        WiredWitnesses::lemma_decode_prefix(old.witnesses, ctx, bytes.take(n).skip(sl));
        assert(bytes.take(n).skip(sl).take(32) =~= bytes.skip(sl).take(32));
    }

    fn zeroed() -> (r: Polynomial) {
        Polynomial { selectors: Selectors::zeroed(), witnesses: WiredWitnesses::zeroed(), evaluation: false }
    }

    fn try_from_buffer_in_place(&mut self, ctx: &DecoderContext, buf: &[u8]) -> (r: Result<(), Error>) {
        let ghost bytes = buf@;
        let ghost sl = Selectors::spec_len(ctx@.config) as int;
        let rest = match self.selectors.try_decode_in_place(ctx, buf) {
            Ok(r) => r,
            Err(e) => return Err(e),
        };
        let rest = match self.witnesses.try_decode_in_place(ctx, rest) {
            Ok(r) => r,
            Err(e) => return Err(e),
        };
        assert(rest@ =~= bytes.skip(sl + 32));
        match self.evaluation.try_decode_in_place(ctx, rest) {
            Ok(_) => {},
            Err(e) => return Err(e),
        }
        Ok(())
    }
}

impl Codec for Polynomial {
    open spec fn spec_normalize(&self, config: Config) -> PolynomialView {
        self.spec_normalized(config)
    }

    proof fn lemma_roundtrip(&self, ctx: DecoderContextView, paths: Seq<Seq<char>>) {
        let config = ctx.config;
        let enc = self.spec_encode(config, paths);
        let es = self.selectors.spec_encode(config, paths);
        let ew = self.witnesses.spec_encode(config, paths);
        self.lemma_encode_len(config, paths);
        self.selectors.lemma_encode_len(config, paths);
        self.witnesses.lemma_encode_len(config, paths);
        self.selectors.lemma_roundtrip(ctx, paths);
        self.witnesses.lemma_roundtrip(ctx, paths);
        Selectors::lemma_decode_prefix(Selectors::spec_default(), ctx, enc);
        assert(enc.take(es.len() as int) =~= es);
        WiredWitnesses::lemma_decode_prefix(WiredWitnesses::spec_default(), ctx, enc.skip(es.len() as int));
        assert(enc.skip(es.len() as int).take(32) =~= ew);
    }
}

} // verus!

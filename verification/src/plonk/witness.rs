use vstd::prelude::*;

use crate::config::Config;
use crate::error::Error;
use crate::plonk::element::Element;
use crate::plonk::preamble::Preamble;
use crate::plonk::primitives::{spec_by_config, spec_scalar_bytes, spec_scalar_normalized};
use crate::scalar::{Scalar, spec_zero_scalar};
use crate::plonk::source::{Source, SourceView};

verus! {

/// Serialized length of a witness: id, value and source.
pub open spec fn spec_witness_len(config: Config) -> nat {
    if config.zeroed_scalar_values {
        1048
    } else {
        1080
    }
}

/// Model of a witness.
pub struct WitnessView {
    /// Id of the witness in the constraint system.
    pub id: usize,
    /// Value of the witness.
    pub value: Seq<u8>,
    /// Source of the witness.
    pub source: SourceView,
}

impl WitnessView {
    /// Bytes of the encoding under `config`.
    pub open spec fn spec_encode(&self, config: Config) -> Seq<u8> {
        self.id.spec_encode(config)
            + spec_scalar_bytes(self.value, config)
            + self.source.spec_encode(config)
    }

    /// Model that a decoding of the encoding under `config` gives back.
    pub open spec fn spec_normalize(&self, config: Config) -> WitnessView {
        WitnessView {
            id: self.id,
            value: spec_scalar_normalized(self.value, config),
            source: self.source.spec_normalize(config),
        }
    }

    /// Outcome of the validations against `preamble`.
    pub open spec fn spec_validate(&self, preamble: Preamble) -> Result<(), Error> {
        match self.source.spec_validate(preamble) {
            Err(e) => Err(e),
            Ok(_) => Ok(()),
        }
    }
}

/// Witness allocation representation.
#[derive(Debug, Default, Clone, PartialEq, Eq, PartialOrd, Ord, Hash)]
pub struct Witness {
    id: usize,
    value: Scalar,
    source: Source,
}

impl DeepView for Witness {
    type V = WitnessView;

    closed spec fn deep_view(&self) -> WitnessView {
        WitnessView {
            id: self.id.deep_view(),
            value: self.value.deep_view(),
            source: self.source.deep_view(),
        }
    }
}

impl Element for Witness {
    open spec fn spec_len(config: Config) -> nat {
        spec_by_config(config, 1048, 1080) as nat
    }

    open spec fn spec_encode(&self, config: Config) -> Seq<u8> {
        self.deep_view().spec_encode(config)
    }

    open spec fn spec_default() -> WitnessView {
        WitnessView {
            id: 0,
            value: spec_zero_scalar(),
            source: Source::spec_default(),
        }
    }

    open spec fn spec_decode_into(old: WitnessView, config: Config, bytes: Seq<u8>) -> Result<WitnessView, Error> {
        match usize::spec_decode_into(old.id, config, bytes.skip(0)) {
            Err(e) => Err(e),
            Ok(id) =>             match Scalar::spec_decode_into(old.value, config, bytes.skip(8)) {
                Err(e) => Err(e),
                Ok(value) =>                 match Source::spec_decode_into(old.source, config, bytes.skip(spec_by_config(config, 8, 40))) {
                    Err(e) => Err(e),
                    Ok(source) => Ok(WitnessView { id, value, source }),
                    },
                },
        }
    }

    open spec fn spec_validate(&self, preamble: Preamble) -> Result<(), Error> {
        self.deep_view().spec_validate(preamble)
    }

    open spec fn spec_normalize(&self, config: Config) -> WitnessView {
        self.deep_view().spec_normalize(config)
    }

    proof fn lemma_encode_len(&self, config: Config) {
        let v = self.deep_view();
        self.id.lemma_encode_len(config);
        assert(self.id.spec_encode(config) == v.id.spec_encode(config));
        assert(self.id.spec_encode(config).len() == 8);
        self.value.lemma_encode_len(config);
        assert(self.value.spec_encode(config) == spec_scalar_bytes(v.value, config));
        assert(self.value.spec_encode(config).len() == spec_by_config(config, 0, 32));
        self.source.lemma_encode_len(config);
        assert(self.source.spec_encode(config) == v.source.spec_encode(config));
        assert(self.source.spec_encode(config).len() == 1040);
        assert(self.spec_encode(config) == v.spec_encode(config));
        assert(v.spec_encode(config).len() == Self::spec_len(config));
    }

    proof fn lemma_decode_prefix(old: WitnessView, config: Config, bytes: Seq<u8>) {
        let n = Self::spec_len(config) as int;
        let t = bytes.take(n);
        usize::lemma_decode_prefix(old.id, config, bytes.skip(0));
        usize::lemma_decode_prefix(old.id, config, t.skip(0));
        assert(t.skip(0).take(8) =~= bytes.skip(0).take(8));
        Scalar::lemma_decode_prefix(old.value, config, bytes.skip(8));
        Scalar::lemma_decode_prefix(old.value, config, t.skip(8));
        assert(t.skip(8).take(spec_by_config(config, 0, 32)) =~= bytes.skip(8).take(spec_by_config(config, 0, 32)));
        Source::lemma_decode_prefix(old.source, config, bytes.skip(spec_by_config(config, 8, 40)));
        Source::lemma_decode_prefix(old.source, config, t.skip(spec_by_config(config, 8, 40)));
        assert(t.skip(spec_by_config(config, 8, 40)).take(1040) =~= bytes.skip(spec_by_config(config, 8, 40)).take(1040));
    }

    proof fn lemma_roundtrip(&self, config: Config) {
        let enc = self.spec_encode(config);
        self.id.lemma_encode_len(config);
        self.value.lemma_encode_len(config);
        self.source.lemma_encode_len(config);
        self.id.lemma_roundtrip(config);
        usize::lemma_decode_prefix(usize::spec_default(), config, enc.skip(0));
        assert(enc.skip(0).take(8) =~= self.id.spec_encode(config));
        self.value.lemma_roundtrip(config);
        Scalar::lemma_decode_prefix(Scalar::spec_default(), config, enc.skip(8));
        assert(enc.skip(8).take(spec_by_config(config, 0, 32)) =~= self.value.spec_encode(config));
        self.source.lemma_roundtrip(config);
        Source::lemma_decode_prefix(Source::spec_default(), config, enc.skip(spec_by_config(config, 8, 40)));
        assert(enc.skip(spec_by_config(config, 8, 40)).take(1040) =~= self.source.spec_encode(config));
    }

    fn zeroed() -> (r: Witness) {
        Witness {
            id: 0,
            value: Scalar::zero(),
            source: Source::zeroed(),
        }
    }

    fn len(config: &Config) -> (n: usize) {
        if config.zeroed_scalar_values {
            1048
        } else {
            1080
        }
    }

    fn to_buffer(&self, config: &Config, buf: &mut [u8]) {
        let _buf_len = buf.len();
        let rest = self.id.encode(config, buf);
        let rest = self.value.encode(config, rest);
        let rest = self.source.encode(config, rest);
        proof {
            self.lemma_encode_len(*config);
            assert(buf@ =~= self.spec_encode(*config) + old(buf)@.skip(Self::spec_len(*config) as int));
        }
    }

    fn try_from_buffer_in_place(&mut self, config: &Config, buf: &[u8]) -> (r: Result<(), Error>) {
        let ghost bytes = buf@;
        let rest = buf;
        assert(rest@ =~= bytes.skip(0));
        let rest = match self.id.try_decode_in_place(config, rest) {
            Ok(r) => r,
            Err(e) => return Err(e),
        };
        assert(rest@ =~= bytes.skip(8));
        let rest = match self.value.try_decode_in_place(config, rest) {
            Ok(r) => r,
            Err(e) => return Err(e),
        };
        assert(rest@ =~= bytes.skip(spec_by_config(*config, 8, 40)));
        let rest = match self.source.try_decode_in_place(config, rest) {
            Ok(r) => r,
            Err(e) => return Err(e),
        };
        Ok(())
    }

    fn validate(&self, preamble: &Preamble) -> (r: Result<(), Error>) {
        match self.id.validate(preamble) {
            Ok(()) => {},
            Err(e) => return Err(e),
        }
        match self.value.validate(preamble) {
            Ok(()) => {},
            Err(e) => return Err(e),
        }
        match self.source.validate(preamble) {
            Ok(()) => {},
            Err(e) => return Err(e),
        }
        Ok(())
    }
}

impl Witness {
    /// Create a new witness.
    pub fn new(id: usize, value: Scalar, source: Source) -> (w: Witness)
        ensures
            w.deep_view() == (WitnessView { id, value: value.deep_view(), source: source.deep_view() }),
    {
        Witness { id, value, source }
    }

    /// Id of the witness in the constraint system.
    pub fn id(&self) -> (id: usize)
        ensures
            id == self.deep_view().id,
    {
        self.id
    }

    /// Value of the witness in the constraint system.
    pub fn value(&self) -> (v: &Scalar)
        ensures
            v.deep_view() == self.deep_view().value,
    {
        &self.value
    }

    /// Source reference of the witness.
    pub fn source(&self) -> (s: &Source)
        ensures
            s.deep_view() == self.deep_view().source,
    {
        &self.source
    }
}

} // verus!

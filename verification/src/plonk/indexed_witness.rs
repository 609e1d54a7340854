use vstd::prelude::*;

use crate::config::Config;
use crate::error::Error;
use crate::plonk::element::Element;
use crate::plonk::preamble::Preamble;
use crate::plonk::primitives::{spec_by_config, spec_scalar_bytes, spec_scalar_normalized};
use crate::scalar::{Scalar, spec_zero_scalar};

verus! {

/// Model of an indexed witness.
pub struct IndexedWitnessView {
    /// Index of the witness in the constraint system.
    pub index: usize,
    /// Constraint that created the witness; `None` when it is referenced on the constraint it was created.
    pub origin: Option<usize>,
    /// Value of the witness.
    pub value: Seq<u8>,
}

impl IndexedWitnessView {
    /// Bytes of the encoding under `config`.
    pub open spec fn spec_encode(&self, config: Config) -> Seq<u8> {
        self.index.spec_encode(config)
            + self.origin.spec_encode(config)
            + spec_scalar_bytes(self.value, config)
    }

    /// Model that a decoding of the encoding under `config` gives back.
    pub open spec fn spec_normalize(&self, config: Config) -> IndexedWitnessView {
        IndexedWitnessView {
            index: self.index,
            origin: self.origin,
            value: spec_scalar_normalized(self.value, config),
        }
    }

    /// Outcome of the validations against `preamble`.
    pub open spec fn spec_validate(&self, preamble: Preamble) -> Result<(), Error> {
        if self.index >= preamble.witnesses {
            Err(Error::InvalidWitnessIndex)
        } else {
            match self.origin {
                Some(o) => if o >= preamble.constraints {
                    Err(Error::InvalidConstraintIndex)
                } else {
                    Ok(())
                },
                None => Ok(()),
            }
        }
    }
}

/// Representation of an indexed witness.
///
/// Its index is the dense representation of the constraint system. Since the file stores
/// witnesses first, it is the witness's line in the file, starting at zero.
///
/// Its origin is the constraint that created the witness; `None` when the witness is
/// referenced on the constraint it was created.
#[derive(Debug, Default, Clone, Copy, PartialEq, Eq, Hash)]
pub struct IndexedWitness {
    index: usize,
    origin: Option<usize>,
    value: Scalar,
}

impl DeepView for IndexedWitness {
    type V = IndexedWitnessView;

    closed spec fn deep_view(&self) -> IndexedWitnessView {
        IndexedWitnessView {
            index: self.index.deep_view(),
            origin: self.origin.deep_view(),
            value: self.value.deep_view(),
        }
    }
}

impl Element for IndexedWitness {
    open spec fn spec_len(config: Config) -> nat {
        spec_by_config(config, 17, 49) as nat
    }

    open spec fn spec_encode(&self, config: Config) -> Seq<u8> {
        self.deep_view().spec_encode(config)
    }

    open spec fn spec_default() -> IndexedWitnessView {
        IndexedWitnessView {
            index: 0,
            origin: None,
            value: spec_zero_scalar(),
        }
    }

    open spec fn spec_decode_into(old: IndexedWitnessView, config: Config, bytes: Seq<u8>) -> Result<IndexedWitnessView, Error> {
        match usize::spec_decode_into(old.index, config, bytes.skip(0)) {
            Err(e) => Err(e),
            Ok(index) =>             match Option::<usize>::spec_decode_into(old.origin, config, bytes.skip(8)) {
                Err(e) => Err(e),
                Ok(origin) =>                 match Scalar::spec_decode_into(old.value, config, bytes.skip(17)) {
                    Err(e) => Err(e),
                    Ok(value) => Ok(IndexedWitnessView { index, origin, value }),
                    },
                },
        }
    }

    open spec fn spec_validate(&self, preamble: Preamble) -> Result<(), Error> {
        self.deep_view().spec_validate(preamble)
    }

    open spec fn spec_normalize(&self, config: Config) -> IndexedWitnessView {
        self.deep_view().spec_normalize(config)
    }

    proof fn lemma_encode_len(&self, config: Config) {
        let v = self.deep_view();
        self.index.lemma_encode_len(config);
        assert(self.index.spec_encode(config) == v.index.spec_encode(config));
        assert(self.index.spec_encode(config).len() == 8);
        self.origin.lemma_encode_len(config);
        assert(self.origin.spec_encode(config) == v.origin.spec_encode(config));
        assert(self.origin.spec_encode(config).len() == 9);
        self.value.lemma_encode_len(config);
        assert(self.value.spec_encode(config) == spec_scalar_bytes(v.value, config));
        assert(self.value.spec_encode(config).len() == spec_by_config(config, 0, 32));
        assert(self.spec_encode(config) == v.spec_encode(config));
        assert(v.spec_encode(config).len() == Self::spec_len(config));
    }

    proof fn lemma_decode_prefix(old: IndexedWitnessView, config: Config, bytes: Seq<u8>) {
        let n = Self::spec_len(config) as int;
        let t = bytes.take(n);
        usize::lemma_decode_prefix(old.index, config, bytes.skip(0));
        usize::lemma_decode_prefix(old.index, config, t.skip(0));
        assert(t.skip(0).take(8) =~= bytes.skip(0).take(8));
        Option::<usize>::lemma_decode_prefix(old.origin, config, bytes.skip(8));
        Option::<usize>::lemma_decode_prefix(old.origin, config, t.skip(8));
        assert(t.skip(8).take(9) =~= bytes.skip(8).take(9));
        Scalar::lemma_decode_prefix(old.value, config, bytes.skip(17));
        Scalar::lemma_decode_prefix(old.value, config, t.skip(17));
        assert(t.skip(17).take(spec_by_config(config, 0, 32)) =~= bytes.skip(17).take(spec_by_config(config, 0, 32)));
    }

    proof fn lemma_roundtrip(&self, config: Config) {
        let enc = self.spec_encode(config);
        self.index.lemma_encode_len(config);
        self.origin.lemma_encode_len(config);
        self.value.lemma_encode_len(config);
        self.index.lemma_roundtrip(config);
        usize::lemma_decode_prefix(usize::spec_default(), config, enc.skip(0));
        assert(enc.skip(0).take(8) =~= self.index.spec_encode(config));
        self.origin.lemma_roundtrip(config);
        Option::<usize>::lemma_decode_prefix(Option::<usize>::spec_default(), config, enc.skip(8));
        assert(enc.skip(8).take(9) =~= self.origin.spec_encode(config));
        self.value.lemma_roundtrip(config);
        Scalar::lemma_decode_prefix(Scalar::spec_default(), config, enc.skip(17));
        assert(enc.skip(17).take(spec_by_config(config, 0, 32)) =~= self.value.spec_encode(config));
    }

    fn zeroed() -> (r: IndexedWitness) {
        IndexedWitness {
            index: 0,
            origin: None,
            value: Scalar::zero(),
        }
    }

    fn len(config: &Config) -> (n: usize) {
        if config.zeroed_scalar_values {
            17
        } else {
            49
        }
    }

    fn to_buffer(&self, config: &Config, buf: &mut [u8]) {
        let _buf_len = buf.len();
        let rest = self.index.encode(config, buf);
        let rest = self.origin.encode(config, rest);
        let rest = self.value.encode(config, rest);
        proof {
            self.lemma_encode_len(*config);
            assert(buf@ =~= self.spec_encode(*config) + old(buf)@.skip(Self::spec_len(*config) as int));
        }
    }

    fn try_from_buffer_in_place(&mut self, config: &Config, buf: &[u8]) -> (r: Result<(), Error>) {
        let ghost bytes = buf@;
        let rest = buf;
        assert(rest@ =~= bytes.skip(0));
        let rest = match self.index.try_decode_in_place(config, rest) {
            Ok(r) => r,
            Err(e) => return Err(e),
        };
        assert(rest@ =~= bytes.skip(8));
        let rest = match self.origin.try_decode_in_place(config, rest) {
            Ok(r) => r,
            Err(e) => return Err(e),
        };
        assert(rest@ =~= bytes.skip(17));
        let rest = match self.value.try_decode_in_place(config, rest) {
            Ok(r) => r,
            Err(e) => return Err(e),
        };
        Ok(())
    }

    fn validate(&self, preamble: &Preamble) -> (r: Result<(), Error>) {
        match self.index.validate(preamble) {
            Ok(()) => {},
            Err(e) => return Err(e),
        }
        match self.origin.validate(preamble) {
            Ok(()) => {},
            Err(e) => return Err(e),
        }
        match self.value.validate(preamble) {
            Ok(()) => {},
            Err(e) => return Err(e),
        }
        if self.index >= preamble.witnesses {
            return Err(Error::InvalidWitnessIndex);
        }
        match self.origin {
            Some(o) => {
                if o >= preamble.constraints {
                    return Err(Error::InvalidConstraintIndex);
                }
            },
            None => {},
        }
        Ok(())
    }
}

impl IndexedWitness {
    /// Create a new indexed witness.
    pub fn new(index: usize, origin: Option<usize>, value: Scalar) -> (w: IndexedWitness)
        ensures
            w.deep_view() == (IndexedWitnessView { index, origin, value: value.deep_view() }),
    {
        IndexedWitness { index, origin, value }
    }

    /// Witness index.
    pub fn index(&self) -> (i: usize)
        ensures
            i == self.deep_view().index,
    {
        self.index
    }

    /// Witness constraint originator.
    pub fn origin(&self) -> (o: &Option<usize>)
        ensures
            *o == self.deep_view().origin,
    {
        &self.origin
    }

    /// Witness value.
    pub fn value(&self) -> (v: &Scalar)
        ensures
            v.deep_view() == self.deep_view().value,
    {
        &self.value
    }
}

/// An indexed witness validates against a preamble exactly when its index is a witness of
/// the preamble and its origin, when set, is a constraint of the preamble; an index out of
/// range is reported first, then an origin out of range.
pub proof fn lemma_indexed_witness_validate(w: IndexedWitness, p: Preamble)
    ensures
        w.spec_validate(p) is Ok <==> (w.deep_view().index < p.witnesses && match w.deep_view().origin {
            Some(o) => o < p.constraints,
            None => true,
        }),
        w.deep_view().index >= p.witnesses ==> w.spec_validate(p) == Err::<(), Error>(Error::InvalidWitnessIndex),
        forall|o: usize|
            w.deep_view().index < p.witnesses && w.deep_view().origin == Some(o) && o >= p.constraints
                ==> w.spec_validate(p) == Err::<(), Error>(Error::InvalidConstraintIndex),
{
}

} // verus!

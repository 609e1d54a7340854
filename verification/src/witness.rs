use vstd::prelude::*;
use vstd::bytes::lemma_auto_spec_u64_to_from_le_bytes;

use crate::config::Config;
use crate::context::{DecoderContext, DecoderContextView, EncoderContext, spec_add_path};
use crate::element::{DecodableElement, Element, EncodableElement};
use crate::error::Error;
use crate::preamble::Preamble;
use crate::primitives::zeroes;
use crate::scalar::{Scalar, spec_zero_scalar};
use crate::source::{
    DecodedSource, DecodedSourceView, EncodableSource, EncodableSourceView, EncodedSource,
    spec_index_bytes, spec_read_index,
};

verus! {

/// Bytes of an optional index: a flag byte, then the index or zeroes.
pub open spec fn spec_option_index_bytes(o: Option<usize>) -> Seq<u8> {
    match o {
        Some(v) => seq![1u8] + spec_index_bytes(v),
        None => seq![0u8] + zeroes(8),
    }
}

/// Optional index read from the 9 bytes at `at`.
pub open spec fn spec_read_option_index(bytes: Seq<u8>, at: int) -> Option<usize> {
    if bytes[at] != 0 {
        Some(spec_read_index(bytes, at + 1))
    } else {
        None
    }
}

/// Model of a witness to be encoded.
pub struct EncodableWitnessView {
    /// Id of the witness in the constraint system.
    pub id: usize,
    /// Constraint that originated the witness.
    pub constraint: Option<usize>,
    /// Value of the witness.
    pub value: Seq<u8>,
    /// Source reference to be encoded.
    pub source: EncodableSourceView,
}

/// A witness that can be encoded into a CDF file.
#[derive(Debug, Default, Clone, PartialEq, Eq, PartialOrd, Ord, Hash)]
pub struct EncodableWitness {
    id: usize,
    constraint: Option<usize>,
    value: Scalar,
    source: EncodableSource,
}

impl DeepView for EncodableWitness {
    type V = EncodableWitnessView;

    closed spec fn deep_view(&self) -> EncodableWitnessView {
        EncodableWitnessView {
            id: self.id,
            constraint: self.constraint,
            value: self.value.deep_view(),
            source: self.source.deep_view(),
        }
    }
}

impl EncodableWitness {
    /// Create a new encodable witness instance.
    pub fn new(id: usize, constraint: Option<usize>, value: Scalar, source: EncodableSource) -> (w: EncodableWitness)
        ensures
            w.deep_view() == (EncodableWitnessView {
                id,
                constraint,
                value: value.deep_view(),
                source: source.deep_view(),
            }),
    {
        EncodableWitness { id, constraint, value, source }
    }

    /// Id of the witness in the constraint system.
    pub fn id(&self) -> (id: usize)
        ensures
            id == self.deep_view().id,
    {
        self.id
    }

    /// Constraint that originated the witness.
    pub fn constraint(&self) -> (c: Option<usize>)
        ensures
            c == self.deep_view().constraint,
    {
        self.constraint
    }

    /// Value of the witness in the constraint system.
    pub fn value(&self) -> (v: &Scalar)
        ensures
            v.deep_view() == self.deep_view().value,
    {
        &self.value
    }

    /// Source reference to be encoded.
    pub fn source(&self) -> (s: &EncodableSource)
        ensures
            s.deep_view() == self.deep_view().source,
    {
        &self.source
    }

    /// The witness a decoding of this witness's encoding gives back, where the source cache
    /// held `paths` after the encoding and holds `ctx.names` and `ctx.contents` at the
    /// decoding.
    pub open spec fn spec_decoded(&self, ctx: DecoderContextView, paths: Seq<Seq<char>>) -> WitnessView {
        let idx = paths.index_of(self.deep_view().source.path);
        WitnessView {
            id: self.deep_view().id,
            constraint: self.deep_view().constraint,
            value: if ctx.config.zeroed_scalar_values {
                spec_zero_scalar()
            } else {
                self.deep_view().value
            },
            source: DecodedSourceView {
                line: self.deep_view().source.line,
                col: self.deep_view().source.col,
                name: ctx.names[idx],
                contents: ctx.contents[idx],
            },
        }
    }
}

/// Serialized length of a witness: id, optional constraint, value and source.
pub open spec fn spec_witness_len(config: Config) -> nat {
    17 + Scalar::spec_len(config) + 24
}

impl Element for EncodableWitness {
    open spec fn spec_len(config: Config) -> nat {
        spec_witness_len(config)
    }

    fn len(config: &Config) -> (n: usize) {
        if config.zeroed_scalar_values {
            41
        } else {
            73
        }
    }

    fn validate(&self, preamble: &Preamble) -> (r: Result<(), Error>) {
        let _ = self.id.validate(preamble);
        let _ = self.constraint.validate(preamble);
        let _ = self.value.validate(preamble);
        let _ = self.source.validate(preamble);
        Ok(())
    }
}

impl EncodableElement for EncodableWitness {
    open spec fn spec_register(&self, paths: Seq<Seq<char>>) -> Seq<Seq<char>> {
        spec_add_path(paths, self.deep_view().source.path)
    }

    /// Id, optional constraint, value, then source.
    open spec fn spec_encode(&self, config: Config, paths: Seq<Seq<char>>) -> Seq<u8> {
        let v = self.deep_view();
        spec_index_bytes(v.id) + spec_option_index_bytes(v.constraint) + (if config.zeroed_scalar_values {
            Seq::empty()
        } else {
            v.value
        }) + (EncodedSource {
            line: v.source.line,
            col: v.source.col,
            contents_index: paths.index_of(v.source.path) as usize,
        }).spec_bytes()
    }

    proof fn lemma_encode_len(&self, config: Config, paths: Seq<Seq<char>>) {
        lemma_auto_spec_u64_to_from_le_bytes();
        self.value.lemma_model_len();
    }

    proof fn lemma_register_extends(&self, paths: Seq<Seq<char>>) {
        self.source.lemma_register_extends(paths);
    }

    fn to_buffer(&self, ctx: &mut EncoderContext, buf: &mut [u8]) {
        let ghost config = ctx@.preamble.config;
        proof {
            lemma_auto_spec_u64_to_from_le_bytes();
            self.value.lemma_model_len();
        }
        let rest = self.id.encode(ctx, buf);
        let rest = self.constraint.encode(ctx, rest);
        let rest = self.value.encode(ctx, rest);
        let _ = self.source.encode(ctx, rest);
        proof {
            assert(buf@ =~= self.spec_encode(config, ctx@.paths) + old(buf)@.skip(
                Self::spec_len(config) as int,
            ));
        }
    }
}

/// Model of a decoded witness.
pub struct WitnessView {
    /// Id of the witness in the constraint system.
    pub id: usize,
    /// Constraint that originated the witness.
    pub constraint: Option<usize>,
    /// Value of the witness.
    pub value: Seq<u8>,
    /// Source of the witness.
    pub source: DecodedSourceView,
}

/// Witness decoded from a CDF file.
#[derive(Debug, Default, Clone, PartialEq, Eq, PartialOrd, Ord, Hash)]
pub struct Witness {
    id: usize,
    constraint: Option<usize>,
    value: Scalar,
    source: DecodedSource,
}

impl DeepView for Witness {
    type V = WitnessView;

    closed spec fn deep_view(&self) -> WitnessView {
        WitnessView {
            id: self.id,
            constraint: self.constraint,
            value: self.value.deep_view(),
            source: self.source.deep_view(),
        }
    }
}

impl Witness {
    /// Assemble a decoded witness.
    pub(crate) fn _new(id: usize, constraint: Option<usize>, value: Scalar, source: DecodedSource) -> (w: Witness)
        ensures
            w.deep_view() == (WitnessView {
                id,
                constraint,
                value: value.deep_view(),
                source: source.deep_view(),
            }),
    {
        Witness { id, constraint, value, source }
    }

    /// Id of the witness in the constraint system.
    pub fn id(&self) -> (id: usize)
        ensures
            id == self.deep_view().id,
    {
        self.id
    }

    /// Constraint that originated the witness.
    pub fn constraint(&self) -> (c: Option<usize>)
        ensures
            c == self.deep_view().constraint,
    {
        self.constraint
    }

    /// Value of the witness in the constraint system.
    pub fn value(&self) -> (v: &Scalar)
        ensures
            v.deep_view() == self.deep_view().value,
    {
        &self.value
    }

    /// Line of the source code of the witness.
    pub fn line(&self) -> (l: u64)
        ensures
            l == self.deep_view().source.line,
    {
        self.source.line()
    }

    /// Column of the source code of the witness.
    pub fn col(&self) -> (c: u64)
        ensures
            c == self.deep_view().source.col,
    {
        self.source.col()
    }

    /// Source file name.
    pub fn name(&self) -> (n: &str)
        ensures
            n@ == self.deep_view().source.name,
    {
        self.source.name()
    }

    /// Source code contents.
    pub fn contents(&self) -> (c: &str)
        ensures
            c@ == self.deep_view().source.contents,
    {
        self.source.contents()
    }
}

impl Element for Witness {
    open spec fn spec_len(config: Config) -> nat {
        spec_witness_len(config)
    }

    fn len(config: &Config) -> (n: usize) {
        if config.zeroed_scalar_values {
            41
        } else {
            73
        }
    }

    fn validate(&self, preamble: &Preamble) -> (r: Result<(), Error>) {
        let _ = self.id.validate(preamble);
        let _ = self.constraint.validate(preamble);
        let _ = self.value.validate(preamble);
        let _ = self.source.validate(preamble);
        Ok(())
    }
}

impl DecodableElement for Witness {
    open spec fn spec_default() -> WitnessView {
        WitnessView {
            id: 0,
            constraint: None,
            value: spec_zero_scalar(),
            source: DecodedSource::spec_default(),
        }
    }

    /// Id, optional constraint, value, then a source resolved against the file cache.
    open spec fn spec_decode_into(old: WitnessView, ctx: DecoderContextView, bytes: Seq<u8>) -> Result<WitnessView, Error> {
        let sl = Scalar::spec_len(ctx.config) as int;
        if bytes.len() < spec_witness_len(ctx.config) {
            Err(Error::BufferTooSmall)
        } else {
            match DecodedSource::spec_resolve(EncodedSource::spec_read(bytes.skip(17 + sl)), ctx) {
                Err(e) => Err(e),
                Ok(source) => Ok(
                    WitnessView {
                        id: spec_read_index(bytes, 0),
                        constraint: spec_read_option_index(bytes, 8),
                        value: Scalar::spec_read(ctx.config, bytes, 17),
                        source,
                    },
                ),
            }
        }
    }

    proof fn lemma_decode_needs_len(old: WitnessView, ctx: DecoderContextView, bytes: Seq<u8>) {
    }

    proof fn lemma_decode_prefix(old: WitnessView, ctx: DecoderContextView, bytes: Seq<u8>) {
        let sl = Scalar::spec_len(ctx.config) as int;
        let n = spec_witness_len(ctx.config) as int;
        let t = bytes.take(n);
        assert(t.subrange(0, 8) =~= bytes.subrange(0, 8));
        assert(t.subrange(9, 17) =~= bytes.subrange(9, 17));
        if !ctx.config.zeroed_scalar_values {
            assert(t.subrange(17, 49) =~= bytes.subrange(17, 49));
        }
        let s1 = t.skip(17 + sl);
        let s2 = bytes.skip(17 + sl);
        assert(s1.subrange(0, 8) =~= s2.subrange(0, 8));
        assert(s1.subrange(8, 16) =~= s2.subrange(8, 16));
        assert(s1.subrange(16, 24) =~= s2.subrange(16, 24));
    }

    fn zeroed() -> (r: Witness) {
        Witness { id: 0, constraint: None, value: Scalar::zero(), source: DecodedSource::zeroed() }
    }

    fn try_from_buffer_in_place(&mut self, ctx: &DecoderContext, buf: &[u8]) -> (r: Result<(), Error>) {
        match Self::validate_buffer(ctx.config(), buf) {
            Ok(()) => {},
            Err(e) => return Err(e),
        }
        let ghost bytes = buf@;
        let ghost sl = Scalar::spec_len(ctx@.config) as int;
        let rest = match self.id.try_decode_in_place(ctx, buf) {
            Ok(r) => r,
            Err(e) => return Err(e),
        };
        assert(bytes.take(8) =~= bytes.subrange(0, 8));
        let rest = match self.constraint.try_decode_in_place(ctx, rest) {
            Ok(r) => r,
            Err(e) => return Err(e),
        };
        assert(bytes.skip(8).skip(1).take(8) =~= bytes.subrange(9, 17));
        assert(rest@ =~= bytes.skip(17));
        let rest = match self.value.try_decode_in_place(ctx, rest) {
            Ok(r) => r,
            Err(e) => return Err(e),
        };
        proof {
            if !ctx@.config.zeroed_scalar_values {
                assert(bytes.skip(17).take(32) =~= bytes.subrange(17, 49));
            }
        }
        assert(rest@ =~= bytes.skip(17 + sl));
        match self.source.try_decode_in_place(ctx, rest) {
            Ok(_) => {},
            Err(e) => return Err(e),
        }
        Ok(())
    }
}

/// Decoding the encoding of a witness gives back its id, constraint, location, and its
/// value (zeroed when the configuration skips values), with the name and contents that
/// the file cache holds at the index of its path.
pub proof fn lemma_witness_roundtrip(
    w: EncodableWitness,
    ctx: DecoderContextView,
    paths: Seq<Seq<char>>,
)
    requires
        paths.len() <= usize::MAX,
        paths.contains(w.deep_view().source.path),
        paths.index_of(w.deep_view().source.path) < ctx.names.len(),
        paths.index_of(w.deep_view().source.path) < ctx.contents.len(),
    ensures
        Witness::spec_decode_into(Witness::spec_default(), ctx, w.spec_encode(ctx.config, paths))
            == Ok::<WitnessView, Error>(w.spec_decoded(ctx, paths)),
{
    lemma_auto_spec_u64_to_from_le_bytes();
    w.value.lemma_model_len();
    let config = ctx.config;
    let enc = w.spec_encode(config, paths);
    let sl = Scalar::spec_len(config) as int;
    let es = w.source.spec_encoded(paths);
    es.lemma_bytes_read();
    assert(enc.subrange(0, 8) =~= spec_index_bytes(w.id));
    if w.constraint is Some {
        assert(enc.subrange(9, 17) =~= spec_index_bytes(w.constraint->Some_0));
    }
    if !config.zeroed_scalar_values {
        assert(enc.subrange(17, 49) =~= w.value.deep_view());
    }
    assert(enc.skip(17 + sl) =~= es.spec_bytes());
    let idx = paths.index_of(w.deep_view().source.path);
    assert(es.contents_index == idx);
}

} // verus!

use vstd::prelude::*;
use vstd::bytes::lemma_auto_spec_u64_to_from_le_bytes;

use crate::config::Config;
use crate::context::{DecoderContext, DecoderContextView, EncoderContext, spec_add_path};
use crate::element::{Codec, DecodableElement, Element, EncodableElement};
use crate::error::Error;
use crate::polynomial::{Polynomial, PolynomialView};
use crate::preamble::Preamble;
use crate::source::{
    DecodedSource, DecodedSourceView, EncodableSource, EncodableSourceView, EncodedSource,
    spec_index_bytes, spec_read_index,
};

verus! {

/// Serialized length of a constraint: id, polynomial and source.
pub open spec fn spec_constraint_len(config: Config) -> nat {
    8 + Polynomial::spec_len(config) + 24
}

/// Model of a constraint to be encoded.
pub struct EncodableConstraintView {
    /// Id of the constraint in the constraint system.
    pub id: usize,
    /// Polynomial representation.
    pub polynomial: Polynomial,
    /// Source reference to be encoded.
    pub source: EncodableSourceView,
}

/// A constraint that can be encoded into a CDF file.
#[derive(Debug, Default, Clone, PartialEq, Eq, Hash)]
pub struct EncodableConstraint {
    id: usize,
    polynomial: Polynomial,
    source: EncodableSource,
}

impl DeepView for EncodableConstraint {
    type V = EncodableConstraintView;

    closed spec fn deep_view(&self) -> EncodableConstraintView {
        EncodableConstraintView {
            id: self.id,
            polynomial: self.polynomial,
            source: self.source.deep_view(),
        }
    }
}

impl EncodableConstraint {
    /// Create a new encodable constraint instance.
    pub fn new(id: usize, polynomial: Polynomial, source: EncodableSource) -> (c: EncodableConstraint)
        ensures
            c.deep_view() == (EncodableConstraintView { id, polynomial, source: source.deep_view() }),
    {
        EncodableConstraint { id, polynomial, source }
    }

    /// Id of the constraint in the constraint system.
    pub fn id(&self) -> (id: usize)
        ensures
            id == self.deep_view().id,
    {
        self.id
    }

    /// Polynomial representation.
    pub fn polynomial(&self) -> (p: &Polynomial)
        ensures
            *p == self.deep_view().polynomial,
    {
        &self.polynomial
    }

    /// Source reference to be encoded.
    pub fn source(&self) -> (s: &EncodableSource)
        ensures
            s.deep_view() == self.deep_view().source,
    {
        &self.source
    }

    /// The constraint a decoding of this constraint's encoding gives back, where the source
    /// cache held `paths` after the encoding and holds `ctx.names` and `ctx.contents` at the
    /// decoding.
    pub open spec fn spec_decoded(&self, ctx: DecoderContextView, paths: Seq<Seq<char>>) -> ConstraintView {
        let v = self.deep_view();
        let idx = paths.index_of(v.source.path);
        ConstraintView {
            id: v.id,
            polynomial: v.polynomial.spec_normalized(ctx.config),
            source: DecodedSourceView {
                line: v.source.line,
                col: v.source.col,
                name: ctx.names[idx],
                contents: ctx.contents[idx],
            },
        }
    }
}

impl Element for EncodableConstraint {
    open spec fn spec_len(config: Config) -> nat {
        spec_constraint_len(config)
    }

    fn len(config: &Config) -> (n: usize) {
        if config.zeroed_scalar_values {
            65
        } else {
            449
        }
    }

    fn validate(&self, preamble: &Preamble) -> (r: Result<(), Error>) {
        let _ = self.id.validate(preamble);
        let _ = self.polynomial.validate(preamble);
        let _ = self.source.validate(preamble);
        Ok(())
    }
}

impl EncodableElement for EncodableConstraint {
    open spec fn spec_register(&self, paths: Seq<Seq<char>>) -> Seq<Seq<char>> {
        spec_add_path(paths, self.deep_view().source.path)
    }

    /// Id, polynomial, then source.
    open spec fn spec_encode(&self, config: Config, paths: Seq<Seq<char>>) -> Seq<u8> {
        let v = self.deep_view();
        spec_index_bytes(v.id) + v.polynomial.spec_encode(config, paths) + (EncodedSource {
            line: v.source.line,
            col: v.source.col,
            contents_index: paths.index_of(v.source.path) as usize,
        }).spec_bytes()
    }

    proof fn lemma_encode_len(&self, config: Config, paths: Seq<Seq<char>>) {
        lemma_auto_spec_u64_to_from_le_bytes();
        self.polynomial.lemma_encode_len(config, paths);
    }

    proof fn lemma_register_extends(&self, paths: Seq<Seq<char>>) {
        self.source.lemma_register_extends(paths);
    }

    fn to_buffer(&self, ctx: &mut EncoderContext, buf: &mut [u8]) {
        let ghost config = ctx@.preamble.config;
        let ghost paths0 = ctx@.paths;
        proof {
            lemma_auto_spec_u64_to_from_le_bytes();
        }
        let rest = self.id.encode(ctx, buf);
        let rest = self.polynomial.encode(ctx, rest);
        let _ = self.source.encode(ctx, rest);
        proof {
            self.polynomial.lemma_encode_len(config, paths0);
            self.polynomial.lemma_encode_len(config, ctx@.paths);
            assert(buf@ =~= self.spec_encode(config, ctx@.paths) + old(buf)@.skip(
                Self::spec_len(config) as int,
            ));
        }
    }
}

/// Model of a decoded constraint.
pub struct ConstraintView {
    /// Id of the constraint in the constraint system.
    pub id: usize,
    /// Polynomial representation.
    pub polynomial: PolynomialView,
    /// Source of the constraint.
    pub source: DecodedSourceView,
}

/// Constraint decoded from a CDF file.
#[derive(Debug, Default, Clone, PartialEq, Eq, Hash)]
pub struct Constraint {
    id: usize,
    polynomial: Polynomial,
    source: DecodedSource,
}

impl DeepView for Constraint {
    type V = ConstraintView;

    closed spec fn deep_view(&self) -> ConstraintView {
        ConstraintView {
            id: self.id,
            polynomial: self.polynomial.deep_view(),
            source: self.source.deep_view(),
        }
    }
}

impl Constraint {
    /// Assemble a decoded constraint.
    pub(crate) fn _new(id: usize, polynomial: Polynomial, source: DecodedSource) -> (c: Constraint)
        ensures
            c.deep_view() == (ConstraintView {
                id,
                polynomial: polynomial.deep_view(),
                source: source.deep_view(),
            }),
    {
        Constraint { id, polynomial, source }
    }

    /// Get the id of the constraint in the constraint system.
    pub fn id(&self) -> (id: usize)
        ensures
            id == self.deep_view().id,
    {
        self.id
    }

    /// Get the polynomial representation of the constraint.
    pub fn polynomial(&self) -> (p: &Polynomial)
        ensures
            p.deep_view() == self.deep_view().polynomial,
    {
        &self.polynomial
    }

    /// Get the line of the source code where the constraint is located.
    pub fn line(&self) -> (l: u64)
        ensures
            l == self.deep_view().source.line,
    {
        self.source.line()
    }

    /// Get the column of the source code where the constraint is located.
    pub fn col(&self) -> (c: u64)
        ensures
            c == self.deep_view().source.col,
    {
        self.source.col()
    }

    /// Get the source file name.
    pub fn name(&self) -> (n: &str)
        ensures
            n@ == self.deep_view().source.name,
    {
        self.source.name()
    }

    /// Get the source code contents.
    pub fn contents(&self) -> (c: &str)
        ensures
            c@ == self.deep_view().source.contents,
    {
        self.source.contents()
    }
}

impl Element for Constraint {
    open spec fn spec_len(config: Config) -> nat {
        spec_constraint_len(config)
    }

    fn len(config: &Config) -> (n: usize) {
        if config.zeroed_scalar_values {
            65
        } else {
            449
        }
    }

    fn validate(&self, preamble: &Preamble) -> (r: Result<(), Error>) {
        let _ = self.id.validate(preamble);
        let _ = self.polynomial.validate(preamble);
        let _ = self.source.validate(preamble);
        Ok(())
    }
}

impl DecodableElement for Constraint {
    open spec fn spec_default() -> ConstraintView {
        ConstraintView {
            id: 0,
            polynomial: Polynomial::spec_default(),
            source: DecodedSource::spec_default(),
        }
    }

    /// Id, polynomial, then a source resolved against the file cache.
    open spec fn spec_decode_into(old: ConstraintView, ctx: DecoderContextView, bytes: Seq<u8>) -> Result<ConstraintView, Error> {
        let pl = Polynomial::spec_len(ctx.config) as int;
        if bytes.len() < spec_constraint_len(ctx.config) {
            Err(Error::BufferTooSmall)
        } else {
            match DecodedSource::spec_resolve(EncodedSource::spec_read(bytes.skip(8 + pl)), ctx) {
                Err(e) => Err(e),
                Ok(source) => Ok(
                    ConstraintView {
                        id: spec_read_index(bytes, 0),
                        polynomial: Polynomial::spec_decode_into(
                            old.polynomial,
                            ctx,
                            bytes.skip(8),
                        )->Ok_0,
                        source,
                    },
                ),
            }
        }
    }

    proof fn lemma_decode_needs_len(old: ConstraintView, ctx: DecoderContextView, bytes: Seq<u8>) {
    }

    proof fn lemma_decode_prefix(old: ConstraintView, ctx: DecoderContextView, bytes: Seq<u8>) {
        let pl = Polynomial::spec_len(ctx.config) as int;
        let n = spec_constraint_len(ctx.config) as int;
        let t = bytes.take(n);
        assert(t.subrange(0, 8) =~= bytes.subrange(0, 8));
        Polynomial::lemma_decode_prefix(old.polynomial, ctx, bytes.skip(8));
        Polynomial::lemma_decode_prefix(old.polynomial, ctx, t.skip(8));
        assert(t.skip(8).take(pl) =~= bytes.skip(8).take(pl));
        let s1 = t.skip(8 + pl);
        let s2 = bytes.skip(8 + pl);
        assert(s1.subrange(0, 8) =~= s2.subrange(0, 8));
        assert(s1.subrange(8, 16) =~= s2.subrange(8, 16));
        assert(s1.subrange(16, 24) =~= s2.subrange(16, 24));
    }

    fn zeroed() -> (r: Constraint) {
        Constraint { id: 0, polynomial: Polynomial::zeroed(), source: DecodedSource::zeroed() }
    }

    fn try_from_buffer_in_place(&mut self, ctx: &DecoderContext, buf: &[u8]) -> (r: Result<(), Error>) {
        match Self::validate_buffer(ctx.config(), buf) {
            Ok(()) => {},
            Err(e) => return Err(e),
        }
        let ghost bytes = buf@;
        let ghost pl = Polynomial::spec_len(ctx@.config) as int;
        let rest = match self.id.try_decode_in_place(ctx, buf) {
            Ok(r) => r,
            Err(e) => return Err(e),
        };
        assert(bytes.take(8) =~= bytes.subrange(0, 8));
        let rest = match self.polynomial.try_decode_in_place(ctx, rest) {
            Ok(r) => r,
            Err(e) => return Err(e),
        };
        assert(rest@ =~= bytes.skip(8 + pl));
        match self.source.try_decode_in_place(ctx, rest) {
            Ok(_) => {},
            Err(e) => return Err(e),
        }
        Ok(())
    }
}

/// Decoding the encoding of a constraint gives back its id, its polynomial (selectors zeroed
/// when the configuration skips values) and its location, with the name and contents that
/// the file cache holds at the index of its path.
pub proof fn lemma_constraint_roundtrip(
    c: EncodableConstraint,
    ctx: DecoderContextView,
    paths: Seq<Seq<char>>,
)
    requires
        paths.len() <= usize::MAX,
        paths.contains(c.deep_view().source.path),
        paths.index_of(c.deep_view().source.path) < ctx.names.len(),
        paths.index_of(c.deep_view().source.path) < ctx.contents.len(),
    ensures
        Constraint::spec_decode_into(Constraint::spec_default(), ctx, c.spec_encode(ctx.config, paths))
            == Ok::<ConstraintView, Error>(c.spec_decoded(ctx, paths)),
{
    lemma_auto_spec_u64_to_from_le_bytes();
    let config = ctx.config;
    let enc = c.spec_encode(config, paths);
    let v = c.deep_view();
    let pl = Polynomial::spec_len(config) as int;
    let ep = v.polynomial.spec_encode(config, paths);
    v.polynomial.lemma_encode_len(config, paths);
    v.polynomial.lemma_roundtrip(ctx, paths);
    let es = EncodedSource {
        line: v.source.line,
        col: v.source.col,
        contents_index: paths.index_of(v.source.path) as usize,
    };
    es.lemma_bytes_read();
    assert(enc.subrange(0, 8) =~= spec_index_bytes(v.id));
    Polynomial::lemma_decode_prefix(Polynomial::spec_default(), ctx, enc.skip(8));
    assert(enc.skip(8).take(pl) =~= ep);
    assert(enc.skip(8 + pl) =~= es.spec_bytes());
}

} // verus!

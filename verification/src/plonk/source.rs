use vstd::prelude::*;

use crate::config::Config;
use crate::error::Error;
use crate::plonk::element::Element;
use crate::plonk::preamble::Preamble;

use crate::plonk::fixed_text::{FixedText, spec_text_bytes};

verus! {

/// Model of a source location.
pub struct SourceView {
    /// Line of the source.
    pub line: u64,
    /// Column of the source.
    pub col: u64,
    /// Path of the source file.
    pub path: Seq<char>,
}

impl SourceView {
    /// Bytes of the encoding under `config`.
    pub open spec fn spec_encode(&self, config: Config) -> Seq<u8> {
        self.line.spec_encode(config)
            + self.col.spec_encode(config)
            + spec_text_bytes(self.path, 1024)
    }

    /// Model that a decoding of the encoding under `config` gives back.
    pub open spec fn spec_normalize(&self, config: Config) -> SourceView {
        SourceView {
            line: self.line,
            col: self.col,
            path: self.path,
        }
    }

    /// Outcome of the validations against `preamble`.
    pub open spec fn spec_validate(&self, preamble: Preamble) -> Result<(), Error> {
        Ok(())
    }
}

/// Source file representation for debug mapping, including line and column of a file.
#[derive(Debug, Default, Clone, PartialEq, Eq, PartialOrd, Ord, Hash)]
pub struct Source {
    line: u64,
    col: u64,
    path: FixedText<1024>,
}

impl DeepView for Source {
    type V = SourceView;

    closed spec fn deep_view(&self) -> SourceView {
        SourceView {
            line: self.line.deep_view(),
            col: self.col.deep_view(),
            path: self.path.deep_view(),
        }
    }
}

impl Element for Source {
    open spec fn spec_len(config: Config) -> nat {
        1040 as nat
    }

    open spec fn spec_encode(&self, config: Config) -> Seq<u8> {
        self.deep_view().spec_encode(config)
    }

    open spec fn spec_default() -> SourceView {
        SourceView {
            line: 0,
            col: 0,
            path: Seq::empty(),
        }
    }

    open spec fn spec_decode_into(old: SourceView, config: Config, bytes: Seq<u8>) -> Result<SourceView, Error> {
        match u64::spec_decode_into(old.line, config, bytes.skip(0)) {
            Err(e) => Err(e),
            Ok(line) =>             match u64::spec_decode_into(old.col, config, bytes.skip(8)) {
                Err(e) => Err(e),
                Ok(col) =>                 match FixedText::<1024>::spec_decode_into(old.path, config, bytes.skip(16)) {
                    Err(e) => Err(e),
                    Ok(path) => Ok(SourceView { line, col, path }),
                    },
                },
        }
    }

    open spec fn spec_validate(&self, preamble: Preamble) -> Result<(), Error> {
        self.deep_view().spec_validate(preamble)
    }

    open spec fn spec_normalize(&self, config: Config) -> SourceView {
        self.deep_view().spec_normalize(config)
    }

    proof fn lemma_encode_len(&self, config: Config) {
        let v = self.deep_view();
        self.line.lemma_encode_len(config);
        assert(self.line.spec_encode(config) == v.line.spec_encode(config));
        assert(self.line.spec_encode(config).len() == 8);
        self.col.lemma_encode_len(config);
        assert(self.col.spec_encode(config) == v.col.spec_encode(config));
        assert(self.col.spec_encode(config).len() == 8);
        self.path.lemma_encode_len(config);
        assert(self.path.spec_encode(config) == spec_text_bytes(v.path, 1024));
        assert(self.path.spec_encode(config).len() == 1024);
        assert(self.spec_encode(config) == v.spec_encode(config));
        assert(v.spec_encode(config).len() == Self::spec_len(config));
    }

    proof fn lemma_decode_prefix(old: SourceView, config: Config, bytes: Seq<u8>) {
        let n = Self::spec_len(config) as int;
        let t = bytes.take(n);
        u64::lemma_decode_prefix(old.line, config, bytes.skip(0));
        u64::lemma_decode_prefix(old.line, config, t.skip(0));
        assert(t.skip(0).take(8) =~= bytes.skip(0).take(8));
        u64::lemma_decode_prefix(old.col, config, bytes.skip(8));
        u64::lemma_decode_prefix(old.col, config, t.skip(8));
        assert(t.skip(8).take(8) =~= bytes.skip(8).take(8));
        FixedText::<1024>::lemma_decode_prefix(old.path, config, bytes.skip(16));
        FixedText::<1024>::lemma_decode_prefix(old.path, config, t.skip(16));
        assert(t.skip(16).take(1024) =~= bytes.skip(16).take(1024));
    }

    proof fn lemma_roundtrip(&self, config: Config) {
        let enc = self.spec_encode(config);
        self.line.lemma_encode_len(config);
        self.col.lemma_encode_len(config);
        self.path.lemma_encode_len(config);
        self.line.lemma_roundtrip(config);
        u64::lemma_decode_prefix(u64::spec_default(), config, enc.skip(0));
        assert(enc.skip(0).take(8) =~= self.line.spec_encode(config));
        self.col.lemma_roundtrip(config);
        u64::lemma_decode_prefix(u64::spec_default(), config, enc.skip(8));
        assert(enc.skip(8).take(8) =~= self.col.spec_encode(config));
        self.path.lemma_roundtrip(config);
        FixedText::<1024>::lemma_decode_prefix(FixedText::<1024>::spec_default(), config, enc.skip(16));
        assert(enc.skip(16).take(1024) =~= self.path.spec_encode(config));
    }

    fn zeroed() -> (r: Source) {
        Source {
            line: 0,
            col: 0,
            path: FixedText::<1024>::zeroed(),
        }
    }

    fn len(config: &Config) -> (n: usize) {
        1040
    }

    fn to_buffer(&self, config: &Config, buf: &mut [u8]) {
        let _buf_len = buf.len();
        let rest = self.line.encode(config, buf);
        let rest = self.col.encode(config, rest);
        let rest = self.path.encode(config, rest);
        proof {
            self.lemma_encode_len(*config);
            assert(buf@ =~= self.spec_encode(*config) + old(buf)@.skip(Self::spec_len(*config) as int));
        }
    }

    fn try_from_buffer_in_place(&mut self, config: &Config, buf: &[u8]) -> (r: Result<(), Error>) {
        let ghost bytes = buf@;
        let rest = buf;
        assert(rest@ =~= bytes.skip(0));
        let rest = match self.line.try_decode_in_place(config, rest) {
            Ok(r) => r,
            Err(e) => return Err(e),
        };
        assert(rest@ =~= bytes.skip(8));
        let rest = match self.col.try_decode_in_place(config, rest) {
            Ok(r) => r,
            Err(e) => return Err(e),
        };
        assert(rest@ =~= bytes.skip(16));
        let rest = match self.path.try_decode_in_place(config, rest) {
            Ok(r) => r,
            Err(e) => return Err(e),
        };
        Ok(())
    }

    fn validate(&self, preamble: &Preamble) -> (r: Result<(), Error>) {
        match self.line.validate(preamble) {
            Ok(()) => {},
            Err(e) => return Err(e),
        }
        match self.col.validate(preamble) {
            Ok(()) => {},
            Err(e) => return Err(e),
        }
        match self.path.validate(preamble) {
            Ok(()) => {},
            Err(e) => return Err(e),
        }
        Ok(())
    }
}

impl Source {
    /// Maximum allowed path length.
    pub const PATH_LEN: u16 = 1024;

    /// Create a new source.
    pub fn new(line: u64, col: u64, path: FixedText<1024>) -> (s: Source)
        ensures
            s.deep_view() == (SourceView { line, col, path: path.deep_view() }),
    {
        Source { line, col, path }
    }

    /// Source path.
    pub fn path(&self) -> (p: &FixedText<1024>)
        ensures
            p.deep_view() == self.deep_view().path,
    {
        &self.path
    }

    /// Source line.
    pub fn line(&self) -> (l: u64)
        ensures
            l == self.deep_view().line,
    {
        self.line
    }

    /// Source column.
    pub fn col(&self) -> (c: u64)
        ensures
            c == self.deep_view().col,
    {
        self.col
    }
}

} // verus!

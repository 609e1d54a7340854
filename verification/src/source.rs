use vstd::prelude::*;
use vstd::bytes::{
    lemma_auto_spec_u64_to_from_le_bytes, spec_u64_from_le_bytes, spec_u64_to_le_bytes,
};

use crate::config::Config;
use crate::context::{DecoderContext, DecoderContextView, EncoderContext, spec_add_path};
use crate::path::spec_path_key;
use crate::element::{Codec, DecodableElement, Element, EncodableElement};
use crate::error::Error;
use crate::preamble::Preamble;

verus! {

/// Little-endian 8 bytes of an index, as the format stores it.
pub open spec fn spec_index_bytes(i: usize) -> Seq<u8> {
    spec_u64_to_le_bytes(i as u64)
}

/// Index read from the 8 bytes at `at`.
pub open spec fn spec_read_index(bytes: Seq<u8>, at: int) -> usize {
    spec_u64_from_le_bytes(bytes.subrange(at, at + 8)) as usize
}

/// 64 bits read from the 8 bytes at `at`.
pub open spec fn spec_read_u64(bytes: Seq<u8>, at: int) -> u64 {
    spec_u64_from_le_bytes(bytes.subrange(at, at + 8))
}

/// Source location as stored in a CDF file: the source is an index into the file cache.
#[derive(Debug, Default, Clone, Copy, PartialEq, Eq, PartialOrd, Ord, Hash, Structural)]
pub struct EncodedSource {
    /// Line of the source code.
    pub line: u64,
    /// Column of the source code.
    pub col: u64,
    /// Index of the source in the file cache.
    pub contents_index: usize,
}

impl DeepView for EncodedSource {
    type V = EncodedSource;

    open spec fn deep_view(&self) -> EncodedSource {
        *self
    }
}

impl EncodedSource {
    /// Create a new encoded source.
    pub fn new(line: u64, col: u64, contents_index: usize) -> (s: EncodedSource)
        ensures
            s == (EncodedSource { line, col, contents_index }),
    {
        EncodedSource { line, col, contents_index }
    }

    /// Bytes of an encoded source: line, column and cache index.
    pub open spec fn spec_bytes(&self) -> Seq<u8> {
        spec_u64_to_le_bytes(self.line) + spec_u64_to_le_bytes(self.col) + spec_index_bytes(
            self.contents_index,
        )
    }

    /// Encoded source read from the front of 24 bytes.
    pub open spec fn spec_read(bytes: Seq<u8>) -> EncodedSource {
        EncodedSource {
            line: spec_read_u64(bytes, 0),
            col: spec_read_u64(bytes, 8),
            contents_index: spec_read_index(bytes, 16),
        }
    }

    /// An encoded source reads back from its bytes.
    pub proof fn lemma_bytes_read(&self)
        ensures
            self.spec_bytes().len() == 24,
            EncodedSource::spec_read(self.spec_bytes()) == *self,
    {
        lemma_auto_spec_u64_to_from_le_bytes();
        let b = self.spec_bytes();
        assert(b.subrange(0, 8) =~= spec_u64_to_le_bytes(self.line));
        assert(b.subrange(8, 16) =~= spec_u64_to_le_bytes(self.col));
        assert(b.subrange(16, 24) =~= spec_index_bytes(self.contents_index));
    }
}

impl Element for EncodedSource {
    open spec fn spec_len(config: Config) -> nat {
        24
    }

    fn len(config: &Config) -> (n: usize) {
        24
    }

    fn validate(&self, preamble: &Preamble) -> (r: Result<(), Error>) {
        let _ = self.line.validate(preamble);
        let _ = self.col.validate(preamble);
        let _ = self.contents_index.validate(preamble);
        Ok(())
    }
}

impl EncodableElement for EncodedSource {
    open spec fn spec_register(&self, paths: Seq<Seq<char>>) -> Seq<Seq<char>> {
        paths
    }

    open spec fn spec_encode(&self, config: Config, paths: Seq<Seq<char>>) -> Seq<u8> {
        self.spec_bytes()
    }

    proof fn lemma_encode_len(&self, config: Config, paths: Seq<Seq<char>>) {
        lemma_auto_spec_u64_to_from_le_bytes();
    }

    proof fn lemma_register_extends(&self, paths: Seq<Seq<char>>) {
        assert(paths.is_prefix_of(paths));
    }

    fn to_buffer(&self, ctx: &mut EncoderContext, buf: &mut [u8]) {
        let ghost config = ctx@.preamble.config;
        proof {
            lemma_auto_spec_u64_to_from_le_bytes();
        }
        let rest = self.line.encode(ctx, buf);
        let rest = self.col.encode(ctx, rest);
        let _ = self.contents_index.encode(ctx, rest);
        assert(buf@ =~= self.spec_bytes() + old(buf)@.skip(24));
    }
}

impl DecodableElement for EncodedSource {
    open spec fn spec_default() -> EncodedSource {
        EncodedSource { line: 0, col: 0, contents_index: 0 }
    }

    open spec fn spec_decode_into(old: EncodedSource, ctx: DecoderContextView, bytes: Seq<u8>) -> Result<EncodedSource, Error> {
        if bytes.len() < 24 {
            Err(Error::BufferTooSmall)
        } else {
            Ok(EncodedSource::spec_read(bytes))
        }
    }

    proof fn lemma_decode_needs_len(old: EncodedSource, ctx: DecoderContextView, bytes: Seq<u8>) {
    }

    proof fn lemma_decode_prefix(old: EncodedSource, ctx: DecoderContextView, bytes: Seq<u8>) {
        assert(bytes.take(24).subrange(0, 8) =~= bytes.subrange(0, 8));
        assert(bytes.take(24).subrange(8, 16) =~= bytes.subrange(8, 16));
        assert(bytes.take(24).subrange(16, 24) =~= bytes.subrange(16, 24));
    }

    fn zeroed() -> (r: EncodedSource) {
        EncodedSource { line: 0, col: 0, contents_index: 0 }
    }

    fn try_from_buffer_in_place(&mut self, ctx: &DecoderContext, buf: &[u8]) -> (r: Result<(), Error>) {
        match Self::validate_buffer(ctx.config(), buf) {
            Ok(()) => {},
            Err(e) => return Err(e),
        }
        let ghost bytes = buf@;
        let rest = match self.line.try_decode_in_place(ctx, buf) {
            Ok(r) => r,
            Err(e) => return Err(e),
        };
        assert(bytes.take(8) =~= bytes.subrange(0, 8));
        let rest = match self.col.try_decode_in_place(ctx, rest) {
            Ok(r) => r,
            Err(e) => return Err(e),
        };
        assert(bytes.skip(8).take(8) =~= bytes.subrange(8, 16));
        assert(rest@ =~= bytes.skip(16));
        match self.contents_index.try_decode_in_place(ctx, rest) {
            Ok(_) => {},
            Err(e) => return Err(e),
        }
        assert(bytes.skip(16).take(8) =~= bytes.subrange(16, 24));
        Ok(())
    }
}

impl Codec for EncodedSource {
    open spec fn spec_normalize(&self, config: Config) -> EncodedSource {
        *self
    }

    proof fn lemma_roundtrip(&self, ctx: DecoderContextView, paths: Seq<Seq<char>>) {
        self.lemma_bytes_read();
    }
}

/// Model of a source to be encoded.
pub struct EncodableSourceView {
    /// Line of the source code.
    pub line: u64,
    /// Column of the source code.
    pub col: u64,
    /// Path of the source file, written by its components: paths that differ only in
    /// repeated separators, inner `.` components or a trailing separator are the same path.
    pub path: Seq<char>,
}

/// Source file triple that can be encoded into a CDF file.
#[derive(Debug, Default, Clone, PartialEq, Eq, PartialOrd, Ord, Hash)]
pub struct EncodableSource {
    line: u64,
    col: u64,
    path: String,
}

impl DeepView for EncodableSource {
    type V = EncodableSourceView;

    closed spec fn deep_view(&self) -> EncodableSourceView {
        EncodableSourceView { line: self.line, col: self.col, path: spec_path_key(self.path@) }
    }
}

impl EncodableSource {
    /// Create a new source instance.
    pub fn new(line: u64, col: u64, path: String) -> (s: EncodableSource)
        ensures
            s.deep_view() == (EncodableSourceView { line, col, path: spec_path_key(path@) }),
    {
        EncodableSource { line, col, path }
    }

    /// Line of the source code.
    pub fn line(&self) -> (l: u64)
        ensures
            l == self.deep_view().line,
    {
        self.line
    }

    /// Column of the source code.
    pub fn col(&self) -> (c: u64)
        ensures
            c == self.deep_view().col,
    {
        self.col
    }

    /// Path of the source file.
    pub fn path(&self) -> (p: &str)
        ensures
            spec_path_key(p@) == self.deep_view().path,
    {
        self.path.as_str()
    }

    /// The encoded form of this source against the path cache `paths`, where its path
    /// is registered.
    pub open spec fn spec_encoded(&self, paths: Seq<Seq<char>>) -> EncodedSource {
        EncodedSource {
            line: self.deep_view().line,
            col: self.deep_view().col,
            contents_index: paths.index_of(self.deep_view().path) as usize,
        }
    }
}

impl Element for EncodableSource {
    open spec fn spec_len(config: Config) -> nat {
        24
    }

    fn len(config: &Config) -> (n: usize) {
        24
    }

    fn validate(&self, preamble: &Preamble) -> (r: Result<(), Error>) {
        let _ = self.line.validate(preamble);
        let _ = self.col.validate(preamble);
        Ok(())
    }
}

impl EncodableElement for EncodableSource {
    /// The source path joins the cache.
    open spec fn spec_register(&self, paths: Seq<Seq<char>>) -> Seq<Seq<char>> {
        spec_add_path(paths, self.deep_view().path)
    }

    /// Line, column, and the index of the path in the cache.
    open spec fn spec_encode(&self, config: Config, paths: Seq<Seq<char>>) -> Seq<u8> {
        self.spec_encoded(paths).spec_bytes()
    }

    proof fn lemma_encode_len(&self, config: Config, paths: Seq<Seq<char>>) {
        lemma_auto_spec_u64_to_from_le_bytes();
    }

    proof fn lemma_register_extends(&self, paths: Seq<Seq<char>>) {
        let p = self.deep_view().path;
        if paths.contains(p) {
            assert(paths.is_prefix_of(paths));
        } else {
            assert(paths.is_prefix_of(paths.push(p)));
        }
    }

    fn to_buffer(&self, ctx: &mut EncoderContext, buf: &mut [u8]) {
        let contents_index = ctx.add_path(self.path.clone());
        let encodable = EncodedSource::new(self.line, self.col, contents_index);
        proof {
            let paths = ctx@.paths;
            let p = spec_path_key(self.path@);
            let j = paths.index_of(p);
            assert(paths.contains(p));
            assert(0 <= j < paths.len() && paths[j] == p);
            assert(j == contents_index);
        }
        let _ = encodable.encode(ctx, buf);
    }
}

/// Model of a decoded source.
pub struct DecodedSourceView {
    /// Line of the source code.
    pub line: u64,
    /// Column of the source code.
    pub col: u64,
    /// Name of the source file.
    pub name: Seq<char>,
    /// Contents of the source file.
    pub contents: Seq<char>,
}

/// Source file decoded from a CDF file.
#[derive(Debug, Default, Clone, PartialEq, Eq, PartialOrd, Ord, Hash)]
pub struct DecodedSource {
    pub(crate) line: u64,
    pub(crate) col: u64,
    pub(crate) name: String,
    pub(crate) contents: String,
}

impl DeepView for DecodedSource {
    type V = DecodedSourceView;

    closed spec fn deep_view(&self) -> DecodedSourceView {
        DecodedSourceView {
            line: self.line,
            col: self.col,
            name: self.name@,
            contents: self.contents@,
        }
    }
}

impl DecodedSource {
    /// Create a decoded source.
    pub fn new(line: u64, col: u64, name: String, contents: String) -> (s: DecodedSource)
        ensures
            s.deep_view() == (DecodedSourceView { line, col, name: name@, contents: contents@ }),
    {
        DecodedSource { line, col, name, contents }
    }

    /// Line of the source code.
    pub fn line(&self) -> (l: u64)
        ensures
            l == self.deep_view().line,
    {
        self.line
    }

    /// Column of the source code.
    pub fn col(&self) -> (c: u64)
        ensures
            c == self.deep_view().col,
    {
        self.col
    }

    /// Name of the source file.
    pub fn name(&self) -> (n: &str)
        ensures
            n@ == self.deep_view().name,
    {
        self.name.as_str()
    }

    /// Contents of the source file.
    pub fn contents(&self) -> (c: &str)
        ensures
            c@ == self.deep_view().contents,
    {
        self.contents.as_str()
    }

    /// The decoded form of an encoded source, resolved against the file cache.
    pub open spec fn spec_resolve(
        encoded: EncodedSource,
        ctx: DecoderContextView,
    ) -> Result<DecodedSourceView, Error> {
        if encoded.contents_index >= ctx.names.len() {
            Err(Error::MissingSourceName)
        } else if encoded.contents_index >= ctx.contents.len() {
            Err(Error::MissingSourceContents)
        } else {
            Ok(
                DecodedSourceView {
                    line: encoded.line,
                    col: encoded.col,
                    name: ctx.names[encoded.contents_index as int],
                    contents: ctx.contents[encoded.contents_index as int],
                },
            )
        }
    }
}

impl Element for DecodedSource {
    open spec fn spec_len(config: Config) -> nat {
        24
    }

    fn len(config: &Config) -> (n: usize) {
        24
    }

    fn validate(&self, preamble: &Preamble) -> (r: Result<(), Error>) {
        let _ = self.line.validate(preamble);
        let _ = self.col.validate(preamble);
        Ok(())
    }
}

impl DecodableElement for DecodedSource {
    open spec fn spec_default() -> DecodedSourceView {
        DecodedSourceView { line: 0, col: 0, name: Seq::empty(), contents: Seq::empty() }
    }

    /// The stored location, with the name and contents taken from the file cache.
    open spec fn spec_decode_into(old: DecodedSourceView, ctx: DecoderContextView, bytes: Seq<u8>) -> Result<DecodedSourceView, Error> {
        if bytes.len() < 24 {
            Err(Error::BufferTooSmall)
        } else {
            DecodedSource::spec_resolve(EncodedSource::spec_read(bytes), ctx)
        }
    }

    proof fn lemma_decode_needs_len(old: DecodedSourceView, ctx: DecoderContextView, bytes: Seq<u8>) {
    }

    proof fn lemma_decode_prefix(old: DecodedSourceView, ctx: DecoderContextView, bytes: Seq<u8>) {
        assert(bytes.take(24).subrange(0, 8) =~= bytes.subrange(0, 8));
        assert(bytes.take(24).subrange(8, 16) =~= bytes.subrange(8, 16));
        assert(bytes.take(24).subrange(16, 24) =~= bytes.subrange(16, 24));
    }

    fn zeroed() -> (r: DecodedSource) {
        let r = DecodedSource { line: 0, col: 0, name: String::new(), contents: String::new() };
        r
    }

    fn try_from_buffer_in_place(&mut self, ctx: &DecoderContext, buf: &[u8]) -> (r: Result<(), Error>) {
        let (encoded, _) = match EncodedSource::try_decode(ctx, buf) {
            Ok(d) => d,
            Err(e) => return Err(e),
        };
        let name = match ctx.fetch_name(encoded.contents_index) {
            Some(n) => n,
            None => return Err(Error::MissingSourceName),
        };
        let contents = match ctx.fetch_contents(encoded.contents_index) {
            Some(c) => c,
            None => return Err(Error::MissingSourceContents),
        };
        self.line = encoded.line;
        self.col = encoded.col;
        self.name = name.to_owned();
        self.contents = contents.to_owned();
        Ok(())
    }
}

} // verus!

use vstd::prelude::*;
use vstd::bytes::{lemma_auto_spec_u64_to_from_le_bytes, spec_u64_from_le_bytes, spec_u64_to_le_bytes, u64_from_le_bytes, u64_to_le_bytes};

use crate::bytes::{encode_bytes, encode_zeroes};
use crate::config::Config;
use crate::context::{DecoderContext, DecoderContextView, EncoderContext};
use crate::element::{Codec, DecodableElement, Element, EncodableElement};
use crate::error::Error;
use crate::preamble::Preamble;

verus! {

/// Byte of a boolean.
pub open spec fn spec_bool_byte(b: bool) -> u8 {
    if b {
        1u8
    } else {
        0u8
    }
}

/// `n` zero bytes.
pub open spec fn zeroes(n: nat) -> Seq<u8> {
    Seq::new(n, |i: int| 0u8)
}

impl Element for bool {
    open spec fn spec_len(config: Config) -> nat {
        1
    }

    fn len(config: &Config) -> (n: usize) {
        1
    }

    fn validate(&self, preamble: &Preamble) -> (r: Result<(), Error>) {
        Ok(())
    }
}

impl EncodableElement for bool {
    open spec fn spec_register(&self, paths: Seq<Seq<char>>) -> Seq<Seq<char>> {
        paths
    }

    open spec fn spec_encode(&self, config: Config, paths: Seq<Seq<char>>) -> Seq<u8> {
        seq![spec_bool_byte(*self)]
    }

    proof fn lemma_encode_len(&self, config: Config, paths: Seq<Seq<char>>) {
    }

    proof fn lemma_register_extends(&self, paths: Seq<Seq<char>>) {
        assert(paths.is_prefix_of(paths));
    }

    fn to_buffer(&self, ctx: &mut EncoderContext, buf: &mut [u8]) {
        buf[0] = if *self { 1u8 } else { 0u8 };
        assert(buf@ =~= seq![spec_bool_byte(*self)] + old(buf)@.skip(1));
    }
}

impl DecodableElement for bool {
    open spec fn spec_default() -> bool {
        false
    }

    open spec fn spec_decode_into(old: bool, ctx: DecoderContextView, bytes: Seq<u8>) -> Result<bool, Error> {
        if bytes.len() < 1 {
            Err(Error::BufferTooSmall)
        } else {
            Ok(bytes[0] != 0)
        }
    }

    proof fn lemma_decode_needs_len(old: Self::V, ctx: DecoderContextView, bytes: Seq<u8>) {
    }

    proof fn lemma_decode_prefix(old: Self::V, ctx: DecoderContextView, bytes: Seq<u8>) {
    }

    fn zeroed() -> (r: bool) {
        false
    }

    fn try_from_buffer_in_place(&mut self, ctx: &DecoderContext, buf: &[u8]) -> (r: Result<(), Error>) {
        match Self::validate_buffer(ctx.config(), buf) {
            Ok(()) => {},
            Err(e) => return Err(e),
        }
        *self = buf[0] != 0;
        Ok(())
    }
}

impl Codec for bool {
    open spec fn spec_normalize(&self, config: Config) -> bool {
        *self
    }

    proof fn lemma_roundtrip(&self, ctx: DecoderContextView, paths: Seq<Seq<char>>) {
    }
}

impl Element for u64 {
    open spec fn spec_len(config: Config) -> nat {
        8
    }

    fn len(config: &Config) -> (n: usize) {
        8
    }

    fn validate(&self, preamble: &Preamble) -> (r: Result<(), Error>) {
        Ok(())
    }
}

impl EncodableElement for u64 {
    open spec fn spec_register(&self, paths: Seq<Seq<char>>) -> Seq<Seq<char>> {
        paths
    }

    open spec fn spec_encode(&self, config: Config, paths: Seq<Seq<char>>) -> Seq<u8> {
        spec_u64_to_le_bytes(*self)
    }

    proof fn lemma_encode_len(&self, config: Config, paths: Seq<Seq<char>>) {
        lemma_auto_spec_u64_to_from_le_bytes();
    }

    proof fn lemma_register_extends(&self, paths: Seq<Seq<char>>) {
        assert(paths.is_prefix_of(paths));
    }

    fn to_buffer(&self, ctx: &mut EncoderContext, buf: &mut [u8]) {
        proof {
            lemma_auto_spec_u64_to_from_le_bytes();
        }
        let bytes = u64_to_le_bytes(*self);
        let _ = encode_bytes(bytes.as_slice(), buf);
    }
}

impl DecodableElement for u64 {
    open spec fn spec_default() -> u64 {
        0
    }

    open spec fn spec_decode_into(old: u64, ctx: DecoderContextView, bytes: Seq<u8>) -> Result<u64, Error> {
        if bytes.len() < 8 {
            Err(Error::BufferTooSmall)
        } else {
            Ok(spec_u64_from_le_bytes(bytes.take(8)))
        }
    }

    proof fn lemma_decode_needs_len(old: Self::V, ctx: DecoderContextView, bytes: Seq<u8>) {
    }

    proof fn lemma_decode_prefix(old: Self::V, ctx: DecoderContextView, bytes: Seq<u8>) {
        assert(bytes.take(8).take(8) =~= bytes.take(8));
    }

    fn zeroed() -> (r: u64) {
        0
    }

    fn try_from_buffer_in_place(&mut self, ctx: &DecoderContext, buf: &[u8]) -> (r: Result<(), Error>) {
        match Self::validate_buffer(ctx.config(), buf) {
            Ok(()) => {},
            Err(e) => return Err(e),
        }
        let bytes = &buf[0..8];
        assert(bytes@ =~= buf@.take(8));
        *self = u64_from_le_bytes(bytes);
        Ok(())
    }
}

impl Codec for u64 {
    open spec fn spec_normalize(&self, config: Config) -> u64 {
        *self
    }

    proof fn lemma_roundtrip(&self, ctx: DecoderContextView, paths: Seq<Seq<char>>) {
        lemma_auto_spec_u64_to_from_le_bytes();
        assert(spec_u64_to_le_bytes(*self).take(8) =~= spec_u64_to_le_bytes(*self));
    }
}

// usize is encoded as u64 so the encoding is platform agnostic
impl Element for usize {
    open spec fn spec_len(config: Config) -> nat {
        8
    }

    fn len(config: &Config) -> (n: usize) {
        8
    }

    fn validate(&self, preamble: &Preamble) -> (r: Result<(), Error>) {
        Ok(())
    }
}

impl EncodableElement for usize {
    open spec fn spec_register(&self, paths: Seq<Seq<char>>) -> Seq<Seq<char>> {
        paths
    }

    open spec fn spec_encode(&self, config: Config, paths: Seq<Seq<char>>) -> Seq<u8> {
        spec_u64_to_le_bytes(*self as u64)
    }

    proof fn lemma_encode_len(&self, config: Config, paths: Seq<Seq<char>>) {
        lemma_auto_spec_u64_to_from_le_bytes();
    }

    proof fn lemma_register_extends(&self, paths: Seq<Seq<char>>) {
        assert(paths.is_prefix_of(paths));
    }

    fn to_buffer(&self, ctx: &mut EncoderContext, buf: &mut [u8]) {
        proof {
            lemma_auto_spec_u64_to_from_le_bytes();
        }
        let bytes = u64_to_le_bytes(*self as u64);
        let _ = encode_bytes(bytes.as_slice(), buf);
    }
}

impl DecodableElement for usize {
    open spec fn spec_default() -> usize {
        0
    }

    open spec fn spec_decode_into(old: usize, ctx: DecoderContextView, bytes: Seq<u8>) -> Result<usize, Error> {
        if bytes.len() < 8 {
            Err(Error::BufferTooSmall)
        } else {
            Ok(spec_u64_from_le_bytes(bytes.take(8)) as usize)
        }
    }

    proof fn lemma_decode_needs_len(old: Self::V, ctx: DecoderContextView, bytes: Seq<u8>) {
    }

    proof fn lemma_decode_prefix(old: Self::V, ctx: DecoderContextView, bytes: Seq<u8>) {
        assert(bytes.take(8).take(8) =~= bytes.take(8));
    }

    fn zeroed() -> (r: usize) {
        0
    }

    fn try_from_buffer_in_place(&mut self, ctx: &DecoderContext, buf: &[u8]) -> (r: Result<(), Error>) {
        match Self::validate_buffer(ctx.config(), buf) {
            Ok(()) => {},
            Err(e) => return Err(e),
        }
        let bytes = &buf[0..8];
        assert(bytes@ =~= buf@.take(8));
        *self = u64_from_le_bytes(bytes) as usize;
        Ok(())
    }
}

impl Codec for usize {
    open spec fn spec_normalize(&self, config: Config) -> usize {
        *self
    }

    proof fn lemma_roundtrip(&self, ctx: DecoderContextView, paths: Seq<Seq<char>>) {
        lemma_auto_spec_u64_to_from_le_bytes();
        assert(spec_u64_to_le_bytes(*self as u64).take(8) =~= spec_u64_to_le_bytes(*self as u64));
    }
}

impl<T: Element> Element for Option<T> {
    open spec fn spec_len(config: Config) -> nat {
        T::spec_len(config) + 1
    }

    fn len(config: &Config) -> (n: usize) {
        T::len(config) + 1
    }

    fn validate(&self, preamble: &Preamble) -> (r: Result<(), Error>) {
        match self {
            Some(t) => t.validate(preamble),
            None => Ok(()),
        }
    }
}

impl<T: EncodableElement> EncodableElement for Option<T> {
    open spec fn spec_register(&self, paths: Seq<Seq<char>>) -> Seq<Seq<char>> {
        match self {
            Some(t) => t.spec_register(paths),
            None => paths,
        }
    }

    /// A flag byte, then the element; `None` is filled with zeroes so the encoding is
    /// deterministic.
    open spec fn spec_encode(&self, config: Config, paths: Seq<Seq<char>>) -> Seq<u8> {
        match self {
            Some(t) => seq![1u8] + t.spec_encode(config, paths),
            None => seq![0u8] + zeroes(T::spec_len(config)),
        }
    }

    proof fn lemma_encode_len(&self, config: Config, paths: Seq<Seq<char>>) {
        match self {
            Some(t) => t.lemma_encode_len(config, paths),
            None => {},
        }
    }

    proof fn lemma_register_extends(&self, paths: Seq<Seq<char>>) {
        match self {
            Some(t) => t.lemma_register_extends(paths),
            None => assert(paths.is_prefix_of(paths)),
        }
    }

    fn to_buffer(&self, ctx: &mut EncoderContext, buf: &mut [u8]) {
        let ghost config = ctx@.preamble.config;
        let buf_len = buf.len();
        let len = T::len(ctx.config());
        let rest = self.is_some().encode(ctx, buf);
        match self {
            Some(t) => t.to_buffer(ctx, rest),
            None => {
                let _ = encode_zeroes(len, rest);
            },
        }
        proof {
            assert(buf@ =~= self.spec_encode(config, ctx@.paths) + old(buf)@.skip(len + 1));
        }
    }
}

impl<T: DecodableElement> DecodableElement for Option<T> {
    open spec fn spec_default() -> Option<T::V> {
        None
    }

    open spec fn spec_decode_into(old: Option<T::V>, ctx: DecoderContextView, bytes: Seq<u8>) -> Result<Option<T::V>, Error> {
        if bytes.len() < T::spec_len(ctx.config) + 1 {
            Err(Error::BufferTooSmall)
        } else if bytes[0] != 0 {
            let inner = match old {
                Some(t) => t,
                None => T::spec_default(),
            };
            match T::spec_decode_into(inner, ctx, bytes.skip(1)) {
                Ok(t) => Ok(Some(t)),
                Err(e) => Err(e),
            }
        } else {
            Ok(None)
        }
    }

    proof fn lemma_decode_needs_len(old: Option<T::V>, ctx: DecoderContextView, bytes: Seq<u8>) {
    }

    proof fn lemma_decode_prefix(old: Option<T::V>, ctx: DecoderContextView, bytes: Seq<u8>) {
        let n: int = T::spec_len(ctx.config) as int;
        let inner = match old {
            Some(t) => t,
            None => T::spec_default(),
        };
        T::lemma_decode_prefix(inner, ctx, bytes.skip(1));
        T::lemma_decode_prefix(inner, ctx, bytes.take(n + 1).skip(1));
        assert(bytes.take(n + 1).skip(1).take(n) =~= bytes.skip(1).take(n));
    }

    fn zeroed() -> (r: Option<T>) {
        None
    }

    fn try_from_buffer_in_place(&mut self, ctx: &DecoderContext, buf: &[u8]) -> (r: Result<(), Error>) {
        match Self::validate_buffer(ctx.config(), buf) {
            Ok(()) => {},
            Err(e) => return Err(e),
        }
        let (is_some, rest) = match bool::try_decode(ctx, buf) {
            Ok(d) => d,
            Err(e) => return Err(e),
        };
        if is_some {
            match self {
                Some(t) => {
                    match t.try_from_buffer_in_place(ctx, rest) {
                        Ok(()) => {},
                        Err(e) => return Err(e),
                    }
                },
                None => {
                    let t = match T::try_from_buffer(ctx, rest) {
                        Ok(t) => t,
                        Err(e) => return Err(e),
                    };
                    *self = Some(t);
                },
            }
        } else {
            *self = None;
        }
        Ok(())
    }
}

impl<T: Codec> Codec for Option<T> {
    open spec fn spec_normalize(&self, config: Config) -> Option<T::V> {
        match self {
            Some(t) => Some(t.spec_normalize(config)),
            None => None,
        }
    }

    #[verifier::spinoff_prover]
    proof fn lemma_roundtrip(&self, ctx: DecoderContextView, paths: Seq<Seq<char>>) {
        match self {
            Some(t) => {
                let enc = seq![1u8] + t.spec_encode(ctx.config, paths);
                t.lemma_encode_len(ctx.config, paths);
                t.lemma_roundtrip(ctx, paths);
                assert(enc.skip(1) =~= t.spec_encode(ctx.config, paths));
                assert(self.spec_encode(ctx.config, paths) == enc);
                assert(enc.len() >= T::spec_len(ctx.config) + 1);
                assert(enc[0] != 0);
                assert(Self::spec_default() == None::<T::V>);
                assert(T::spec_decode_into(T::spec_default(), ctx, enc.skip(1)) == Ok::<T::V, Error>(t.spec_normalize(ctx.config)));
                assert(Self::spec_decode_into(None, ctx, enc) == Ok::<Option<T::V>, Error>(Some(t.spec_normalize(ctx.config))));
                assert(self.spec_normalize(ctx.config) == Some(t.spec_normalize(ctx.config)));
            },
            None => {
                let enc = self.spec_encode(ctx.config, paths);
                assert(enc.len() == T::spec_len(ctx.config) + 1);
                assert(enc[0] == 0);
                assert(Self::spec_decode_into(None, ctx, enc) == Ok::<Option<T::V>, Error>(None));
            },
        }
        assert(Self::spec_decode_into(Self::spec_default(), ctx, self.spec_encode(ctx.config, paths)) == Ok::<Option<T::V>, Error>(self.spec_normalize(ctx.config)));
    }
}

impl Element for () {
    open spec fn spec_len(config: Config) -> nat {
        0
    }

    fn len(config: &Config) -> (n: usize) {
        0
    }

    fn validate(&self, preamble: &Preamble) -> (r: Result<(), Error>) {
        Ok(())
    }
}

impl EncodableElement for () {
    open spec fn spec_register(&self, paths: Seq<Seq<char>>) -> Seq<Seq<char>> {
        paths
    }

    open spec fn spec_encode(&self, config: Config, paths: Seq<Seq<char>>) -> Seq<u8> {
        Seq::empty()
    }

    proof fn lemma_encode_len(&self, config: Config, paths: Seq<Seq<char>>) {
    }

    proof fn lemma_register_extends(&self, paths: Seq<Seq<char>>) {
        assert(paths.is_prefix_of(paths));
    }

    fn to_buffer(&self, ctx: &mut EncoderContext, buf: &mut [u8]) {
        assert(buf@ =~= Seq::<u8>::empty() + old(buf)@.skip(0));
    }
}

impl DecodableElement for () {
    open spec fn spec_default() -> () {
        ()
    }

    open spec fn spec_decode_into(old: (), ctx: DecoderContextView, bytes: Seq<u8>) -> Result<(), Error> {
        Ok(())
    }

    proof fn lemma_decode_needs_len(old: Self::V, ctx: DecoderContextView, bytes: Seq<u8>) {
    }

    proof fn lemma_decode_prefix(old: Self::V, ctx: DecoderContextView, bytes: Seq<u8>) {
    }

    fn zeroed() -> (r: ()) {
    }

    fn try_from_buffer_in_place(&mut self, ctx: &DecoderContext, buf: &[u8]) -> (r: Result<(), Error>) {
        Ok(())
    }
}

impl Codec for () {
    open spec fn spec_normalize(&self, config: Config) -> () {
        ()
    }

    proof fn lemma_roundtrip(&self, ctx: DecoderContextView, paths: Seq<Seq<char>>) {
    }
}

impl DeepView for Config {
    type V = Config;

    open spec fn deep_view(&self) -> Config {
        *self
    }
}

impl Element for Config {
    open spec fn spec_len(config: Config) -> nat {
        1
    }

    fn len(config: &Config) -> (n: usize) {
        1
    }

    fn validate(&self, preamble: &Preamble) -> (r: Result<(), Error>) {
        self.zeroed_scalar_values.validate(preamble)
    }
}

impl EncodableElement for Config {
    open spec fn spec_register(&self, paths: Seq<Seq<char>>) -> Seq<Seq<char>> {
        paths
    }

    open spec fn spec_encode(&self, config: Config, paths: Seq<Seq<char>>) -> Seq<u8> {
        seq![spec_bool_byte(self.zeroed_scalar_values)]
    }

    proof fn lemma_encode_len(&self, config: Config, paths: Seq<Seq<char>>) {
    }

    proof fn lemma_register_extends(&self, paths: Seq<Seq<char>>) {
        assert(paths.is_prefix_of(paths));
    }

    fn to_buffer(&self, ctx: &mut EncoderContext, buf: &mut [u8]) {
        let _ = self.zeroed_scalar_values.encode(ctx, buf);
    }
}

impl DecodableElement for Config {
    open spec fn spec_default() -> Config {
        Config::spec_default()
    }

    open spec fn spec_decode_into(old: Config, ctx: DecoderContextView, bytes: Seq<u8>) -> Result<Config, Error> {
        if bytes.len() < 1 {
            Err(Error::BufferTooSmall)
        } else {
            Ok(Config { zeroed_scalar_values: bytes[0] != 0 })
        }
    }

    proof fn lemma_decode_needs_len(old: Self::V, ctx: DecoderContextView, bytes: Seq<u8>) {
    }

    proof fn lemma_decode_prefix(old: Self::V, ctx: DecoderContextView, bytes: Seq<u8>) {
    }

    fn zeroed() -> (r: Config) {
        Config::new()
    }

    fn try_from_buffer_in_place(&mut self, ctx: &DecoderContext, buf: &[u8]) -> (r: Result<(), Error>) {
        match Self::validate_buffer(ctx.config(), buf) {
            Ok(()) => {},
            Err(e) => return Err(e),
        }
        let mut flag = self.zeroed_scalar_values;
        match flag.try_decode_in_place(ctx, buf) {
            Ok(_) => {},
            Err(e) => return Err(e),
        }
        self.zeroed_scalar_values = flag;
        Ok(())
    }
}

impl Codec for Config {
    open spec fn spec_normalize(&self, config: Config) -> Config {
        *self
    }

    proof fn lemma_roundtrip(&self, ctx: DecoderContextView, paths: Seq<Seq<char>>) {
    }
}

} // verus!

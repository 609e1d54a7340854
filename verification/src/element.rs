use vstd::prelude::*;

use crate::bytes::{read_padded, spec_read_padded};
use crate::config::Config;
use crate::context::{DecoderContext, DecoderContextView, EncoderContext};
use crate::error::Error;
use crate::preamble::Preamble;

verus! {

/// Outcome of checking that `available` bytes can hold an element of `needed` bytes.
pub open spec fn spec_check_len(available: nat, needed: nat) -> Result<(), Error> {
    if available < needed {
        Err(Error::BufferTooSmall)
    } else {
        Ok(())
    }
}

/// An in-place decoding returned `r` and left `new` where the specification gave `res`.
pub open spec fn decoded_as<V>(res: Result<V, Error>, r: Result<(), Error>, new: V) -> bool {
    match res {
        Ok(v) => r is Ok && new == v,
        Err(e) => r == Err::<(), Error>(e),
    }
}

/// A decoding returned `r` where the specification gave `res`.
pub open spec fn decoded_value<T: DeepView>(res: Result<T::V, Error>, r: Result<T, Error>) -> bool {
    match res {
        Ok(v) => r is Ok && r.unwrap().deep_view() == v,
        Err(e) => r is Err && r->Err_0 == e,
    }
}

/// Describe a CDF element.
///
/// Every element has a serialized length that is a function of the configuration alone, so
/// seeks and lookups are constant-time.
pub trait Element: Sized + DeepView {
    /// Serialized length.
    spec fn spec_len(config: Config) -> nat;

    /// Serialized length.
    fn len(config: &Config) -> (n: usize)
        requires
            Self::spec_len(*config) <= usize::MAX,
        ensures
            n == Self::spec_len(*config),
    ;

    /// Perform the internal validations of the associated element.
    fn validate(&self, preamble: &Preamble) -> (r: Result<(), Error>)
        ensures
            r == Ok::<(), Error>(()),
    ;

    /// Assert the buffer is big enough to store the type.
    fn validate_buffer(config: &Config, buffer: &[u8]) -> (r: Result<(), Error>)
        requires
            Self::spec_len(*config) <= usize::MAX,
        ensures
            r == spec_check_len(buffer@.len(), Self::spec_len(*config)),
    {
        if buffer.len() < Self::len(config) {
            Err(Error::BufferTooSmall)
        } else {
            Ok(())
        }
    }
}

/// Element that can be encoded into a CDF file.
pub trait EncodableElement: Element {
    /// Source paths after encoding this element against the cache `paths`.
    spec fn spec_register(&self, paths: Seq<Seq<char>>) -> Seq<Seq<char>>;

    /// Bytes of the element, given the source paths cache after its registration.
    spec fn spec_encode(&self, config: Config, paths: Seq<Seq<char>>) -> Seq<u8>;

    /// The encoding always takes exactly the serialized length.
    proof fn lemma_encode_len(&self, config: Config, paths: Seq<Seq<char>>)
        ensures
            self.spec_encode(config, paths).len() == Self::spec_len(config),
    ;

    /// Registration only appends new paths to the cache.
    proof fn lemma_register_extends(&self, paths: Seq<Seq<char>>)
        ensures
            paths.is_prefix_of(self.spec_register(paths)),
    ;

    /// Write the type into the front of the buffer.
    fn to_buffer(&self, ctx: &mut EncoderContext, buf: &mut [u8])
        requires
            old(buf)@.len() >= Self::spec_len(old(ctx)@.preamble.config),
        ensures
            final(ctx)@.preamble == old(ctx)@.preamble,
            final(ctx)@.paths == self.spec_register(old(ctx)@.paths),
            final(buf)@ == self.spec_encode(old(ctx)@.preamble.config, final(ctx)@.paths)
                + old(buf)@.skip(Self::spec_len(old(ctx)@.preamble.config) as int),
    ;

    /// Serialize the object into a bytes vector.
    fn to_vec(&self, ctx: &mut EncoderContext) -> (bytes: Vec<u8>)
        requires
            Self::spec_len(old(ctx)@.preamble.config) <= usize::MAX,
        ensures
            final(ctx)@.preamble == old(ctx)@.preamble,
            final(ctx)@.paths == self.spec_register(old(ctx)@.paths),
            bytes@ == self.spec_encode(old(ctx)@.preamble.config, final(ctx)@.paths),
    {
        let len = Self::len(ctx.config());
        let mut bytes = vec![0u8; len];
        self.to_buffer(ctx, bytes.as_mut_slice());
        proof {
            self.lemma_encode_len(old(ctx)@.preamble.config, ctx@.paths);
            assert(bytes@ =~= self.spec_encode(old(ctx)@.preamble.config, ctx@.paths));
        }
        bytes
    }

    /// Write the element into the front of the buffer, returning the remainder bytes.
    fn encode<'a>(&self, ctx: &mut EncoderContext, buf: &'a mut [u8]) -> (rest: &'a mut [u8])
        requires
            old(buf)@.len() >= Self::spec_len(old(ctx)@.preamble.config),
        ensures
            final(ctx)@.preamble == old(ctx)@.preamble,
            final(ctx)@.paths == self.spec_register(old(ctx)@.paths),
            rest@ == old(buf)@.skip(Self::spec_len(old(ctx)@.preamble.config) as int),
            final(buf)@ == self.spec_encode(old(ctx)@.preamble.config, final(ctx)@.paths)
                + final(rest)@,
    {
        let total = buf.len();
        let len = Self::len(ctx.config());
        self.to_buffer(ctx, buf);
        proof {
            self.lemma_encode_len(old(ctx)@.preamble.config, ctx@.paths);
        }
        let (head, rest) = buf.split_at_mut(len);
        proof {
            assert(head@ =~= self.spec_encode(old(ctx)@.preamble.config, ctx@.paths));
        }
        rest
    }

    /// Append the bytes representation of the element to a writer, returning the count of
    /// written bytes.
    fn try_to_writer(&self, writer: &mut Vec<u8>, ctx: &mut EncoderContext) -> (n: usize)
        requires
            Self::spec_len(old(ctx)@.preamble.config) <= usize::MAX,
        ensures
            final(ctx)@.preamble == old(ctx)@.preamble,
            final(ctx)@.paths == self.spec_register(old(ctx)@.paths),
            final(writer)@ == old(writer)@ + self.spec_encode(
                old(ctx)@.preamble.config,
                final(ctx)@.paths,
            ),
            n == Self::spec_len(old(ctx)@.preamble.config),
    {
        let mut bytes = self.to_vec(ctx);
        let n = bytes.len();
        proof {
            self.lemma_encode_len(old(ctx)@.preamble.config, ctx@.paths);
        }
        writer.append(&mut bytes);
        n
    }
}

/// Element that can be decoded from a CDF file.
///
/// The decoding is stated over the model of the element, its deep view.
pub trait DecodableElement: Element {
    /// The zeroed instance the decoding of a new element starts from.
    spec fn spec_default() -> <Self as DeepView>::V;

    /// Result of decoding the front of `bytes` into an element modelled by `old`.
    spec fn spec_decode_into(
        old: <Self as DeepView>::V,
        ctx: DecoderContextView,
        bytes: Seq<u8>,
    ) -> Result<<Self as DeepView>::V, Error>;

    /// A successful decoding consumed the serialized length.
    proof fn lemma_decode_needs_len(old: <Self as DeepView>::V, ctx: DecoderContextView, bytes: Seq<u8>)
        ensures
            Self::spec_decode_into(old, ctx, bytes) is Ok ==> bytes.len() >= Self::spec_len(ctx.config),
    ;

    /// Only the serialized length at the front of the bytes is read.
    proof fn lemma_decode_prefix(old: <Self as DeepView>::V, ctx: DecoderContextView, bytes: Seq<u8>)
        requires
            bytes.len() >= Self::spec_len(ctx.config),
        ensures
            Self::spec_decode_into(old, ctx, bytes) == Self::spec_decode_into(
                old,
                ctx,
                bytes.take(Self::spec_len(ctx.config) as int),
            ),
    ;

    /// A zeroed instance of the type.
    fn zeroed() -> (r: Self)
        ensures
            r.deep_view() == Self::spec_default(),
    ;

    /// Deserialize the type from the front of the buffer into `self`.
    fn try_from_buffer_in_place(&mut self, ctx: &DecoderContext, buf: &[u8]) -> (r: Result<
        (),
        Error,
    >)
        requires
            Self::spec_len(ctx@.config) <= usize::MAX,
        ensures
            decoded_as(
                Self::spec_decode_into(old(self).deep_view(), ctx@, buf@),
                r,
                final(self).deep_view(),
            ),
    ;

    /// Create a new instance of the type from the provided buffer.
    fn try_from_buffer(ctx: &DecoderContext, buf: &[u8]) -> (r: Result<Self, Error>)
        requires
            Self::spec_len(ctx@.config) <= usize::MAX,
        ensures
            decoded_value(Self::spec_decode_into(Self::spec_default(), ctx@, buf@), r),
    {
        let mut slf = Self::zeroed();
        match slf.try_from_buffer_in_place(ctx, buf) {
            Ok(()) => Ok(slf),
            Err(e) => Err(e),
        }
    }

    /// Decode the element from the front of the buffer into `self`, returning the remainder
    /// bytes.
    fn try_decode_in_place<'b>(&mut self, ctx: &DecoderContext, buf: &'b [u8]) -> (r: Result<
        &'b [u8],
        Error,
    >)
        requires
            Self::spec_len(ctx@.config) <= usize::MAX,
        ensures
            match Self::spec_decode_into(old(self).deep_view(), ctx@, buf@) {
                Ok(v) => r is Ok && final(self).deep_view() == v && r.unwrap()@ == buf@.skip(
                    Self::spec_len(ctx@.config) as int,
                ),
                Err(e) => r is Err && r->Err_0 == e,
            },
    {
        let ghost before = self.deep_view();
        match self.try_from_buffer_in_place(ctx, buf) {
            Ok(()) => {
                proof {
                    Self::lemma_decode_needs_len(before, ctx@, buf@);
                }
                let len = Self::len(ctx.config());
                let (_, rest) = buf.split_at(len);
                Ok(rest)
            },
            Err(e) => Err(e),
        }
    }

    /// Decode a new element from the front of the buffer, returning it with the remainder
    /// bytes.
    fn try_decode<'b>(ctx: &DecoderContext, buf: &'b [u8]) -> (r: Result<(Self, &'b [u8]), Error>)
        requires
            Self::spec_len(ctx@.config) <= usize::MAX,
        ensures
            match Self::spec_decode_into(Self::spec_default(), ctx@, buf@) {
                Ok(v) => r is Ok && r.unwrap().0.deep_view() == v && r.unwrap().1@ == buf@.skip(
                    Self::spec_len(ctx@.config) as int,
                ),
                Err(e) => r is Err && r->Err_0 == e,
            },
    {
        let mut slf = Self::zeroed();
        match slf.try_decode_in_place(ctx, buf) {
            Ok(rest) => Ok((slf, rest)),
            Err(e) => Err(e),
        }
    }

    /// Read a new element from the front of a reader: the serialized length is read, and
    /// whatever the reader lacks reads as zeroes.
    fn try_from_reader(ctx: &DecoderContext, reader: &[u8]) -> (r: Result<Self, Error>)
        requires
            Self::spec_len(ctx@.config) <= usize::MAX,
        ensures
            decoded_value(
                Self::spec_decode_into(
                    Self::spec_default(),
                    ctx@,
                    spec_read_padded(reader@, Self::spec_len(ctx@.config)),
                ),
                r,
            ),
    {
        let len = Self::len(ctx.config());
        let bytes = read_padded(reader, len);
        Self::try_from_buffer(ctx, bytes.as_slice())
    }
}

/// Element that decodes back what it encodes.
pub trait Codec: EncodableElement + DecodableElement {
    /// The model a decoding gives back under `config`: scalars are zeroed when the
    /// configuration skips them.
    spec fn spec_normalize(&self, config: Config) -> <Self as DeepView>::V;

    /// Decoding the encoding of an element from a zeroed instance gives the element back,
    /// normalized by the configuration.
    proof fn lemma_roundtrip(&self, ctx: DecoderContextView, paths: Seq<Seq<char>>)
        ensures
            Self::spec_decode_into(Self::spec_default(), ctx, self.spec_encode(ctx.config, paths))
                == Ok::<<Self as DeepView>::V, Error>(self.spec_normalize(ctx.config)),
    ;
}

} // verus!

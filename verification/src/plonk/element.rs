use vstd::prelude::*;

use crate::bytes::{read_padded, spec_read_padded};
use crate::config::Config;
use crate::element::{decoded_as, decoded_value};
use crate::error::Error;
use crate::plonk::preamble::Preamble;

verus! {

/// Describe an element of the circuit description format.
///
/// Every element has a serialized length that is a function of the configuration alone, so
/// seeks and lookups are constant-time. The encoding and the decoding are stated over the
/// model of the element, its deep view.
pub trait Element: Sized + DeepView {
    /// Serialized length.
    spec fn spec_len(config: Config) -> nat;

    /// Bytes of the element: exactly the serialized length.
    spec fn spec_encode(&self, config: Config) -> Seq<u8>;

    /// Model of the zeroed instance.
    spec fn spec_default() -> <Self as DeepView>::V;

    /// Result of decoding the front of `bytes`, which hold at least the serialized length,
    /// into an element modelled by `old`.
    spec fn spec_decode_into(old: <Self as DeepView>::V, config: Config, bytes: Seq<u8>) -> Result<
        <Self as DeepView>::V,
        Error,
    >;

    /// Outcome of the internal validations of the element against `preamble`.
    spec fn spec_validate(&self, preamble: Preamble) -> Result<(), Error>;

    /// The model that a decoding of the element's encoding gives back under `config`.
    spec fn spec_normalize(&self, config: Config) -> <Self as DeepView>::V;

    /// The encoding always takes exactly the serialized length.
    proof fn lemma_encode_len(&self, config: Config)
        ensures
            self.spec_encode(config).len() == Self::spec_len(config),
    ;

    /// Only the serialized length at the front of the bytes is read.
    proof fn lemma_decode_prefix(old: <Self as DeepView>::V, config: Config, bytes: Seq<u8>)
        requires
            bytes.len() >= Self::spec_len(config),
        ensures
            Self::spec_decode_into(old, config, bytes) == Self::spec_decode_into(
                old,
                config,
                bytes.take(Self::spec_len(config) as int),
            ),
    ;

    /// Decoding the encoding of an element from a zeroed instance gives the element back,
    /// normalized by the configuration.
    proof fn lemma_roundtrip(&self, config: Config)
        ensures
            Self::spec_decode_into(Self::spec_default(), config, self.spec_encode(config)) == Ok::<
                <Self as DeepView>::V,
                Error,
            >(self.spec_normalize(config)),
    ;

    /// A zeroed/default instance of the type.
    fn zeroed() -> (r: Self)
        ensures
            r.deep_view() == Self::spec_default(),
    ;

    /// Serialized length.
    fn len(config: &Config) -> (n: usize)
        requires
            Self::spec_len(*config) <= usize::MAX,
        ensures
            n == Self::spec_len(*config),
    ;

    /// Write the type into the front of the buffer.
    fn to_buffer(&self, config: &Config, buf: &mut [u8])
        requires
            old(buf)@.len() >= Self::spec_len(*config),
        ensures
            final(buf)@ == self.spec_encode(*config) + old(buf)@.skip(Self::spec_len(*config) as int),
    ;

    /// Deserialize the type from the front of the buffer into `self`.
    fn try_from_buffer_in_place(&mut self, config: &Config, buf: &[u8]) -> (r: Result<(), Error>)
        requires
            buf@.len() >= Self::spec_len(*config),
        ensures
            decoded_as(Self::spec_decode_into(old(self).deep_view(), *config, buf@), r, final(self).deep_view()),
    ;

    /// Perform the internal validations of the associated element.
    fn validate(&self, preamble: &Preamble) -> (r: Result<(), Error>)
        ensures
            r == self.spec_validate(*preamble),
    ;

    /// Serialize the object into a bytes vector.
    fn to_vec(&self, config: &Config) -> (bytes: Vec<u8>)
        requires
            Self::spec_len(*config) <= usize::MAX,
        ensures
            bytes@ == self.spec_encode(*config),
    {
        let len = Self::len(config);
        let mut bytes = vec![0u8; len];
        self.to_buffer(config, bytes.as_mut_slice());
        proof {
            self.lemma_encode_len(*config);
            assert(bytes@ =~= self.spec_encode(*config));
        }
        bytes
    }

    /// Create a new instance of the type from the provided buffer.
    fn try_from_buffer(config: &Config, buf: &[u8]) -> (r: Result<Self, Error>)
        requires
            buf@.len() >= Self::spec_len(*config),
        ensures
            decoded_value(Self::spec_decode_into(Self::spec_default(), *config, buf@), r),
    {
        let mut slf = Self::zeroed();
        match slf.try_from_buffer_in_place(config, buf) {
            Ok(()) => Ok(slf),
            Err(e) => Err(e),
        }
    }

    /// Decode the element from the front of the buffer into `self`, returning the remainder
    /// bytes.
    fn try_decode_in_place<'a>(&mut self, config: &Config, buf: &'a [u8]) -> (r: Result<&'a [u8], Error>)
        requires
            buf@.len() >= Self::spec_len(*config),
        ensures
            match Self::spec_decode_into(old(self).deep_view(), *config, buf@) {
                Ok(v) => r is Ok && final(self).deep_view() == v && r.unwrap()@ == buf@.skip(
                    Self::spec_len(*config) as int,
                ),
                Err(e) => r is Err && r->Err_0 == e,
            },
    {
        let _buf_len = buf.len();
        match self.try_from_buffer_in_place(config, buf) {
            Ok(()) => {
                let len = Self::len(config);
                let (_, rest) = buf.split_at(len);
                Ok(rest)
            },
            Err(e) => Err(e),
        }
    }

    /// Decode a new element from the front of the buffer, returning it with the remainder
    /// bytes.
    fn try_decode<'a>(config: &Config, buf: &'a [u8]) -> (r: Result<(Self, &'a [u8]), Error>)
        requires
            buf@.len() >= Self::spec_len(*config),
        ensures
            match Self::spec_decode_into(Self::spec_default(), *config, buf@) {
                Ok(v) => r is Ok && r.unwrap().0.deep_view() == v && r.unwrap().1@ == buf@.skip(
                    Self::spec_len(*config) as int,
                ),
                Err(e) => r is Err && r->Err_0 == e,
            },
    {
        let mut slf = Self::zeroed();
        match slf.try_decode_in_place(config, buf) {
            Ok(rest) => Ok((slf, rest)),
            Err(e) => Err(e),
        }
    }

    /// Write the element into the front of the buffer, returning the remainder bytes.
    fn encode<'a>(&self, config: &Config, buf: &'a mut [u8]) -> (rest: &'a mut [u8])
        requires
            old(buf)@.len() >= Self::spec_len(*config),
        ensures
            rest@ == old(buf)@.skip(Self::spec_len(*config) as int),
            final(buf)@ == self.spec_encode(*config) + final(rest)@,
    {
        let _buf_len = buf.len();
        let len = Self::len(config);
        self.to_buffer(config, buf);
        proof {
            self.lemma_encode_len(*config);
        }
        let (head, rest) = buf.split_at_mut(len);
        proof {
            assert(head@ =~= self.spec_encode(*config));
        }
        rest
    }

    /// Append the bytes of the element to a writer, returning the count of written bytes.
    fn try_to_writer(&self, writer: &mut Vec<u8>, config: &Config) -> (n: usize)
        requires
            Self::spec_len(*config) <= usize::MAX,
        ensures
            final(writer)@ == old(writer)@ + self.spec_encode(*config),
            n == Self::spec_len(*config),
    {
        let mut bytes = self.to_vec(config);
        let n = bytes.len();
        proof {
            self.lemma_encode_len(*config);
        }
        writer.append(&mut bytes);
        n
    }

    /// Read a new element from the front of a reader: the serialized length is read, and
    /// whatever the reader lacks reads as zeroes.
    fn try_from_reader(reader: &[u8], config: &Config) -> (r: Result<Self, Error>)
        requires
            Self::spec_len(*config) <= usize::MAX,
        ensures
            decoded_value(
                Self::spec_decode_into(Self::spec_default(), *config, spec_read_padded(reader@, Self::spec_len(*config))),
                r,
            ),
    {
        let len = Self::len(config);
        let bytes = read_padded(reader, len);
        Self::try_from_buffer(config, bytes.as_slice())
    }
}

} // verus!

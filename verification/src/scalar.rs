use vstd::prelude::*;

use crate::bytes::encode_bytes;
use crate::config::Config;
use crate::context::{DecoderContext, DecoderContextView, EncoderContext};
use crate::element::{Codec, DecodableElement, Element, EncodableElement};
use crate::error::Error;
use crate::preamble::Preamble;

verus! {

/// The 32 zero bytes of the zeroed scalar.
pub open spec fn spec_zero_scalar() -> Seq<u8> {
    Seq::new(32, |i: int| 0u8)
}

/// Scalar field representation with up to 256 bits.
///
/// This is agnostic to the curve choice and no canonical encoding assumption is involved.
#[derive(Debug, Default, Clone, Copy, PartialEq, Eq, PartialOrd, Ord, Hash)]
pub struct Scalar {
    scalar: [u8; 32],
}

impl DeepView for Scalar {
    type V = Seq<u8>;

    closed spec fn deep_view(&self) -> Seq<u8> {
        self.scalar@
    }
}

impl Scalar {
    /// Fixed serialized length.
    pub const LEN: usize = 32;

    /// The model of a scalar always holds 32 bytes.
    pub proof fn lemma_model_len(&self)
        ensures
            self.deep_view().len() == 32,
    {
    }

    /// Model of the scalar as a decoding under `config` gives it back: zeroed when the
    /// configuration skips scalar values.
    pub open spec fn spec_normalized(&self, config: Config) -> Seq<u8> {
        if config.zeroed_scalar_values {
            spec_zero_scalar()
        } else {
            self.deep_view()
        }
    }

    /// Bytes of the scalar in the encoding under `config`: none when the configuration skips
    /// scalar values.
    pub open spec fn spec_bytes(&self, config: Config) -> Seq<u8> {
        if config.zeroed_scalar_values {
            Seq::empty()
        } else {
            self.deep_view()
        }
    }

    /// Model of a scalar decoded from the bytes at `at`: zeroed when the configuration skips
    /// scalar values.
    pub open spec fn spec_read(config: Config, bytes: Seq<u8>, at: int) -> Seq<u8> {
        if config.zeroed_scalar_values {
            spec_zero_scalar()
        } else {
            bytes.subrange(at, at + 32)
        }
    }

    /// Create a scalar from its bytes.
    pub fn from_bytes(scalar: [u8; 32]) -> (s: Scalar)
        ensures
            s.deep_view() == scalar@,
    {
        Scalar { scalar }
    }

    /// The zeroed scalar.
    pub fn zero() -> (s: Scalar)
        ensures
            s.deep_view() == spec_zero_scalar(),
    {
        let s = Scalar { scalar: vstd::array::array_fill_for_copy_types::<u8, 32>(0u8) };
        proof {
            broadcast use vstd::array::group_array_axioms;
            assert(s.deep_view() =~= spec_zero_scalar());
        }
        s
    }

    /// Bytes of the scalar.
    pub fn as_bytes(&self) -> (b: &[u8; 32])
        ensures
            b@ == self.deep_view(),
    {
        &self.scalar
    }

    /// Byte at position `i`.
    pub fn byte(&self, i: usize) -> (b: u8)
        requires
            i < 32,
        ensures
            b == self.deep_view()[i as int],
    {
        self.scalar[i]
    }

    /// Set the byte at position `i`.
    pub fn set_byte(&mut self, i: usize, b: u8)
        requires
            i < 32,
        ensures
            final(self).deep_view() == old(self).deep_view().update(i as int, b),
    {
        self.scalar[i] = b;
    }
}

impl From<[u8; 32]> for Scalar {
    fn from(scalar: [u8; 32]) -> (s: Scalar) {
        Scalar { scalar }
    }
}

impl vstd::std_specs::convert::FromSpecImpl<[u8; 32]> for Scalar {
    open spec fn obeys_from_spec() -> bool {
        true
    }

    closed spec fn from_spec(v: [u8; 32]) -> Scalar {
        Scalar { scalar: v }
    }
}

impl Element for Scalar {
    /// Scalars take no bytes when the configuration skips their values.
    open spec fn spec_len(config: Config) -> nat {
        if config.zeroed_scalar_values {
            0
        } else {
            32
        }
    }

    fn len(config: &Config) -> (n: usize) {
        if config.zeroed_scalar_values {
            0
        } else {
            Self::LEN
        }
    }

    fn validate(&self, preamble: &Preamble) -> (r: Result<(), Error>) {
        Ok(())
    }
}

impl EncodableElement for Scalar {
    open spec fn spec_register(&self, paths: Seq<Seq<char>>) -> Seq<Seq<char>> {
        paths
    }

    open spec fn spec_encode(&self, config: Config, paths: Seq<Seq<char>>) -> Seq<u8> {
        if config.zeroed_scalar_values {
            Seq::empty()
        } else {
            self.deep_view()
        }
    }

    proof fn lemma_encode_len(&self, config: Config, paths: Seq<Seq<char>>) {
        self.lemma_model_len();
    }

    proof fn lemma_register_extends(&self, paths: Seq<Seq<char>>) {
        assert(paths.is_prefix_of(paths));
    }

    fn to_buffer(&self, ctx: &mut EncoderContext, buf: &mut [u8]) {
        if !ctx.config().zeroed_scalar_values {
            let _ = encode_bytes(vstd::array::array_as_slice(&self.scalar), buf);
        } else {
            assert(buf@ =~= Seq::<u8>::empty() + old(buf)@.skip(0));
        }
    }
}

impl DecodableElement for Scalar {
    open spec fn spec_default() -> Seq<u8> {
        spec_zero_scalar()
    }

    /// With skipped scalar values, the scalar decodes as zero.
    open spec fn spec_decode_into(old: Seq<u8>, ctx: DecoderContextView, bytes: Seq<u8>) -> Result<Seq<u8>, Error> {
        if ctx.config.zeroed_scalar_values {
            Ok(spec_zero_scalar())
        } else if bytes.len() < 32 {
            Err(Error::BufferTooSmall)
        } else {
            Ok(bytes.take(32))
        }
    }

    proof fn lemma_decode_needs_len(old: Seq<u8>, ctx: DecoderContextView, bytes: Seq<u8>) {
    }

    proof fn lemma_decode_prefix(old: Seq<u8>, ctx: DecoderContextView, bytes: Seq<u8>) {
        if !ctx.config.zeroed_scalar_values {
            assert(bytes.take(32).take(32) =~= bytes.take(32));
        }
    }

    fn zeroed() -> (r: Scalar) {
        Scalar::zero()
    }

    fn try_from_buffer_in_place(&mut self, ctx: &DecoderContext, buf: &[u8]) -> (r: Result<(), Error>) {
        match Self::validate_buffer(ctx.config(), buf) {
            Ok(()) => {},
            Err(e) => return Err(e),
        }
        if !ctx.config().zeroed_scalar_values {
            let mut i: usize = 0;
            while i < 32
                invariant
                    i <= 32,
                    buf@.len() >= 32,
                    forall|j: int| 0 <= j < i ==> self.scalar@[j] == buf@[j],
                decreases 32 - i,
            {
                self.scalar[i] = buf[i];
                i = i + 1;
            }
            assert(self.scalar@ =~= buf@.take(32));
        } else {
            *self = Scalar::zero();
        }
        Ok(())
    }
}

impl Codec for Scalar {
    open spec fn spec_normalize(&self, config: Config) -> Seq<u8> {
        self.spec_normalized(config)
    }

    proof fn lemma_roundtrip(&self, ctx: DecoderContextView, paths: Seq<Seq<char>>) {
        self.lemma_model_len();
        assert(self.deep_view().take(32) =~= self.deep_view());
    }
}

impl std::ops::Deref for Scalar {
    type Target = [u8; 32];

    fn deref(&self) -> (r: &[u8; 32])
        ensures
            r@ == self.deep_view(),
    {
        &self.scalar
    }
}

impl std::ops::DerefMut for Scalar {
    fn deref_mut(&mut self) -> (r: &mut [u8; 32])
        ensures
            r@ == old(self).deep_view(),
            final(r)@ == final(self).deep_view(),
    {
        &mut self.scalar
    }
}

impl AsRef<[u8]> for Scalar {
    fn as_ref(&self) -> (r: &[u8])
        ensures
            r@ == self.deep_view(),
    {
        self.scalar.as_slice()
    }
}

} // verus!

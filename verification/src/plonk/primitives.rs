use vstd::prelude::*;
use vstd::bytes::{
    lemma_auto_spec_u16_to_from_le_bytes, lemma_auto_spec_u64_to_from_le_bytes, spec_u16_from_le_bytes,
    spec_u16_to_le_bytes, spec_u64_from_le_bytes, spec_u64_to_le_bytes, u16_from_le_bytes, u16_to_le_bytes,
    u64_from_le_bytes, u64_to_le_bytes,
};

use crate::bytes::{encode_bytes, encode_zeroes};
use crate::config::Config;
use crate::error::Error;
use crate::plonk::element::Element;
use crate::plonk::preamble::Preamble;
use crate::scalar::{Scalar, spec_zero_scalar};

verus! {

/// Byte of a boolean.
pub open spec fn spec_bool_byte(b: bool) -> u8 {
    if b {
        1u8
    } else {
        0u8
    }
}

/// `z` when the configuration skips scalar values, else `f`.
pub open spec fn spec_by_config(config: Config, z: int, f: int) -> int {
    if config.zeroed_scalar_values {
        z
    } else {
        f
    }
}

/// Bytes of a scalar modelled by `b` under `config`: none when scalar values are skipped.
pub open spec fn spec_scalar_bytes(b: Seq<u8>, config: Config) -> Seq<u8> {
    if config.zeroed_scalar_values {
        Seq::empty()
    } else {
        b
    }
}

/// The scalar modelled by `b` as a decoding under `config` gives it back: zeroed when
/// scalar values are skipped.
pub open spec fn spec_scalar_normalized(b: Seq<u8>, config: Config) -> Seq<u8> {
    if config.zeroed_scalar_values {
        spec_zero_scalar()
    } else {
        b
    }
}

/// `n` zero bytes.
pub open spec fn spec_zeroes(n: nat) -> Seq<u8> {
    Seq::new(n, |i: int| 0u8)
}

impl Element for bool {
    open spec fn spec_len(config: Config) -> nat {
        1
    }

    open spec fn spec_encode(&self, config: Config) -> Seq<u8> {
        seq![spec_bool_byte(*self)]
    }

    open spec fn spec_default() -> bool {
        false
    }

    open spec fn spec_decode_into(old: bool, config: Config, bytes: Seq<u8>) -> Result<bool, Error> {
        Ok(bytes[0] != 0)
    }

    open spec fn spec_validate(&self, preamble: Preamble) -> Result<(), Error> {
        Ok(())
    }

    open spec fn spec_normalize(&self, config: Config) -> bool {
        *self
    }

    proof fn lemma_encode_len(&self, config: Config) {
    }

    proof fn lemma_decode_prefix(old: bool, config: Config, bytes: Seq<u8>) {
    }

    proof fn lemma_roundtrip(&self, config: Config) {
    }

    fn zeroed() -> (r: bool) {
        false
    }

    fn len(config: &Config) -> (n: usize) {
        1
    }

    fn to_buffer(&self, config: &Config, buf: &mut [u8]) {
        buf[0] = if *self { 1u8 } else { 0u8 };
        assert(buf@ =~= seq![spec_bool_byte(*self)] + old(buf)@.skip(1));
    }

    fn try_from_buffer_in_place(&mut self, config: &Config, buf: &[u8]) -> (r: Result<(), Error>) {
        *self = buf[0] != 0;
        Ok(())
    }

    fn validate(&self, preamble: &Preamble) -> (r: Result<(), Error>) {
        Ok(())
    }
}

impl Element for u16 {
    open spec fn spec_len(config: Config) -> nat {
        2
    }

    open spec fn spec_encode(&self, config: Config) -> Seq<u8> {
        spec_u16_to_le_bytes(*self)
    }

    open spec fn spec_default() -> u16 {
        0
    }

    open spec fn spec_decode_into(old: u16, config: Config, bytes: Seq<u8>) -> Result<u16, Error> {
        Ok(spec_u16_from_le_bytes(bytes.take(2)))
    }

    open spec fn spec_validate(&self, preamble: Preamble) -> Result<(), Error> {
        Ok(())
    }

    open spec fn spec_normalize(&self, config: Config) -> u16 {
        *self
    }

    proof fn lemma_encode_len(&self, config: Config) {
        lemma_auto_spec_u16_to_from_le_bytes();
    }

    proof fn lemma_decode_prefix(old: u16, config: Config, bytes: Seq<u8>) {
        assert(bytes.take(2).take(2) =~= bytes.take(2));
    }

    proof fn lemma_roundtrip(&self, config: Config) {
        lemma_auto_spec_u16_to_from_le_bytes();
        assert(spec_u16_to_le_bytes(*self).take(2) =~= spec_u16_to_le_bytes(*self));
    }

    fn zeroed() -> (r: u16) {
        0
    }

    fn len(config: &Config) -> (n: usize) {
        2
    }

    fn to_buffer(&self, config: &Config, buf: &mut [u8]) {
        proof {
            lemma_auto_spec_u16_to_from_le_bytes();
        }
        let bytes = u16_to_le_bytes(*self);
        let _ = encode_bytes(bytes.as_slice(), buf);
    }

    fn try_from_buffer_in_place(&mut self, config: &Config, buf: &[u8]) -> (r: Result<(), Error>) {
        let bytes = &buf[0..2];
        assert(bytes@ =~= buf@.take(2));
        *self = u16_from_le_bytes(bytes);
        Ok(())
    }

    fn validate(&self, preamble: &Preamble) -> (r: Result<(), Error>) {
        Ok(())
    }
}

impl Element for u64 {
    open spec fn spec_len(config: Config) -> nat {
        8
    }

    open spec fn spec_encode(&self, config: Config) -> Seq<u8> {
        spec_u64_to_le_bytes(*self)
    }

    open spec fn spec_default() -> u64 {
        0
    }

    open spec fn spec_decode_into(old: u64, config: Config, bytes: Seq<u8>) -> Result<u64, Error> {
        Ok(spec_u64_from_le_bytes(bytes.take(8)))
    }

    open spec fn spec_validate(&self, preamble: Preamble) -> Result<(), Error> {
        Ok(())
    }

    open spec fn spec_normalize(&self, config: Config) -> u64 {
        *self
    }

    proof fn lemma_encode_len(&self, config: Config) {
        lemma_auto_spec_u64_to_from_le_bytes();
    }

    proof fn lemma_decode_prefix(old: u64, config: Config, bytes: Seq<u8>) {
        assert(bytes.take(8).take(8) =~= bytes.take(8));
    }

    proof fn lemma_roundtrip(&self, config: Config) {
        lemma_auto_spec_u64_to_from_le_bytes();
        assert(spec_u64_to_le_bytes(*self).take(8) =~= spec_u64_to_le_bytes(*self));
    }

    fn zeroed() -> (r: u64) {
        0
    }

    fn len(config: &Config) -> (n: usize) {
        8
    }

    fn to_buffer(&self, config: &Config, buf: &mut [u8]) {
        proof {
            lemma_auto_spec_u64_to_from_le_bytes();
        }
        let bytes = u64_to_le_bytes(*self);
        let _ = encode_bytes(bytes.as_slice(), buf);
    }

    fn try_from_buffer_in_place(&mut self, config: &Config, buf: &[u8]) -> (r: Result<(), Error>) {
        let bytes = &buf[0..8];
        assert(bytes@ =~= buf@.take(8));
        *self = u64_from_le_bytes(bytes);
        Ok(())
    }

    fn validate(&self, preamble: &Preamble) -> (r: Result<(), Error>) {
        Ok(())
    }
}

// usize is encoded as u64 so the encoding is platform agnostic
impl Element for usize {
    open spec fn spec_len(config: Config) -> nat {
        8
    }

    open spec fn spec_encode(&self, config: Config) -> Seq<u8> {
        spec_u64_to_le_bytes(*self as u64)
    }

    open spec fn spec_default() -> usize {
        0
    }

    open spec fn spec_decode_into(old: usize, config: Config, bytes: Seq<u8>) -> Result<usize, Error> {
        Ok(spec_u64_from_le_bytes(bytes.take(8)) as usize)
    }

    open spec fn spec_validate(&self, preamble: Preamble) -> Result<(), Error> {
        Ok(())
    }

    open spec fn spec_normalize(&self, config: Config) -> usize {
        *self
    }

    proof fn lemma_encode_len(&self, config: Config) {
        lemma_auto_spec_u64_to_from_le_bytes();
    }

    proof fn lemma_decode_prefix(old: usize, config: Config, bytes: Seq<u8>) {
        assert(bytes.take(8).take(8) =~= bytes.take(8));
    }

    proof fn lemma_roundtrip(&self, config: Config) {
        lemma_auto_spec_u64_to_from_le_bytes();
        assert(spec_u64_to_le_bytes(*self as u64).take(8) =~= spec_u64_to_le_bytes(*self as u64));
    }

    fn zeroed() -> (r: usize) {
        0
    }

    fn len(config: &Config) -> (n: usize) {
        8
    }

    fn to_buffer(&self, config: &Config, buf: &mut [u8]) {
        proof {
            lemma_auto_spec_u64_to_from_le_bytes();
        }
        let bytes = u64_to_le_bytes(*self as u64);
        let _ = encode_bytes(bytes.as_slice(), buf);
    }

    fn try_from_buffer_in_place(&mut self, config: &Config, buf: &[u8]) -> (r: Result<(), Error>) {
        let bytes = &buf[0..8];
        assert(bytes@ =~= buf@.take(8));
        *self = u64_from_le_bytes(bytes) as usize;
        Ok(())
    }

    fn validate(&self, preamble: &Preamble) -> (r: Result<(), Error>) {
        Ok(())
    }
}

impl<T: Element> Element for Option<T> {
    open spec fn spec_len(config: Config) -> nat {
        T::spec_len(config) + 1
    }

    /// A flag byte, then the element; `None` is filled with zeroes so the encoding is
    /// deterministic.
    open spec fn spec_encode(&self, config: Config) -> Seq<u8> {
        match self {
            Some(t) => seq![1u8] + t.spec_encode(config),
            None => seq![0u8] + spec_zeroes(T::spec_len(config)),
        }
    }

    open spec fn spec_default() -> Option<T::V> {
        None
    }

    open spec fn spec_decode_into(old: Option<T::V>, config: Config, bytes: Seq<u8>) -> Result<Option<T::V>, Error> {
        if bytes[0] != 0 {
            let inner = match old {
                Some(t) => t,
                None => T::spec_default(),
            };
            match T::spec_decode_into(inner, config, bytes.skip(1)) {
                Ok(t) => Ok(Some(t)),
                Err(e) => Err(e),
            }
        } else {
            Ok(None)
        }
    }

    open spec fn spec_validate(&self, preamble: Preamble) -> Result<(), Error> {
        match self {
            Some(t) => t.spec_validate(preamble),
            None => Ok(()),
        }
    }

    open spec fn spec_normalize(&self, config: Config) -> Option<T::V> {
        match self {
            Some(t) => Some(t.spec_normalize(config)),
            None => None,
        }
    }

    proof fn lemma_encode_len(&self, config: Config) {
        match self {
            Some(t) => t.lemma_encode_len(config),
            None => {},
        }
    }

    proof fn lemma_decode_prefix(old: Option<T::V>, config: Config, bytes: Seq<u8>) {
        let n: int = T::spec_len(config) as int;
        let inner = match old {
            Some(t) => t,
            None => T::spec_default(),
        };
        T::lemma_decode_prefix(inner, config, bytes.skip(1));
        T::lemma_decode_prefix(inner, config, bytes.take(n + 1).skip(1));
        assert(bytes.take(n + 1).skip(1).take(n) =~= bytes.skip(1).take(n));
    }

    #[verifier::spinoff_prover]
    proof fn lemma_roundtrip(&self, config: Config) {
        match self {
            Some(t) => {
                let enc = seq![1u8] + t.spec_encode(config);
                t.lemma_encode_len(config);
                t.lemma_roundtrip(config);
                assert(enc.skip(1) =~= t.spec_encode(config));
                assert(self.spec_encode(config) == enc);
                assert(enc[0] != 0);
                assert(Self::spec_decode_into(None, config, enc) == Ok::<Option<T::V>, Error>(Some(t.spec_normalize(config))));
            },
            None => {
                let enc = self.spec_encode(config);
                assert(enc[0] == 0);
                assert(Self::spec_decode_into(None, config, enc) == Ok::<Option<T::V>, Error>(None));
            },
        }
    }

    fn zeroed() -> (r: Option<T>) {
        None
    }

    fn len(config: &Config) -> (n: usize) {
        T::len(config) + 1
    }

    fn to_buffer(&self, config: &Config, buf: &mut [u8]) {
        let _buf_len = buf.len();
        let len = T::len(config);
        let rest = self.is_some().encode(config, buf);
        match self {
            Some(t) => t.to_buffer(config, rest),
            None => {
                let _ = encode_zeroes(len, rest);
            },
        }
        proof {
            assert(buf@ =~= self.spec_encode(*config) + old(buf)@.skip(len + 1));
        }
    }

    fn try_from_buffer_in_place(&mut self, config: &Config, buf: &[u8]) -> (r: Result<(), Error>) {
        let (is_some, rest) = match bool::try_decode(config, buf) {
            Ok(d) => d,
            Err(e) => return Err(e),
        };
        if is_some {
            match self {
                Some(t) => {
                    match t.try_from_buffer_in_place(config, rest) {
                        Ok(()) => {},
                        Err(e) => return Err(e),
                    }
                },
                None => {
                    let t = match T::try_from_buffer(config, rest) {
                        Ok(t) => t,
                        Err(e) => return Err(e),
                    };
                    *self = Some(t);
                },
            }
        } else {
            *self = None;
        }
        Ok(())
    }

    fn validate(&self, preamble: &Preamble) -> (r: Result<(), Error>) {
        match self {
            Some(t) => t.validate(preamble),
            None => Ok(()),
        }
    }
}

impl Element for () {
    open spec fn spec_len(config: Config) -> nat {
        0
    }

    open spec fn spec_encode(&self, config: Config) -> Seq<u8> {
        Seq::empty()
    }

    open spec fn spec_default() -> () {
        ()
    }

    open spec fn spec_decode_into(old: (), config: Config, bytes: Seq<u8>) -> Result<(), Error> {
        Ok(())
    }

    open spec fn spec_validate(&self, preamble: Preamble) -> Result<(), Error> {
        Ok(())
    }

    open spec fn spec_normalize(&self, config: Config) -> () {
        ()
    }

    proof fn lemma_encode_len(&self, config: Config) {
    }

    proof fn lemma_decode_prefix(old: (), config: Config, bytes: Seq<u8>) {
    }

    proof fn lemma_roundtrip(&self, config: Config) {
    }

    fn zeroed() -> (r: ()) {
    }

    fn len(config: &Config) -> (n: usize) {
        0
    }

    fn to_buffer(&self, config: &Config, buf: &mut [u8]) {
        assert(buf@ =~= Seq::<u8>::empty() + old(buf)@.skip(0));
    }

    fn try_from_buffer_in_place(&mut self, config: &Config, buf: &[u8]) -> (r: Result<(), Error>) {
        Ok(())
    }

    fn validate(&self, preamble: &Preamble) -> (r: Result<(), Error>) {
        Ok(())
    }
}

impl Element for Scalar {
    /// No bytes when the configuration skips scalar values.
    open spec fn spec_len(config: Config) -> nat {
        if config.zeroed_scalar_values {
            0
        } else {
            32
        }
    }

    open spec fn spec_encode(&self, config: Config) -> Seq<u8> {
        self.spec_bytes(config)
    }

    open spec fn spec_default() -> Seq<u8> {
        spec_zero_scalar()
    }

    /// The scalar decodes as zero when the configuration skips scalar values.
    open spec fn spec_decode_into(old: Seq<u8>, config: Config, bytes: Seq<u8>) -> Result<Seq<u8>, Error> {
        Ok(Scalar::spec_read(config, bytes, 0))
    }

    open spec fn spec_validate(&self, preamble: Preamble) -> Result<(), Error> {
        Ok(())
    }

    open spec fn spec_normalize(&self, config: Config) -> Seq<u8> {
        self.spec_normalized(config)
    }

    proof fn lemma_encode_len(&self, config: Config) {
        self.lemma_model_len();
        assert(self.deep_view().len() == 32);
        assert(self.spec_encode(config) == self.spec_bytes(config));
        assert(self.spec_bytes(config).len() == Self::spec_len(config));
    }

    proof fn lemma_decode_prefix(old: Seq<u8>, config: Config, bytes: Seq<u8>) {
        if !config.zeroed_scalar_values {
            assert(bytes.take(32).subrange(0, 32) =~= bytes.subrange(0, 32));
        }
    }

    proof fn lemma_roundtrip(&self, config: Config) {
        self.lemma_model_len();
        assert(self.deep_view().subrange(0, 32) =~= self.deep_view());
    }

    fn zeroed() -> (r: Scalar) {
        Scalar::zero()
    }

    fn len(config: &Config) -> (n: usize) {
        if config.zeroed_scalar_values {
            0
        } else {
            32
        }
    }

    fn to_buffer(&self, config: &Config, buf: &mut [u8]) {
        if !config.zeroed_scalar_values {
            let _ = encode_bytes(vstd::array::array_as_slice(self.as_bytes()), buf);
        } else {
            assert(buf@ =~= Seq::<u8>::empty() + old(buf)@.skip(0));
        }
    }

    fn try_from_buffer_in_place(&mut self, config: &Config, buf: &[u8]) -> (r: Result<(), Error>) {
        if !config.zeroed_scalar_values {
            let mut i: usize = 0;
            proof {
                self.lemma_model_len();
            }
            while i < 32
                invariant
                    buf@.len() >= 32,
                    i <= 32,
                    self.deep_view().len() == 32,
                    forall|j: int| 0 <= j < i ==> self.deep_view()[j] == buf@[j],
                decreases 32 - i,
            {
                proof {
                    self.lemma_model_len();
                }
                self.set_byte(i, buf[i]);
                i = i + 1;
            }
            assert(self.deep_view() =~= buf@.subrange(0, 32));
        } else {
            *self = Scalar::zero();
        }
        Ok(())
    }

    fn validate(&self, preamble: &Preamble) -> (r: Result<(), Error>) {
        Ok(())
    }
}

} // verus!

use vstd::prelude::*;
use vstd::bytes::{lemma_auto_spec_u16_to_from_le_bytes, spec_u16_from_le_bytes, spec_u16_to_le_bytes};
use vstd::string::StringSliceAdditionalSpecFns;
use vstd::utf8::{decode_utf8, is_char_boundary, valid_utf8};

use crate::bytes::{encode_bytes, encode_zeroes};
use crate::config::Config;
use crate::error::Error;
use crate::plonk::element::Element;
use crate::plonk::preamble::Preamble;
use crate::plonk::primitives::spec_zeroes;
use crate::text::{spec_utf8, string_from_utf8};

verus! {

/// Room for text in a fixed text of `n` bytes: two bytes hold the text's length.
pub open spec fn spec_room(n: u16) -> int {
    if n >= 2 {
        n - 2
    } else {
        0
    }
}

/// The last character boundary of the UTF-8 bytes `bytes` at or before `k`.
pub open spec fn spec_boundary_at_most(bytes: Seq<u8>, k: int) -> int
    decreases k,
{
    if k <= 0 {
        0
    } else if is_char_boundary(bytes, k) {
        k
    } else {
        spec_boundary_at_most(bytes, k - 1)
    }
}

/// UTF-8 bytes of the longest prefix of `text` that fits in a fixed text of `n` bytes.
pub open spec fn spec_fit_bytes(text: Seq<char>, n: u16) -> Seq<u8> {
    let b = spec_utf8(text);
    let m = if b.len() < spec_room(n) {
        b.len() as int
    } else {
        spec_room(n)
    };
    b.take(spec_boundary_at_most(b, m))
}

/// The longest prefix of `text` that fits in a fixed text of `n` bytes.
pub open spec fn spec_fit(text: Seq<char>, n: u16) -> Seq<char> {
    decode_utf8(spec_fit_bytes(text, n))
}

/// Bytes of the text `text` in a fixed text of `n` bytes: its length as 16 bits, its UTF-8
/// bytes, then zeroes up to `n` bytes; `n` zeroes when the length doesn't fit.
pub open spec fn spec_text_bytes(text: Seq<char>, n: u16) -> Seq<u8> {
    let fb = spec_utf8(text);
    if n >= 2 {
        spec_u16_to_le_bytes(fb.len() as u16) + fb + spec_zeroes((n - 2 - fb.len()) as nat)
    } else {
        spec_zeroes(n as nat)
    }
}

/// The last character boundary at or before `k` is a boundary, and not after `k`.
proof fn lemma_boundary_at_most(bytes: Seq<u8>, k: int)
    requires
        valid_utf8(bytes),
        k <= bytes.len(),
    ensures
        0 <= spec_boundary_at_most(bytes, k) <= if k < 0 { 0 } else { k },
        is_char_boundary(bytes, spec_boundary_at_most(bytes, k)),
    decreases k,
{
    if k > 0 && !is_char_boundary(bytes, k) {
        lemma_boundary_at_most(bytes, k - 1);
    }
}

/// The fitted bytes are valid UTF-8, fit the room, and encode the fitted text; fitting a
/// fitted text changes nothing.
pub proof fn lemma_fit(text: Seq<char>, n: u16)
    ensures
        valid_utf8(spec_fit_bytes(text, n)),
        spec_fit_bytes(text, n).len() <= spec_room(n),
        spec_utf8(spec_fit(text, n)) == spec_fit_bytes(text, n),
        spec_fit(spec_fit(text, n), n) == spec_fit(text, n),
{
    let b = spec_utf8(text);
    vstd::utf8::encode_utf8_valid_utf8(text);
    let m = if b.len() < spec_room(n) {
        b.len() as int
    } else {
        spec_room(n)
    };
    lemma_boundary_at_most(b, m);
    let k = spec_boundary_at_most(b, m);
    vstd::utf8::valid_utf8_split(b, k);
    assert(b.subrange(0, k) == b.take(k));
    let fb = b.take(k);
    vstd::utf8::decode_utf8_encode_utf8(fb);
    lemma_fitted_bytes(fb, n);
}

/// Valid UTF-8 bytes that fit the room are their own fitted bytes.
proof fn lemma_fitted_bytes(bytes: Seq<u8>, n: u16)
    requires
        valid_utf8(bytes),
        bytes.len() <= spec_room(n),
    ensures
        spec_fit_bytes(decode_utf8(bytes), n) == bytes,
        spec_fit(decode_utf8(bytes), n) == decode_utf8(bytes),
{
    vstd::utf8::decode_utf8_encode_utf8(bytes);
    vstd::utf8::is_char_boundary_start_end_of_seq(bytes);
    let k = bytes.len() as int;
    if k > 0 {
        assert(spec_boundary_at_most(bytes, k) == k);
    }
    assert(bytes.take(k) =~= bytes);
}

/// Text stored in a fixed count of `N` bytes: two bytes for its length, then its UTF-8
/// bytes.
#[derive(Debug, Default, Clone, PartialEq, Eq, PartialOrd, Ord, Hash)]
pub struct FixedText<const N: u16>(String);

impl<const N: u16> DeepView for FixedText<N> {
    type V = Seq<char>;

    /// The text as it is stored: the longest prefix that fits.
    closed spec fn deep_view(&self) -> Seq<char> {
        spec_fit(self.0@, N)
    }
}

/// Count of UTF-8 bytes of `s` that fit in `room` bytes without splitting a character.
fn fit_len(s: &str, room: usize) -> (k: usize)
    ensures
        k == spec_boundary_at_most(
            spec_utf8(s@),
            if spec_utf8(s@).len() < room {
                spec_utf8(s@).len() as int
            } else {
                room as int
            },
        ),
{
    let bytes = s.as_bytes();
    proof {
        assert(bytes@ == spec_utf8(s@));
    }
    let m: usize = if bytes.len() < room {
        bytes.len()
    } else {
        room
    };
    let mut k: usize = m;
    while k > 0 && !s.is_char_boundary(k)
        invariant
            k <= m,
            bytes@ == spec_utf8(s@),
            bytes@ == s.spec_bytes(),
            spec_boundary_at_most(bytes@, m as int) == spec_boundary_at_most(bytes@, k as int),
        decreases k,
    {
        k = k - 1;
    }
    k
}

impl<const N: u16> FixedText<N> {
    /// Room for text bytes.
    fn room() -> (r: usize)
        ensures
            r == spec_room(N),
    {
        if N >= 2 {
            (N - 2) as usize
        } else {
            0
        }
    }

    /// Create a fixed text holding the longest prefix of `s` that fits.
    pub fn new(s: String) -> (t: FixedText<N>)
        ensures
            t.deep_view() == spec_fit(s@, N),
    {
        let st = s.as_str();
        let k = fit_len(st, Self::room());
        proof {
            let b = spec_utf8(s@);
            vstd::utf8::encode_utf8_valid_utf8(s@);
            let m = if b.len() < spec_room(N) {
                b.len() as int
            } else {
                spec_room(N)
            };
            lemma_boundary_at_most(b, m);
            assert(st.spec_bytes() == b);
        }
        let (head, _) = st.split_at(k);
        let text = head.to_owned();
        proof {
            let b = spec_utf8(s@);
            assert(head.spec_bytes() =~= b.take(k as int));
            assert(spec_utf8(text@) == b.take(k as int));
            lemma_fit(s@, N);
            vstd::utf8::encode_utf8_decode_utf8(text@);
            lemma_fitted_bytes(b.take(k as int), N);
        }
        FixedText(text)
    }

    /// The stored text.
    pub fn as_str(&self) -> (s: &str)
        ensures
            s@ == self.deep_view(),
    {
        let st = self.0.as_str();
        let k = fit_len(st, Self::room());
        proof {
            let b = spec_utf8(self.0@);
            vstd::utf8::encode_utf8_valid_utf8(self.0@);
            let m = if b.len() < spec_room(N) {
                b.len() as int
            } else {
                spec_room(N)
            };
            lemma_boundary_at_most(b, m);
            assert(st.spec_bytes() == b);
        }
        let (head, _) = st.split_at(k);
        proof {
            let b = spec_utf8(self.0@);
            assert(head.spec_bytes() =~= b.take(k as int));
            lemma_fit(self.0@, N);
            vstd::utf8::encode_utf8_decode_utf8(head@);
        }
        head
    }
}

impl<const N: u16> std::ops::Deref for FixedText<N> {
    type Target = str;

    fn deref(&self) -> (s: &str)
        ensures
            s@ == self.deep_view(),
    {
        self.as_str()
    }
}

impl<const N: u16> From<String> for FixedText<N> {
    /// Keep the longest prefix of `s` that fits.
    fn from(s: String) -> (t: FixedText<N>)
        ensures
            t.deep_view() == spec_fit(s@, N),
    {
        FixedText::new(s)
    }
}

impl<const N: u16> vstd::std_specs::convert::FromSpecImpl<String> for FixedText<N> {
    open spec fn obeys_from_spec() -> bool {
        false
    }

    closed spec fn from_spec(v: String) -> FixedText<N> {
        FixedText(v)
    }
}

impl<const N: u16> From<FixedText<N>> for String {
    fn from(t: FixedText<N>) -> (s: String)
        ensures
            s@ == t.deep_view(),
    {
        t.as_str().to_owned()
    }
}

impl<const N: u16> vstd::std_specs::convert::FromSpecImpl<FixedText<N>> for String {
    open spec fn obeys_from_spec() -> bool {
        false
    }

    closed spec fn from_spec(v: FixedText<N>) -> String {
        v.0
    }
}

impl<const N: u16> Element for FixedText<N> {
    open spec fn spec_len(config: Config) -> nat {
        N as nat
    }

    open spec fn spec_encode(&self, config: Config) -> Seq<u8> {
        spec_text_bytes(self.deep_view(), N)
    }

    open spec fn spec_default() -> Seq<char> {
        Seq::empty()
    }

    /// A text whose length exceeds the room or whose bytes aren't valid UTF-8 is refused; a
    /// fixed text too small to hold a length holds only the empty text, as zeroes.
    open spec fn spec_decode_into(old: Seq<char>, config: Config, bytes: Seq<u8>) -> Result<Seq<char>, Error> {
        if N < 2 {
            if N == 1 && bytes[0] != 0 {
                Err(Error::InvalidText)
            } else {
                Ok(Seq::empty())
            }
        } else {
            let len = spec_u16_from_le_bytes(bytes.take(2));
            if len > N - 2 {
                Err(Error::InvalidText)
            } else if !valid_utf8(bytes.subrange(2, 2 + len)) {
                Err(Error::InvalidText)
            } else {
                Ok(decode_utf8(bytes.subrange(2, 2 + len)))
            }
        }
    }

    open spec fn spec_validate(&self, preamble: Preamble) -> Result<(), Error> {
        Ok(())
    }

    open spec fn spec_normalize(&self, config: Config) -> Seq<char> {
        self.deep_view()
    }

    proof fn lemma_encode_len(&self, config: Config) {
        lemma_auto_spec_u16_to_from_le_bytes();
        lemma_fit(self.0@, N);
    }

    proof fn lemma_decode_prefix(old: Seq<char>, config: Config, bytes: Seq<u8>) {
        if N >= 2 {
            let t = bytes.take(N as int);
            assert(t.take(2) =~= bytes.take(2));
            let len = spec_u16_from_le_bytes(bytes.take(2));
            if len <= N - 2 {
                assert(t.subrange(2, 2 + len) =~= bytes.subrange(2, 2 + len));
            }
        }
    }

    proof fn lemma_roundtrip(&self, config: Config) {
        lemma_auto_spec_u16_to_from_le_bytes();
        lemma_fit(self.0@, N);
        if N >= 2 {
            let fb = spec_utf8(self.deep_view());
            let enc = self.spec_encode(config);
            assert(enc.take(2) =~= spec_u16_to_le_bytes(fb.len() as u16));
            assert(enc.subrange(2, 2 + fb.len() as int) =~= fb);
        }
    }

    fn zeroed() -> (r: FixedText<N>) {
        let r = FixedText(String::new());
        proof {
            assert(spec_utf8(Seq::<char>::empty()) =~= Seq::<u8>::empty()) by {
                reveal_with_fuel(vstd::utf8::encode_utf8, 1);
            }
            lemma_fitted_bytes(Seq::<u8>::empty(), N);
            assert(decode_utf8(Seq::<u8>::empty()) =~= Seq::<char>::empty()) by {
                reveal_with_fuel(decode_utf8, 1);
            }
        }
        r
    }

    fn len(config: &Config) -> (n: usize) {
        N as usize
    }

    fn to_buffer(&self, config: &Config, buf: &mut [u8]) {
        proof {
            lemma_auto_spec_u16_to_from_le_bytes();
            lemma_fit(self.0@, N);
        }
        if N >= 2 {
            let text = self.as_str();
            let bytes = text.as_bytes();
            let n = bytes.len();
            let room = Self::room();
            proof {
                assert(bytes@ == spec_utf8(self.deep_view()));
            }
            let rest = (n as u16).encode(config, buf);
            let rest = encode_bytes(bytes, rest);
            let _ = encode_zeroes(room - n, rest);
            proof {
                assert(buf@ =~= self.spec_encode(*config) + old(buf)@.skip(N as int));
            }
        } else {
            let _ = encode_zeroes(N as usize, buf);
        }
    }

    fn try_from_buffer_in_place(&mut self, config: &Config, buf: &[u8]) -> (r: Result<(), Error>) {
        if N < 2 {
            if N == 1 && buf[0] != 0 {
                return Err(Error::InvalidText);
            }
            self.0 = String::new();
            proof {
                assert(spec_utf8(Seq::<char>::empty()) =~= Seq::<u8>::empty()) by {
                    reveal_with_fuel(vstd::utf8::encode_utf8, 1);
                }
                lemma_fitted_bytes(Seq::<u8>::empty(), N);
                assert(decode_utf8(Seq::<u8>::empty()) =~= Seq::<char>::empty()) by {
                    reveal_with_fuel(decode_utf8, 1);
                }
            }
            return Ok(());
        }
        let (len, rest) = match u16::try_decode(config, buf) {
            Ok(d) => d,
            Err(e) => return Err(e),
        };
        let room = Self::room();
        if len as usize > room {
            return Err(Error::InvalidText);
        }
        let bytes = crate::bytes::read_padded(rest, len as usize);
        proof {
            assert(bytes@ =~= buf@.subrange(2, 2 + len));
        }
        match string_from_utf8(bytes) {
            Some(s) => {
                proof {
                    lemma_fitted_bytes(buf@.subrange(2, 2 + len), N);
                }
                self.0 = s;
                Ok(())
            },
            None => Err(Error::InvalidText),
        }
    }

    fn validate(&self, preamble: &Preamble) -> (r: Result<(), Error>) {
        Ok(())
    }
}

} // verus!

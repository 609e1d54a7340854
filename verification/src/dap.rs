use vstd::prelude::*;

use crate::scalar::Scalar;
use crate::text::{spec_utf8, string_from_utf8};
use crate::witness::Witness;

verus! {

/// Lowercase hexadecimal digit of `n`, below sixteen.
pub open spec fn spec_hex_digit(n: int) -> char {
    seq!['0', '1', '2', '3', '4', '5', '6', '7', '8', '9', 'a', 'b', 'c', 'd', 'e', 'f'][n]
}

/// Lowercase hexadecimal text of `bytes`: two digits per byte, the high one first.
pub open spec fn spec_hex(bytes: Seq<u8>) -> Seq<char>
    decreases bytes.len(),
{
    if bytes.len() == 0 {
        Seq::empty()
    } else {
        spec_hex(bytes.drop_last()) + seq![
            spec_hex_digit(bytes.last() as int / 16),
            spec_hex_digit(bytes.last() as int % 16),
        ]
    }
}

/// Encodes bytes as lowercase hexadecimal text with the `hex` crate's `encode`. The
/// contract claims what its source shows: two lowercase digits per byte, the high one first.
#[verifier::external_body]
fn hex_encode(bytes: &[u8]) -> (s: String)
    ensures
        s@ == spec_hex(bytes@),
{
    hex::encode(bytes)
}

/// UTF-8 encoding of a concatenation is the concatenation of the encodings.
proof fn lemma_utf8_concat(a: Seq<char>, b: Seq<char>)
    ensures
        spec_utf8(a + b) == spec_utf8(a) + spec_utf8(b),
    decreases a.len(),
{
    if a.len() == 0 {
        assert(a + b =~= b);
        assert(spec_utf8(a) =~= Seq::<u8>::empty()) by {
            reveal_with_fuel(vstd::utf8::encode_utf8, 1);
        }
        assert(spec_utf8(a) + spec_utf8(b) =~= spec_utf8(b));
    } else {
        lemma_utf8_concat(a.drop_first(), b);
        assert((a + b).drop_first() =~= a.drop_first() + b);
        assert((a + b)[0] == a[0]);
        assert(spec_utf8(a + b) =~= spec_utf8(a) + spec_utf8(b));
    }
}

/// Text of a scalar: `0x`, then the lowercase hexadecimal digits of its bytes.
pub open spec fn spec_scalar_text(bytes: Seq<u8>) -> Seq<char> {
    seq!['0', 'x'] + spec_hex(bytes)
}

/// Text of a scalar: `0x`, then the lowercase hexadecimal digits of its bytes.
pub fn scalar_to_string(scalar: &Scalar) -> (s: String)
    ensures
        s@ == spec_scalar_text(scalar.deep_view()),
{
    let hex = hex_encode(scalar.as_ref());
    let digits = hex.as_str().as_bytes();
    let mut bytes: Vec<u8> = Vec::new();
    bytes.push(48u8);
    bytes.push(120u8);
    let n = digits.len();
    let mut i: usize = 0;
    while i < n
        invariant
            n == digits@.len(),
            i <= n,
            bytes@ == seq![48u8, 120u8] + digits@.take(i as int),
        decreases n - i,
    {
        bytes.push(digits[i]);
        proof {
            assert(digits@.take(i + 1) =~= digits@.take(i as int).push(digits@[i as int]));
        }
        i = i + 1;
    }
    proof {
        let prefix = seq!['0', 'x'];
        assert(('0' as u32) == 48u32);
        assert(('x' as u32) == 120u32);
        assert((48u32 & 0x7Fu32) == 48u32) by (bit_vector);
        assert((120u32 & 0x7Fu32) == 120u32) by (bit_vector);
        assert(prefix.drop_first().drop_first() =~= Seq::<char>::empty());
        assert(spec_utf8(prefix) =~= seq![48u8, 120u8]) by {
            reveal_with_fuel(vstd::utf8::encode_utf8, 3);
        }
        assert(digits@.take(n as int) =~= digits@);
        assert(digits@ == spec_utf8(hex@));
        lemma_utf8_concat(prefix, hex@);
        vstd::utf8::encode_utf8_valid_utf8(prefix + hex@);
        vstd::utf8::encode_utf8_decode_utf8(prefix + hex@);
    }
    match string_from_utf8(bytes) {
        Some(s) => s,
        None => {
            proof {
                assert(false);
            }
            String::new()
        },
    }
}

/// Source representation in the ZK debugger protocol.
#[derive(Debug, Clone, PartialEq, Eq)]
pub struct ZkSource {
    /// Path identifier.
    ///
    /// Won't necessarily reflect a real path in the disk.
    pub path: String,
    /// Source contents.
    pub contents: String,
}

/// Witness representation in the ZK debugger protocol.
#[derive(Debug, Clone, PartialEq, Eq)]
pub struct ZkWitness {
    /// Id of the witness.
    pub id: usize,
    /// Associated constraint with the creation of the witness.
    pub constraint: Option<usize>,
    /// Allocated value.
    pub value: String,
    /// Source name associated with the witness declaration.
    pub source: String,
    /// Source line associated with the witness declaration.
    pub line: u64,
}

impl ZkWitness {
    /// Protocol representation of a decoded witness: its value as text, and the name and line
    /// of its source.
    pub fn from_witness(w: &Witness) -> (z: ZkWitness)
        ensures
            z.id == w.deep_view().id,
            z.constraint == w.deep_view().constraint,
            z.value@ == spec_scalar_text(w.deep_view().value),
            z.source@ == w.deep_view().source.name,
            z.line == w.deep_view().source.line,
    {
        ZkWitness {
            id: w.id(),
            constraint: w.constraint(),
            value: scalar_to_string(w.value()),
            source: w.name().to_owned(),
            line: w.line(),
        }
    }
}

impl From<Witness> for ZkWitness {
    fn from(w: Witness) -> (z: ZkWitness)
        ensures
            z.id == w.deep_view().id,
            z.constraint == w.deep_view().constraint,
            z.value@ == spec_scalar_text(w.deep_view().value),
            z.source@ == w.deep_view().source.name,
            z.line == w.deep_view().source.line,
    {
        ZkWitness::from_witness(&w)
    }
}

impl vstd::std_specs::convert::FromSpecImpl<Witness> for ZkWitness {
    open spec fn obeys_from_spec() -> bool {
        false
    }

    closed spec fn from_spec(v: Witness) -> ZkWitness {
        vstd::pervasive::arbitrary()
    }
}

/// A response produced by the ZK debugger protocol backend.
#[derive(Debug, Clone, PartialEq, Eq)]
pub enum ZkResponse {
    /// A breakpoint was added.
    AddBreakpoint {
        /// Id of the added breakpoint.
        id: u64,
    },
    /// Remove a previously added breakpoint.
    RemoveBreakpoint {
        /// Id of the removed breakpoint.
        id: u64,
        /// Flag on whether or not the breakpoint was existent and removed.
        removed: bool,
    },
    /// The circuit description file was loaded.
    LoadCdf,
    /// List of sources contained in the loaded file.
    SourceContents {
        /// Sources list.
        sources: Vec<ZkSource>,
    },
    /// Internal data of a witness evaluated.
    Witness {
        /// Evaluated data.
        witness: ZkWitness,
    },
}

} // verus!

use vstd::prelude::*;

use crate::bytes::spec_read_padded;
use crate::config::Config;
use crate::constraint::{Constraint, ConstraintView, spec_constraint_len};
use crate::context::{DecoderContext, DecoderContextView, strings_view};
use crate::element::{DecodableElement, Element, decoded_value};
use crate::error::Error;
use crate::format::{lemma_file_cache, spec_file_bytes, spec_file_valid, spec_file_view};
use crate::constraint::EncodableConstraint;
use crate::witness::EncodableWitness;
use crate::msgpack::{
    lemma_string_array_flat, msgpack_flat, msgpack_string_array, spec_all_strings, spec_elements_view, spec_unpack_flat,
    unpack_message,
};
use crate::preamble::Preamble;
use crate::source::spec_read_index;
use crate::text::{contains_str, spec_contains};
use crate::witness::{Witness, WitnessView, spec_witness_len};

verus! {

/// Model of a circuit description.
pub struct CircuitDescriptionView {
    /// Preamble of the file.
    pub preamble: Preamble,
    /// Source names of the file cache, by index.
    pub names: Seq<Seq<char>>,
    /// Source contents of the file cache, by index.
    pub contents: Seq<Seq<char>>,
    /// Bytes of the file.
    pub bytes: Seq<u8>,
}

/// Bytes of `bytes` from `at` on; none when `at` is past the end.
pub open spec fn spec_tail(bytes: Seq<u8>, at: int) -> Seq<u8> {
    if at <= bytes.len() {
        bytes.skip(at)
    } else {
        Seq::empty()
    }
}

/// Preamble read from the front of a file: missing bytes read as zeroes.
pub open spec fn spec_read_preamble(bytes: Seq<u8>) -> Preamble {
    let b = spec_read_padded(bytes, 17);
    Preamble {
        witnesses: spec_read_index(b, 0),
        constraints: spec_read_index(b, 8),
        config: Config { zeroed_scalar_values: b[16] != 0 },
    }
}

/// Every element is a string.
pub open spec fn spec_all_some(e: Seq<Option<Seq<char>>>) -> bool {
    forall|i: int| 0 <= i < e.len() ==> (#[trigger] e[i]) is Some
}

/// The strings of elements that are all strings.
pub open spec fn spec_unwrap_all(e: Seq<Option<Seq<char>>>) -> Seq<Seq<char>> {
    e.map_values(|o: Option<Seq<char>>| o->Some_0)
}

/// Result of reading a circuit description from the bytes of a file: the preamble at the
/// front, then the source names and contents as two MessagePack arrays of strings at the
/// source cache offset. A cache message that isn't flat (see [`spec_msgpack_flat`]: one that
/// holds an extension, nests arrays or maps more than two deep, or doesn't lie within the
/// bytes) is malformed.
pub open spec fn spec_parse(bytes: Seq<u8>) -> Result<CircuitDescriptionView, Error> {
    let preamble = spec_read_preamble(bytes);
    if !preamble.spec_fits() {
        Err(Error::OffsetOverflow)
    } else {
        let tail = spec_tail(bytes, preamble.spec_source_cache_offset());
        match spec_unpack_flat(tail) {
            None => Err(Error::MalformedSourceCache),
            Some((n, names)) => match spec_unpack_flat(tail.skip(n as int)) {
                None => Err(Error::MalformedSourceCache),
                Some((_, contents)) => match (names, contents) {
                    (Some(names), Some(contents)) => if !spec_all_some(names) {
                        Err(Error::SourceNamesNotStrings)
                    } else if !spec_all_some(contents) {
                        Err(Error::SourceContentsNotStrings)
                    } else {
                        Ok(
                            CircuitDescriptionView {
                                preamble,
                                names: spec_unwrap_all(names),
                                contents: spec_unwrap_all(contents),
                                bytes,
                            },
                        )
                    },
                    _ => Err(Error::SourceCacheNotArray),
                },
            },
        }
    }
}

impl CircuitDescriptionView {
    /// Decoding context of the file.
    pub open spec fn ctx(&self) -> DecoderContextView {
        DecoderContextView {
            config: self.preamble.config,
            names: self.names,
            contents: self.contents,
        }
    }

    /// Result of fetching the witness at `idx`.
    pub open spec fn spec_fetch_witness(&self, idx: int) -> Result<WitnessView, Error> {
        if idx < 0 || idx >= self.preamble.witnesses {
            Err(Error::InvalidWitness)
        } else {
            Witness::spec_decode_into(
                Witness::spec_default(),
                self.ctx(),
                spec_read_padded(
                    spec_tail(self.bytes, self.preamble.spec_witness_offset(idx)),
                    spec_witness_len(self.preamble.config),
                ),
            )
        }
    }

    /// Result of fetching the constraint at `idx`.
    pub open spec fn spec_fetch_constraint(&self, idx: int) -> Result<ConstraintView, Error> {
        if idx < 0 || idx >= self.preamble.constraints {
            Err(Error::InvalidConstraint)
        } else {
            Constraint::spec_decode_into(
                Constraint::spec_default(),
                self.ctx(),
                spec_read_padded(
                    spec_tail(self.bytes, self.preamble.spec_constraint_offset(idx)),
                    spec_constraint_len(self.preamble.config),
                ),
            )
        }
    }
}

/// A circuit description file.
///
/// The witnesses and constraints are decoded on demand from the file bytes; the source cache
/// is loaded when the description is read.
#[derive(Debug)]
pub struct CircuitDescription {
    preamble: Preamble,
    source_names: Vec<String>,
    source_contents: Vec<String>,
    source: Vec<u8>,
}

impl View for CircuitDescription {
    type V = CircuitDescriptionView;

    closed spec fn view(&self) -> CircuitDescriptionView {
        CircuitDescriptionView {
            preamble: self.preamble,
            names: strings_view(self.source_names@),
            contents: strings_view(self.source_contents@),
            bytes: self.source@,
        }
    }
}

impl CircuitDescription {
    /// The offsets of the file fit in memory addresses.
    #[verifier::type_invariant]
    closed spec fn wf(&self) -> bool {
        self.preamble.spec_fits()
    }

    /// Helper method to return the preamble of the circuit description.
    pub fn preamble(&self) -> (p: &Preamble)
        ensures
            *p == self@.preamble,
            p.spec_fits(),
    {
        proof {
            use_type_invariant(self);
        }
        &self.preamble
    }

    /// The source names of the file cache.
    pub fn source_names(&self) -> (n: &[String])
        ensures
            strings_view(n@) == self@.names,
    {
        self.source_names.as_slice()
    }

    /// The source contents of the file cache.
    pub fn source_contents(&self) -> (c: &[String])
        ensures
            strings_view(c@) == self@.contents,
    {
        self.source_contents.as_slice()
    }

    /// The source names of the file cache paired with their contents, in index order.
    pub fn sources(&self) -> (r: Vec<(&str, &str)>)
        ensures
            r@.len() == if self@.names.len() < self@.contents.len() {
                self@.names.len()
            } else {
                self@.contents.len()
            },
            forall|i: int| 0 <= i < r@.len() ==> (#[trigger] r@[i]).0@ == self@.names[i] && r@[i].1@ == self@.contents[i],
    {
        let n = if self.source_names.len() < self.source_contents.len() {
            self.source_names.len()
        } else {
            self.source_contents.len()
        };
        let mut r: Vec<(&str, &str)> = Vec::new();
        let mut i: usize = 0;
        while i < n
            invariant
                n <= self.source_names@.len(),
                n <= self.source_contents@.len(),
                n == self@.names.len() || n == self@.contents.len(),
                n <= self@.names.len(),
                n <= self@.contents.len(),
                i <= n,
                r@.len() == i,
                forall|k: int| 0 <= k < i ==> (#[trigger] r@[k]).0@ == self@.names[k] && r@[k].1@ == self@.contents[k],
            decreases n - i,
        {
            r.push((self.source_names[i].as_str(), self.source_contents[i].as_str()));
            i = i + 1;
        }
        r
    }

    /// The bytes of the file.
    pub fn bytes(&self) -> (b: &[u8])
        ensures
            b@ == self@.bytes,
    {
        self.source.as_slice()
    }

    /// Decoding context of the file.
    pub fn context(&self) -> (ctx: DecoderContext<'_>)
        ensures
            ctx@ == self@.ctx(),
    {
        DecoderContext::new(&self.preamble.config, self.source_names.as_slice(), self.source_contents.as_slice())
    }

    /// Check if the provided name is contained within the available source names.
    pub fn source_name_contains(&self, name: &str) -> (b: bool)
        ensures
            b == exists|i: int| 0 <= i < self@.names.len() && spec_contains(#[trigger] self@.names[i], name@),
    {
        let n = self.source_names.len();
        let mut i: usize = 0;
        while i < n
            invariant
                n == self.source_names@.len(),
                i <= n,
                forall|k: int| 0 <= k < i ==> !spec_contains(#[trigger] self@.names[k], name@),
            decreases n - i,
        {
            if contains_str(self.source_names[i].as_str(), name) {
                proof {
                    assert(self@.names[i as int] == self.source_names@[i as int]@);
                }
                return true;
            }
            i = i + 1;
        }
        false
    }

    /// Create a new circuit description from the bytes of a file.
    ///
    /// The bytes of a file that an encoder wrote read back as that file: its preamble, and
    /// the names and contents of its source cache.
    pub fn from_reader(source: Vec<u8>) -> (r: Result<CircuitDescription, Error>)
        ensures
            match spec_parse(source@) {
                Ok(v) => r is Ok && r.unwrap()@ == v,
                Err(e) => r is Err && r->Err_0 == e,
            },
            forall|
                p: Preamble,
                ws: Seq<EncodableWitness>,
                cs: Seq<EncodableConstraint>,
                names: Seq<Seq<char>>,
                contents: Seq<Seq<char>>,
            |
                spec_file_valid(p, ws, cs, names, contents) && #[trigger] spec_file_bytes(p, ws, cs, names, contents)
                    == source@ ==> r is Ok && r.unwrap()@ == spec_file_view(p, ws, cs, names, contents),
    {
        let preamble = match Preamble::try_from_reader(&DecoderContext::base(), source.as_slice()) {
            Ok(p) => p,
            Err(e) => return Err(e),
        };
        proof {
            assert(preamble == spec_read_preamble(source@));
        }
        let fits = preamble.fits();
        let tail: &[u8] = if fits {
            tail_at(source.as_slice(), preamble.source_cache_offset())
        } else {
            &[]
        };
        let first = if msgpack_flat(tail) {
            unpack_message(tail)
        } else {
            None
        };
        let after: &[u8] = match &first {
            Some((rest, _)) => rest,
            None => &[],
        };
        let second = if msgpack_flat(after) {
            unpack_message(after)
        } else {
            None
        };
        proof {
            assert forall|
                p: Preamble,
                ws: Seq<EncodableWitness>,
                cs: Seq<EncodableConstraint>,
                names: Seq<Seq<char>>,
                contents: Seq<Seq<char>>,
            |
                spec_file_valid(p, ws, cs, names, contents) && #[trigger] spec_file_bytes(p, ws, cs, names, contents)
                    == source@ implies {
                &&& preamble == p
                &&& fits
                &&& first is Some
                &&& spec_elements_view(first.unwrap().1) == Some(spec_all_strings(names))
                &&& second is Some
                &&& spec_elements_view(second.unwrap().1) == Some(spec_all_strings(contents))
                &&& spec_all_some(spec_all_strings(names))
                &&& spec_all_some(spec_all_strings(contents))
                &&& spec_unwrap_all(spec_all_strings(names)) == names
                &&& spec_unwrap_all(spec_all_strings(contents)) == contents
            } by {
                lemma_unwrap_all_strings(names);
                lemma_unwrap_all_strings(contents);
                lemma_file_cache(p, ws, cs, names, contents);
                assert(tail@ == msgpack_string_array(names) + msgpack_string_array(contents));
                lemma_string_array_flat(names, msgpack_string_array(contents));
                assert(after@ == msgpack_string_array(contents));
                assert(after@ =~= msgpack_string_array(contents) + Seq::<u8>::empty());
                lemma_string_array_flat(contents, Seq::<u8>::empty());
            }
        }
        if !fits {
            return Err(Error::OffsetOverflow);
        }
        let (names, contents) = match (first, second) {
            (Some((_, n)), Some((_, c))) => (n, c),
            _ => return Err(Error::MalformedSourceCache),
        };
        let (names, contents) = match (names, contents) {
            (Some(n), Some(c)) => (n, c),
            _ => return Err(Error::SourceCacheNotArray),
        };
        let source_names = match collect_strings(names) {
            Some(n) => n,
            None => return Err(Error::SourceNamesNotStrings),
        };
        let source_contents = match collect_strings(contents) {
            Some(c) => c,
            None => return Err(Error::SourceContentsNotStrings),
        };
        Ok(CircuitDescription { preamble, source_names, source_contents, source })
    }

    /// Attempt to read an indexed witness from the file.
    pub fn fetch_witness(&self, idx: usize) -> (r: Result<Witness, Error>)
        ensures
            decoded_value(self@.spec_fetch_witness(idx as int), r),
    {
        proof {
            use_type_invariant(self);
        }
        let ofs = match self.preamble.witness_offset(idx) {
            Some(o) => o,
            None => return Err(Error::InvalidWitness),
        };
        let tail = tail_at(self.source.as_slice(), ofs);
        let ctx = self.context();
        Witness::try_from_reader(&ctx, tail)
    }

    /// Attempt to read an indexed constraint from the file.
    pub fn fetch_constraint(&self, idx: usize) -> (r: Result<Constraint, Error>)
        ensures
            decoded_value(self@.spec_fetch_constraint(idx as int), r),
    {
        proof {
            use_type_invariant(self);
        }
        let ofs = match self.preamble.constraint_offset(idx) {
            Some(o) => o,
            None => return Err(Error::InvalidConstraint),
        };
        let tail = tail_at(self.source.as_slice(), ofs);
        let ctx = self.context();
        Constraint::try_from_reader(&ctx, tail)
    }
}

/// Strings that an unpacking gives back as all strings unwrap to themselves.
proof fn lemma_unwrap_all_strings(items: Seq<Seq<char>>)
    ensures
        spec_all_some(spec_all_strings(items)),
        spec_unwrap_all(spec_all_strings(items)) == items,
{
    assert(spec_unwrap_all(spec_all_strings(items)) =~= items);
}

/// Bytes from `at` on; none when `at` is past the end.
fn tail_at(bytes: &[u8], at: usize) -> (t: &[u8])
    ensures
        t@ == spec_tail(bytes@, at as int),
{
    if at <= bytes.len() {
        let (_, t) = bytes.split_at(at);
        t
    } else {
        let t: &[u8] = &[];
        assert(t@ =~= Seq::<u8>::empty());
        t
    }
}

/// The strings of unpacked elements, or `None` if one of them is not a string.
fn collect_strings(elements: Vec<Option<String>>) -> (r: Option<Vec<String>>)
    ensures
        match spec_elements_view(Some(elements)) {
            Some(e) => if spec_all_some(e) {
                r is Some && strings_view(r.unwrap()@) == spec_unwrap_all(e)
            } else {
                r is None
            },
            None => false,
        },
{
    let ghost e = spec_elements_view(Some(elements))->Some_0;
    let mut out: Vec<String> = Vec::new();
    let mut i: usize = 0;
    let n = elements.len();
    while i < n
        invariant
            n == elements@.len(),
            e == spec_elements_view(Some(elements))->Some_0,
            i <= n,
            out@.len() == i,
            forall|k: int| 0 <= k < i ==> (#[trigger] e[k]) is Some && out@[k]@ == e[k]->Some_0,
        decreases n - i,
    {
        match &elements[i] {
            Some(s) => {
                out.push(s.clone());
            },
            None => {
                proof {
                    assert(e[i as int] is None);
                }
                return None;
            },
        }
        i = i + 1;
    }
    proof {
        assert(strings_view(out@) =~= spec_unwrap_all(e));
    }
    Some(out)
}

} // verus!

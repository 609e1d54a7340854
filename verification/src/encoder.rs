use vstd::prelude::*;

use crate::config::Config;
use crate::constraint::EncodableConstraint;
use crate::context::{EncoderContext, strings_view};
use crate::element::{Element, EncodableElement};
use crate::error::Error;
use crate::bytes::{spec_write_at, write_at};
use crate::constraint::spec_constraint_len;
use crate::format::{spec_file_bytes, spec_file_paths, spec_file_valid};
use crate::witness::spec_witness_len;
use crate::msgpack::{msgpack_string_array, pack_string_array, spec_msgpack_fits, spec_packed_strings};
use crate::preamble::Preamble;
use crate::witness::EncodableWitness;

verus! {

/// Bytes and path cache after writing `items` in order, starting from the cache `paths`.
pub open spec fn spec_write_items<T: EncodableElement>(
    items: Seq<T>,
    config: Config,
    paths: Seq<Seq<char>>,
) -> (Seq<u8>, Seq<Seq<char>>)
    decreases items.len(),
{
    if items.len() == 0 {
        (Seq::empty(), paths)
    } else {
        let (bytes, before) = spec_write_items(items.drop_last(), config, paths);
        let after = items.last().spec_register(before);
        (bytes + items.last().spec_encode(config, after), after)
    }
}

/// Source cache bytes: the names, then the contents, each as a MessagePack array of strings.
pub open spec fn spec_source_cache_bytes(names: Seq<Seq<char>>, contents: Seq<Seq<char>>) -> Seq<u8> {
    msgpack_string_array(names) + msgpack_string_array(contents)
}

/// Encoding provider that will convert source paths into file names and contents.
pub trait EncoderContextProvider {
    /// `name` is a name under which the provider stores the source at `path`. A provider that
    /// states nothing of its names keeps this default, which admits every pair.
    open spec fn names(path: Seq<char>, name: Seq<char>) -> bool {
        true
    }

    /// `text` is the contents of the source named `name`. A provider that states nothing of
    /// its contents keeps this default, which admits every pair.
    open spec fn holds(name: Seq<char>, text: Seq<char>) -> bool {
        true
    }

    /// Name under which the source at `path` is stored.
    fn canonicalize(&mut self, path: &str) -> (r: Result<String, Error>)
        ensures
            r is Ok ==> Self::names(path@, r->Ok_0@),
    ;

    /// Fetch the contents of the source named `path`.
    fn contents(&mut self, path: &str) -> (r: Result<String, Error>)
        ensures
            r is Ok ==> Self::holds(path@, r->Ok_0@),
    ;
}

/// Append the encoding of every item of `items`, in order.
pub fn write_items<T: EncodableElement>(items: &Vec<T>, out: &mut Vec<u8>, ctx: &mut EncoderContext)
    requires
        T::spec_len(old(ctx)@.preamble.config) <= usize::MAX,
    ensures
        final(ctx)@.preamble == old(ctx)@.preamble,
        final(out)@ == old(out)@ + spec_write_items(items@, old(ctx)@.preamble.config, old(ctx)@.paths).0,
        final(ctx)@.paths == spec_write_items(items@, old(ctx)@.preamble.config, old(ctx)@.paths).1,
{
    let ghost config = ctx@.preamble.config;
    let ghost paths0 = ctx@.paths;
    let ghost out0 = out@;
    let n = items.len();
    let mut i: usize = 0;
    assert(items@.take(0) =~= Seq::<T>::empty());
    while i < n
        invariant
            n == items@.len(),
            i <= n,
            ctx@.preamble.config == config,
            ctx@.preamble == old(ctx)@.preamble,
            T::spec_len(config) <= usize::MAX,
            out@ == out0 + spec_write_items(items@.take(i as int), config, paths0).0,
            ctx@.paths == spec_write_items(items@.take(i as int), config, paths0).1,
        decreases n - i,
    {
        let ghost before = ctx@.paths;
        let _ = items[i].try_to_writer(out, ctx);
        proof {
            let s = items@.take(i + 1);
            assert(s.drop_last() =~= items@.take(i as int));
            assert(s.last() == items@[i as int]);
            assert(out@ =~= out0 + spec_write_items(s, config, paths0).0);
        }
        i = i + 1;
    }
    assert(items@.take(n as int) =~= items@);
}

/// Outcome of writing the source cache of `names` and `contents`: the bytes written, or the
/// failure when MessagePack can't frame the strings or the cache can't be addressed.
pub open spec fn spec_write_source_cache(names: Seq<Seq<char>>, contents: Seq<Seq<char>>) -> Result<Seq<u8>, Error> {
    if !spec_msgpack_fits(names) || !spec_msgpack_fits(contents) {
        Err(Error::SourceCacheTooLarge)
    } else if spec_source_cache_bytes(names, contents).len() > usize::MAX {
        Err(Error::SourceCacheTooLarge)
    } else {
        Ok(spec_source_cache_bytes(names, contents))
    }
}

/// Append the source cache to `writer`: the names, then the contents, each as a MessagePack
/// array of strings; returns the count of written bytes.
pub fn write_source_cache(names: &Vec<String>, contents: &Vec<String>, writer: &mut Vec<u8>) -> (r: Result<usize, Error>)
    ensures
        match spec_write_source_cache(strings_view(names@), strings_view(contents@)) {
            Ok(b) => r == Ok::<usize, Error>(b.len() as usize) && final(writer)@ == old(writer)@ + b,
            Err(e) => r == Err::<usize, Error>(e) && final(writer)@ == old(writer)@,
        },
{
    let mut names_bytes = match pack_string_array(names) {
        Ok(b) => b,
        Err(()) => return Err(Error::SourceCacheTooLarge),
    };
    let mut contents_bytes = match pack_string_array(contents) {
        Ok(b) => b,
        Err(()) => return Err(Error::SourceCacheTooLarge),
    };
    let total = names_bytes.len() as u128 + contents_bytes.len() as u128;
    if total > usize::MAX as u128 {
        return Err(Error::SourceCacheTooLarge);
    }
    let count = names_bytes.len() + contents_bytes.len();
    writer.append(&mut names_bytes);
    writer.append(&mut contents_bytes);
    proof {
        let nv = strings_view(names@);
        let cv = strings_view(contents@);
        assert(final(writer)@ =~= old(writer)@ + spec_source_cache_bytes(nv, cv));
    }
    Ok(count)
}

impl EncoderContext {
    /// Ask the provider for the name and the contents of every registered path, in index
    /// order: each path is canonicalized, and the contents are fetched by the name.
    pub fn resolve_sources<P: EncoderContextProvider>(&self, provider: &mut P) -> (r: Result<(Vec<String>, Vec<String>), Error>)
        ensures
            r is Ok ==> strings_view(r.unwrap().0@).len() == self@.paths.len() && strings_view(r.unwrap().1@).len()
                == self@.paths.len(),
            r is Ok ==> forall|i: int|
                0 <= i < self@.paths.len() ==> P::names(self@.paths[i], #[trigger] strings_view(r.unwrap().0@)[i])
                    && P::holds(strings_view(r.unwrap().0@)[i], strings_view(r.unwrap().1@)[i]),
            self@.paths.len() == 0 ==> r is Ok && r.unwrap().0@.len() == 0 && r.unwrap().1@.len() == 0,
    {
        let paths = self.paths();
        let n = paths.len();
        assert(strings_view(paths@).len() == paths@.len());
        let mut names: Vec<String> = Vec::new();
        let mut contents: Vec<String> = Vec::new();
        let mut i: usize = 0;
        while i < n
            invariant
                n == paths@.len(),
                n == self@.paths.len(),
                i <= n,
                names@.len() == i,
                contents@.len() == i,
                strings_view(paths@) == self@.paths,
                forall|k: int|
                    0 <= k < i ==> P::names(self@.paths[k], #[trigger] names@[k]@) && P::holds(names@[k]@, contents@[k]@),
            decreases n - i,
        {
            let name = match provider.canonicalize(paths[i].as_str()) {
                Ok(name) => name,
                Err(e) => return Err(e),
            };
            let text = match provider.contents(name.as_str()) {
                Ok(text) => text,
                Err(e) => return Err(e),
            };
            proof {
                assert(paths@[i as int]@ == strings_view(paths@)[i as int]);
            }
            names.push(name);
            contents.push(text);
            proof {
                assert forall|k: int| 0 <= k < i + 1 implies P::names(self@.paths[k], #[trigger] names@[k]@) && P::holds(
                    names@[k]@,
                    contents@[k]@,
                ) by {}
            }
            i = i + 1;
        }
        proof {
            assert(strings_view(names@).len() == n);
            assert(strings_view(contents@).len() == n);
            assert forall|k: int| 0 <= k < n implies P::names(self@.paths[k], #[trigger] strings_view(names@)[k]) && P::holds(
                strings_view(names@)[k],
                strings_view(contents@)[k],
            ) by {
                assert(names@[k]@ == strings_view(names@)[k]);
            }
        }
        Ok((names, contents))
    }

    /// Write the source cache: the name of every registered path, in index order, then the
    /// contents of each, both as MessagePack arrays of strings; see [`write_source_cache`].
    pub fn write_all<P: EncoderContextProvider>(&self, provider: &mut P, writer: &mut Vec<u8>) -> (r: Result<usize, Error>)
        ensures
            r is Ok ==> exists|names: Seq<Seq<char>>, contents: Seq<Seq<char>>|
                {
                    &&& names.len() == self@.paths.len()
                    &&& contents.len() == self@.paths.len()
                    &&& spec_write_source_cache(names, contents) == Ok::<Seq<u8>, Error>(
                        spec_source_cache_bytes(names, contents),
                    )
                    &&& forall|i: int|
                        0 <= i < self@.paths.len() ==> P::names(self@.paths[i], #[trigger] names[i]) && P::holds(
                            names[i],
                            contents[i],
                        )
                    &&& final(writer)@ == old(writer)@ + spec_source_cache_bytes(names, contents)
                    &&& r.unwrap() == spec_source_cache_bytes(names, contents).len()
                },
            r is Err ==> final(writer)@ == old(writer)@,
            self@.paths.len() == 0 ==> match spec_write_source_cache(Seq::empty(), Seq::empty()) {
                Ok(b) => r == Ok::<usize, Error>(b.len() as usize) && final(writer)@ == old(writer)@ + b,
                Err(e) => r == Err::<usize, Error>(e) && final(writer)@ == old(writer)@,
            },
    {
        let (names, contents) = match self.resolve_sources(provider) {
            Ok(nc) => nc,
            Err(e) => return Err(e),
        };
        let r = write_source_cache(&names, &contents, writer);
        proof {
            if self@.paths.len() == 0 {
                assert(strings_view(names@) =~= Seq::<Seq<char>>::empty());
                assert(strings_view(contents@) =~= Seq::<Seq<char>>::empty());
            }
            if r is Ok {
                let nv = strings_view(names@);
                let cv = strings_view(contents@);
                assert(nv.len() == self@.paths.len() && cv.len() == self@.paths.len());
            }
        }
        r
    }
}

/// Model of an encoder.
pub struct EncoderView {
    /// Preamble of the file.
    pub preamble: Preamble,
    /// Source paths registered so far.
    pub paths: Seq<Seq<char>>,
    /// Witnesses to write, in order.
    pub witnesses: Seq<EncodableWitness>,
    /// Constraints to write, in order.
    pub constraints: Seq<EncodableConstraint>,
    /// Bytes of the target.
    pub target: Seq<u8>,
}

/// An encoder for the CDF format.
#[derive(Debug)]
pub struct Encoder {
    context: EncoderContext,
    witnesses: Vec<EncodableWitness>,
    constraints: Vec<EncodableConstraint>,
    target: Vec<u8>,
}

impl View for Encoder {
    type V = EncoderView;

    closed spec fn view(&self) -> EncoderView {
        EncoderView {
            preamble: self.context@.preamble,
            paths: self.context@.paths,
            witnesses: self.witnesses@,
            constraints: self.constraints@,
            target: self.target@,
        }
    }
}

/// Some witness of `ws` has the id `id`.
pub open spec fn spec_witness_id_used(ws: Seq<EncodableWitness>, id: int) -> bool {
    exists|j: int| 0 <= j < ws.len() && ws[j].deep_view().id == id
}

/// Some constraint of `cs` has the id `id`.
pub open spec fn spec_constraint_id_used(cs: Seq<EncodableConstraint>, id: int) -> bool {
    exists|j: int| 0 <= j < cs.len() && cs[j].deep_view().id == id
}

/// Bytes after placing each witness of `ws` in order at the offset of its id, each encoded
/// against the path cache as it stands once that witness is registered (the cache starts at
/// `paths`), and the count of witnesses placed: the placing stops at the first witness whose
/// id is out of the preamble's range or was taken by an earlier witness.
pub open spec fn spec_place_witnesses(p: Preamble, ws: Seq<EncodableWitness>, paths: Seq<Seq<char>>, t: Seq<u8>) -> (
    Seq<u8>,
    nat,
)
    decreases ws.len(),
{
    if ws.len() == 0 {
        (t, 0)
    } else {
        let (t1, k) = spec_place_witnesses(p, ws.drop_last(), paths, t);
        let w = ws.last();
        if k < ws.len() - 1 {
            (t1, k)
        } else if w.deep_view().id < p.witnesses && !spec_witness_id_used(ws.drop_last(), w.deep_view().id as int) {
            (
                spec_write_at(
                    t1,
                    p.spec_witness_offset(w.deep_view().id as int),
                    w.spec_encode(p.config, spec_write_items(ws, p.config, paths).1),
                ),
                ws.len(),
            )
        } else {
            (t1, k)
        }
    }
}

/// Bytes after placing each constraint of `cs` in order at the offset of its id, each
/// encoded against the path cache as it stands once that constraint is registered (the cache
/// starts at `paths`), and the count of constraints placed: the placing stops at the first
/// constraint whose id is out of the preamble's range or was taken by an earlier constraint.
pub open spec fn spec_place_constraints(
    p: Preamble,
    cs: Seq<EncodableConstraint>,
    paths: Seq<Seq<char>>,
    t: Seq<u8>,
) -> (Seq<u8>, nat)
    decreases cs.len(),
{
    if cs.len() == 0 {
        (t, 0)
    } else {
        let (t1, k) = spec_place_constraints(p, cs.drop_last(), paths, t);
        let c = cs.last();
        if k < cs.len() - 1 {
            (t1, k)
        } else if c.deep_view().id < p.constraints && !spec_constraint_id_used(cs.drop_last(), c.deep_view().id as int) {
            (
                spec_write_at(
                    t1,
                    p.spec_constraint_offset(c.deep_view().id as int),
                    c.spec_encode(p.config, spec_write_items(cs, p.config, paths).1),
                ),
                cs.len(),
            )
        } else {
            (t1, k)
        }
    }
}

/// The room of a file's items, zeroed, with the preamble written at its front.
pub open spec fn spec_file_front(preamble: Preamble, paths: Seq<Seq<char>>) -> Seq<u8> {
    spec_write_at(
        Seq::new(preamble.spec_source_cache_offset() as nat, |i: int| 0u8),
        0,
        preamble.spec_encode(preamble.config, paths),
    )
}

/// Encoding the items of a file: the bytes up to the source cache, the path cache after the
/// writing, and the outcome. The offsets must fit in memory addresses (else the target is
/// kept); the room of the items is zeroed, the preamble written at the front, then each
/// witness and each constraint at the offset of its id; an item whose id is out of range, or
/// taken by an earlier item of its kind, stops the writing.
pub open spec fn spec_write_file(
    preamble: Preamble,
    witnesses: Seq<EncodableWitness>,
    constraints: Seq<EncodableConstraint>,
    paths: Seq<Seq<char>>,
    target: Seq<u8>,
) -> (Seq<u8>, Seq<Seq<char>>, Result<(), Error>) {
    let config = preamble.config;
    if !preamble.spec_fits() {
        (target, paths, Err(Error::OffsetOverflow))
    } else {
        let t0 = spec_file_front(preamble, paths);
        let (t1, k1) = spec_place_witnesses(preamble, witnesses, paths, t0);
        if k1 < witnesses.len() {
            (t1, spec_write_items(witnesses.take(k1 as int), config, paths).1, Err(Error::WitnessesNotDense))
        } else {
            let wp = spec_write_items(witnesses, config, paths).1;
            let (t2, k2) = spec_place_constraints(preamble, constraints, wp, t1);
            if k2 < constraints.len() {
                (t2, spec_write_items(constraints.take(k2 as int), config, wp).1, Err(Error::ConstraintsNotDense))
            } else {
                (t2, spec_write_items(constraints, config, wp).1, Ok(()))
            }
        }
    }
}

/// Once placing witnesses of a prefix stops, placing all of them stops with the same bytes.
proof fn lemma_place_witnesses_stop(p: Preamble, ws: Seq<EncodableWitness>, paths: Seq<Seq<char>>, t: Seq<u8>, k: int)
    requires
        0 <= k <= ws.len(),
        spec_place_witnesses(p, ws.take(k), paths, t).1 < k,
    ensures
        spec_place_witnesses(p, ws, paths, t) == spec_place_witnesses(p, ws.take(k), paths, t),
    decreases ws.len(),
{
    if k == ws.len() {
        assert(ws.take(k) =~= ws);
    } else {
        assert(ws.drop_last().take(k) =~= ws.take(k));
        lemma_place_witnesses_stop(p, ws.drop_last(), paths, t, k);
    }
}

/// Once placing constraints of a prefix stops, placing all of them stops with the same bytes.
proof fn lemma_place_constraints_stop(
    p: Preamble,
    cs: Seq<EncodableConstraint>,
    paths: Seq<Seq<char>>,
    t: Seq<u8>,
    k: int,
)
    requires
        0 <= k <= cs.len(),
        spec_place_constraints(p, cs.take(k), paths, t).1 < k,
    ensures
        spec_place_constraints(p, cs, paths, t) == spec_place_constraints(p, cs.take(k), paths, t),
    decreases cs.len(),
{
    if k == cs.len() {
        assert(cs.take(k) =~= cs);
    } else {
        assert(cs.drop_last().take(k) =~= cs.take(k));
        lemma_place_constraints_stop(p, cs.drop_last(), paths, t, k);
    }
}

impl Encoder {
    /// Create a new encoder with the given preamble.
    pub(crate) fn with_preamble(
        preamble: Preamble,
        witnesses: Vec<EncodableWitness>,
        constraints: Vec<EncodableConstraint>,
        target: Vec<u8>,
    ) -> (e: Encoder)
        ensures
            e@ == (EncoderView {
                preamble,
                paths: Seq::empty(),
                witnesses: witnesses@,
                constraints: constraints@,
                target: target@,
            }),
    {
        let context = EncoderContext::from_preamble(preamble);
        Encoder { context, witnesses, constraints, target }
    }

    /// Create a new encoder, with the counts of the preamble taken from the items.
    pub(crate) fn new(
        config: Config,
        witnesses: Vec<EncodableWitness>,
        constraints: Vec<EncodableConstraint>,
        target: Vec<u8>,
    ) -> (e: Encoder)
        ensures
            e@ == (EncoderView {
                preamble: Preamble { witnesses: witnesses@.len() as usize, constraints: constraints@.len() as usize, config },
                paths: Seq::empty(),
                witnesses: witnesses@,
                constraints: constraints@,
                target: target@,
            }),
    {
        let preamble = Preamble::new(witnesses.len(), constraints.len(), config);
        Self::with_preamble(preamble, witnesses, constraints, target)
    }

    /// Initialize the encoder, filling the in-memory target with the bytes the witnesses and
    /// constraints take.
    pub fn init_cursor(
        config: Config,
        witnesses: Vec<EncodableWitness>,
        constraints: Vec<EncodableConstraint>,
    ) -> (e: Encoder)
        requires
            (Preamble { witnesses: witnesses@.len() as usize, constraints: constraints@.len() as usize, config }).spec_fits(),
        ensures
            e@.preamble == (Preamble { witnesses: witnesses@.len() as usize, constraints: constraints@.len() as usize, config }),
            e@.paths == Seq::<Seq<char>>::empty(),
            e@.witnesses == witnesses@,
            e@.constraints == constraints@,
            e@.target == Seq::new(e@.preamble.spec_source_cache_offset() as nat, |i: int| 0u8),
    {
        let preamble = Preamble::new(witnesses.len(), constraints.len(), config);
        let len = preamble.source_cache_offset();
        let bytes = vec![0u8; len];
        proof {
            assert(bytes@ =~= Seq::new(len as nat, |i: int| 0u8));
        }
        Self::with_preamble(preamble, witnesses, constraints, bytes)
    }

    /// Return the underlying target.
    pub fn into_inner(self) -> (t: Vec<u8>)
        ensures
            t@ == self@.target,
    {
        self.target
    }

    /// Write the preamble, every witness and every constraint at the offset of its id, then
    /// the source cache, returning the count of written bytes; see [`spec_write_file`]. The
    /// target is replaced by the written bytes. The ids of each kind must run over the
    /// preamble's range without repeats: an id out of range or taken twice fails the writing
    /// with [`Error::WitnessesNotDense`] or [`Error::ConstraintsNotDense`].
    pub fn write_all<P: EncoderContextProvider>(&mut self, provider: &mut P) -> (r: Result<usize, Error>)
        ensures
            ({
                let (items, paths, status) = spec_write_file(
                    old(self)@.preamble,
                    old(self)@.witnesses,
                    old(self)@.constraints,
                    old(self)@.paths,
                    old(self)@.target,
                );
                &&& final(self)@.preamble == old(self)@.preamble
                &&& final(self)@.witnesses == old(self)@.witnesses
                &&& final(self)@.constraints == old(self)@.constraints
                &&& final(self)@.paths == paths
                &&& status is Err ==> r == Err::<usize, Error>(status->Err_0) && final(self)@.target == items
                &&& status is Ok && r is Err ==> final(self)@.target == items
                &&& status is Ok && r is Ok ==> exists|names: Seq<Seq<char>>, contents: Seq<Seq<char>>|
                    {
                        &&& names.len() == paths.len()
                        &&& contents.len() == paths.len()
                        &&& spec_msgpack_fits(names)
                        &&& spec_msgpack_fits(contents)
                        &&& forall|i: int|
                            0 <= i < paths.len() ==> P::names(paths[i], #[trigger] names[i]) && P::holds(
                                names[i],
                                contents[i],
                            )
                        &&& final(self)@.target == items + spec_source_cache_bytes(names, contents)
                        &&& r.unwrap() == final(self)@.target.len()
                    }
                &&& status is Ok && paths.len() == 0 ==> r is Ok && final(self)@.target == items
                    + spec_source_cache_bytes(Seq::empty(), Seq::empty())
            }),
            r is Ok && old(self)@.paths.len() == 0 && old(self)@.witnesses.len() == old(self)@.preamble.witnesses
                && old(self)@.constraints.len() == old(self)@.preamble.constraints ==> exists|
                names: Seq<Seq<char>>,
                contents: Seq<Seq<char>>,
            |
                {
                    &&& spec_file_valid(
                        old(self)@.preamble,
                        old(self)@.witnesses,
                        old(self)@.constraints,
                        names,
                        contents,
                    )
                    &&& forall|i: int|
                        0 <= i < names.len() ==> P::names(
                            spec_file_paths(old(self)@.preamble, old(self)@.witnesses, old(self)@.constraints)[i],
                            #[trigger] names[i],
                        ) && P::holds(names[i], contents[i])
                    &&& final(self)@.target == spec_file_bytes(
                        old(self)@.preamble,
                        old(self)@.witnesses,
                        old(self)@.constraints,
                        names,
                        contents,
                    )
                },
    {
        let ghost config = self.context@.preamble.config;
        let ghost paths0 = self.context@.paths;
        let ghost target0 = self.target@;
        let ghost ws = self.witnesses@;
        let ghost cs = self.constraints@;
        let preamble = *self.context.preamble();
        if !preamble.fits() {
            return Err(Error::OffsetOverflow);
        }
        let len = preamble.source_cache_offset();
        let mut out = vec![0u8; len];
        proof {
            assert(out@ =~= Seq::new(preamble.spec_source_cache_offset() as nat, |i: int| 0u8));
        }
        let head = preamble.to_vec(&mut self.context);
        proof {
            preamble.lemma_encode_len(config, paths0);
        }
        write_at(&mut out, 0, head.as_slice());
        let ghost t0 = out@;
        assert(t0 == spec_file_front(preamble, paths0));
        let wl: usize = if preamble.config.zeroed_scalar_values { 41 } else { 73 };
        let cl: usize = if preamble.config.zeroed_scalar_values { 65 } else { 449 };
        let n = self.witnesses.len();
        let mut seen: Vec<bool> = vec![false; preamble.witnesses];
        assert(seen@ =~= Seq::new(preamble.witnesses as nat, |x: int| false));
        let mut i: usize = 0;
        assert(ws.take(0) =~= Seq::<EncodableWitness>::empty());
        while i < n
            invariant
                n == ws.len(),
                i <= n,
                ws == self.witnesses@,
                cs == self.constraints@,
                self.context@.preamble == preamble,
                config == preamble.config,
                preamble.spec_fits(),
                t0 == spec_file_front(preamble, paths0),
                paths0 == old(self)@.paths,
                target0 == old(self)@.target,
                preamble == old(self)@.preamble,
                ws == old(self)@.witnesses,
                cs == old(self)@.constraints,
                wl == spec_witness_len(config),
                cl == spec_constraint_len(config),
                self.context@.paths == spec_write_items(ws.take(i as int), config, paths0).1,
                spec_place_witnesses(preamble, ws.take(i as int), paths0, t0) == (out@, i as nat),
                seen@.len() == preamble.witnesses,
                forall|x: int| 0 <= x < seen@.len() ==> seen@[x] == spec_witness_id_used(ws.take(i as int), x),
            decreases n - i,
        {
            let ghost t = ws.take(i + 1);
            proof {
                assert(t.drop_last() =~= ws.take(i as int));
                assert(t.last() == ws[i as int]);
            }
            let id = self.witnesses[i].id();
            let ofs = match preamble.witness_offset(id) {
                Some(o) => o,
                None => {
                    proof {
                        assert(spec_place_witnesses(preamble, t, paths0, t0) == (out@, i as nat));
                        lemma_place_witnesses_stop(preamble, ws, paths0, t0, i + 1);
                    assert(spec_place_witnesses(preamble, ws, paths0, spec_file_front(preamble, paths0)) == (out@, i as nat));
                    assert(spec_write_file(preamble, ws, cs, paths0, target0) == (
                        out@,
                        spec_write_items(ws.take(i as int), config, paths0).1,
                        Err::<(), Error>(Error::WitnessesNotDense),
                    ));
                    }
                    self.target = out;
                    return Err(Error::WitnessesNotDense);
                },
            };
            if seen[id] {
                proof {
                    assert(spec_witness_id_used(ws.take(i as int), id as int));
                    assert(spec_place_witnesses(preamble, t, paths0, t0) == (out@, i as nat));
                    lemma_place_witnesses_stop(preamble, ws, paths0, t0, i + 1);
                    assert(spec_place_witnesses(preamble, ws, paths0, spec_file_front(preamble, paths0)) == (out@, i as nat));
                    assert(spec_write_file(preamble, ws, cs, paths0, target0) == (
                        out@,
                        spec_write_items(ws.take(i as int), config, paths0).1,
                        Err::<(), Error>(Error::WitnessesNotDense),
                    ));
                }
                self.target = out;
                return Err(Error::WitnessesNotDense);
            }
            seen.set(id, true);
            proof {
                assert forall|x: int| 0 <= x < seen@.len() implies seen@[x] == spec_witness_id_used(t, x) by {
                    if spec_witness_id_used(ws.take(i as int), x) {
                        let j = choose|j: int| 0 <= j < i && ws.take(i as int)[j].deep_view().id == x;
                        assert(t[j] == ws.take(i as int)[j]);
                    }
                    if x == id as int {
                        assert(t[i as int] == ws[i as int]);
                    }
                    if spec_witness_id_used(t, x) {
                        let j = choose|j: int| 0 <= j < i + 1 && t[j].deep_view().id == x;
                        if j < i {
                            assert(t[j] == ws.take(i as int)[j]);
                        }
                    }
                }
            }
            let bytes = self.witnesses[i].to_vec(&mut self.context);
            proof {
                let id = ws[i as int].deep_view().id as int;
                assert(id * wl + wl <= preamble.witnesses * wl) by (nonlinear_arith)
                    requires
                        0 <= id < preamble.witnesses,
                ;
                assert(preamble.constraints * cl >= 0) by (nonlinear_arith);
                ws[i as int].lemma_encode_len(config, self.context@.paths);
            }
            write_at(&mut out, ofs, bytes.as_slice());
            i = i + 1;
        }
        proof {
            assert(ws.take(n as int) =~= ws);
        }
        let ghost t1 = out@;
        let ghost wp = self.context@.paths;
        let m = self.constraints.len();
        let mut taken: Vec<bool> = vec![false; preamble.constraints];
        assert(taken@ =~= Seq::new(preamble.constraints as nat, |x: int| false));
        let mut j: usize = 0;
        assert(cs.take(0) =~= Seq::<EncodableConstraint>::empty());
        while j < m
            invariant
                m == cs.len(),
                j <= m,
                ws == self.witnesses@,
                cs == self.constraints@,
                self.context@.preamble == preamble,
                config == preamble.config,
                preamble.spec_fits(),
                t0 == spec_file_front(preamble, paths0),
                paths0 == old(self)@.paths,
                target0 == old(self)@.target,
                preamble == old(self)@.preamble,
                ws == old(self)@.witnesses,
                cs == old(self)@.constraints,
                wl == spec_witness_len(config),
                cl == spec_constraint_len(config),
                wp == spec_write_items(ws, config, paths0).1,
                spec_place_witnesses(preamble, ws, paths0, t0) == (t1, n as nat),
                n == ws.len(),
                self.context@.paths == spec_write_items(cs.take(j as int), config, wp).1,
                spec_place_constraints(preamble, cs.take(j as int), wp, t1) == (out@, j as nat),
                taken@.len() == preamble.constraints,
                forall|x: int| 0 <= x < taken@.len() ==> taken@[x] == spec_constraint_id_used(cs.take(j as int), x),
            decreases m - j,
        {
            let ghost t = cs.take(j + 1);
            proof {
                assert(t.drop_last() =~= cs.take(j as int));
                assert(t.last() == cs[j as int]);
            }
            let id = self.constraints[j].id();
            let ofs = match preamble.constraint_offset(id) {
                Some(o) => o,
                None => {
                    proof {
                        assert(spec_place_constraints(preamble, t, wp, t1) == (out@, j as nat));
                        lemma_place_constraints_stop(preamble, cs, wp, t1, j + 1);
                    assert(spec_place_witnesses(preamble, ws, paths0, spec_file_front(preamble, paths0)) == (t1, n as nat));
                    assert(spec_place_constraints(preamble, cs, wp, t1) == (out@, j as nat));
                    assert(spec_write_file(preamble, ws, cs, paths0, target0) == (
                        out@,
                        spec_write_items(cs.take(j as int), config, wp).1,
                        Err::<(), Error>(Error::ConstraintsNotDense),
                    ));
                    }
                    self.target = out;
                    return Err(Error::ConstraintsNotDense);
                },
            };
            if taken[id] {
                proof {
                    assert(spec_constraint_id_used(cs.take(j as int), id as int));
                    assert(spec_place_constraints(preamble, t, wp, t1) == (out@, j as nat));
                    lemma_place_constraints_stop(preamble, cs, wp, t1, j + 1);
                    assert(spec_place_witnesses(preamble, ws, paths0, spec_file_front(preamble, paths0)) == (t1, n as nat));
                    assert(spec_place_constraints(preamble, cs, wp, t1) == (out@, j as nat));
                    assert(spec_write_file(preamble, ws, cs, paths0, target0) == (
                        out@,
                        spec_write_items(cs.take(j as int), config, wp).1,
                        Err::<(), Error>(Error::ConstraintsNotDense),
                    ));
                }
                self.target = out;
                return Err(Error::ConstraintsNotDense);
            }
            taken.set(id, true);
            proof {
                assert forall|x: int| 0 <= x < taken@.len() implies taken@[x] == spec_constraint_id_used(t, x) by {
                    if spec_constraint_id_used(cs.take(j as int), x) {
                        let k = choose|k: int| 0 <= k < j && cs.take(j as int)[k].deep_view().id == x;
                        assert(t[k] == cs.take(j as int)[k]);
                    }
                    if x == id as int {
                        assert(t[j as int] == cs[j as int]);
                    }
                    if spec_constraint_id_used(t, x) {
                        let k = choose|k: int| 0 <= k < j + 1 && t[k].deep_view().id == x;
                        if k < j {
                            assert(t[k] == cs.take(j as int)[k]);
                        }
                    }
                }
            }
            let bytes = self.constraints[j].to_vec(&mut self.context);
            proof {
                let id = cs[j as int].deep_view().id as int;
                assert(id * cl + cl <= preamble.constraints * cl) by (nonlinear_arith)
                    requires
                        0 <= id < preamble.constraints,
                ;
                assert(preamble.witnesses * wl >= 0) by (nonlinear_arith);
                cs[j as int].lemma_encode_len(config, self.context@.paths);
            }
            write_at(&mut out, ofs, bytes.as_slice());
            j = j + 1;
        }
        proof {
            assert(cs.take(m as int) =~= cs);
        }
        let ghost items = out@;
        proof {
            let empty = Seq::<Seq<char>>::empty();
            assert(spec_packed_strings(empty) =~= Seq::<u8>::empty());
            assert(spec_source_cache_bytes(empty, empty) =~= seq![0x90u8, 0x90u8]);
            assert(spec_write_source_cache(empty, empty) == Ok::<Seq<u8>, Error>(spec_source_cache_bytes(empty, empty)));
        }
        let cache = self.context.write_all(provider, &mut out);
        self.target = out;
        proof {
            assert(spec_write_file(preamble, ws, cs, paths0, target0).2 is Ok);
            if cache is Ok && paths0.len() == 0 && ws.len() == preamble.witnesses && cs.len() == preamble.constraints {
                assert(paths0 =~= Seq::<Seq<char>>::empty());
                let final_paths = self.context@.paths;
                let (names, contents) = choose|names: Seq<Seq<char>>, contents: Seq<Seq<char>>|
                    {
                        &&& names.len() == final_paths.len()
                        &&& contents.len() == final_paths.len()
                        &&& spec_msgpack_fits(names)
                        &&& spec_msgpack_fits(contents)
                        &&& forall|i: int|
                            0 <= i < final_paths.len() ==> P::names(final_paths[i], #[trigger] names[i]) && P::holds(
                                names[i],
                                contents[i],
                            )
                        &&& self.target@ == items + spec_source_cache_bytes(names, contents)
                    };
                let empty = Seq::<Seq<char>>::empty();
                assert(spec_write_file(preamble, ws, cs, paths0, target0) == spec_write_file(preamble, ws, cs, empty, Seq::empty()));
                assert(spec_file_valid(preamble, ws, cs, names, contents));
                assert(self.target@ == spec_file_bytes(preamble, ws, cs, names, contents));
            }
        }
        match cache {
            Ok(_) => Ok(self.target.len()),
            Err(e) => Err(e),
        }
    }
}

} // verus!

use vstd::prelude::*;

use crate::config::Config;
use crate::path::{path_key, spec_path_key};
use crate::preamble::Preamble;

verus! {

/// Views of a sequence of strings as sequences of characters.
pub open spec fn strings_view(v: Seq<String>) -> Seq<Seq<char>> {
    v.map_values(|s: String| s@)
}

/// Abstract state of an encoding context.
pub struct EncoderContextView {
    /// Preamble of the file being encoded.
    pub preamble: Preamble,
    /// Source paths registered so far; a path's index is its position.
    pub paths: Seq<Seq<char>>,
}

/// Abstract state of a decoding context.
pub struct DecoderContextView {
    /// Configuration of the decoding.
    pub config: Config,
    /// Cached source names, by index.
    pub names: Seq<Seq<char>>,
    /// Cached source contents, by index.
    pub contents: Seq<Seq<char>>,
}

/// Paths after registering `path`: unchanged if already present, else appended.
pub open spec fn spec_add_path(paths: Seq<Seq<char>>, path: Seq<char>) -> Seq<Seq<char>> {
    if paths.contains(path) {
        paths
    } else {
        paths.push(path)
    }
}

/// Context of encoding a CDF file: the preamble and the cache of source paths.
#[derive(Debug)]
pub struct EncoderContext {
    preamble: Preamble,
    path_cache: Vec<String>,
}

impl View for EncoderContext {
    type V = EncoderContextView;

    closed spec fn view(&self) -> EncoderContextView {
        EncoderContextView { preamble: self.preamble, paths: strings_view(self.path_cache@) }
    }
}

impl EncoderContext {
    /// The cache never holds a path twice.
    #[verifier::type_invariant]
    closed spec fn wf(&self) -> bool {
        strings_view(self.path_cache@).no_duplicates()
    }

    /// Start a new context with an empty path cache.
    pub fn from_preamble(preamble: Preamble) -> (ctx: EncoderContext)
        ensures
            ctx@.preamble == preamble,
            ctx@.paths == Seq::<Seq<char>>::empty(),
    {
        let ctx = EncoderContext { preamble, path_cache: Vec::new() };
        assert(strings_view(ctx.path_cache@) =~= Seq::<Seq<char>>::empty());
        ctx
    }

    /// Configuration used for the encoding.
    pub fn config(&self) -> (c: &Config)
        ensures
            *c == self@.preamble.config,
    {
        &self.preamble.config
    }

    /// Preamble of the context.
    pub fn preamble(&self) -> (p: &Preamble)
        ensures
            *p == self@.preamble,
    {
        &self.preamble
    }

    /// Registered paths, in index order.
    pub fn paths(&self) -> (p: &Vec<String>)
        ensures
            strings_view(p@) == self@.paths,
    {
        &self.path_cache
    }

    /// Append a path to the encoding context, returning its index. Paths are compared by
    /// their components (see [`spec_path_key`]): a path already in the cache keeps its index,
    /// and the cache holds each path by its components.
    pub fn add_path(&mut self, path: String) -> (idx: usize)
        ensures
            final(self)@.preamble == old(self)@.preamble,
            final(self)@.paths == spec_add_path(old(self)@.paths, spec_path_key(path@)),
            final(self)@.paths.no_duplicates(),
            idx < final(self)@.paths.len(),
            final(self)@.paths[idx as int] == spec_path_key(path@),
    {
        proof {
            use_type_invariant(&*self);
        }
        let key = path_key(path.as_str());
        let len = self.path_cache.len();
        let mut i: usize = 0;
        while i < len
            invariant
                len == self.path_cache@.len(),
                i <= len,
                key@ == spec_path_key(path@),
                forall|j: int| 0 <= j < i ==> self.path_cache@[j]@ != key@,
            decreases len - i,
        {
            if self.path_cache[i] == key {
                proof {
                    assert(strings_view(self.path_cache@)[i as int] == key@);
                    assert(strings_view(self.path_cache@).contains(key@));
                    use_type_invariant(&*self);
                }
                return i;
            }
            i = i + 1;
        }
        proof {
            assert(!strings_view(self.path_cache@).contains(key@)) by {
                if strings_view(self.path_cache@).contains(key@) {
                    let j = choose|j: int|
                        0 <= j < strings_view(self.path_cache@).len()
                            && strings_view(self.path_cache@)[j] == key@;
                    assert(self.path_cache@[j]@ == key@);
                }
            }
        }
        let ghost old_paths = strings_view(self.path_cache@);
        let mut cache: Vec<String> = Vec::new();
        std::mem::swap(&mut cache, &mut self.path_cache);
        cache.push(key);
        proof {
            assert(strings_view(cache@) =~= old_paths.push(key@));
        }
        self.path_cache = cache;
        proof {
            use_type_invariant(&*self);
        }
        len
    }
}

/// Decoding context of a CDF file.
#[derive(Debug, Clone, Copy, PartialEq, Eq)]
pub struct DecoderContext<'a> {
    config: &'a Config,
    source_names: &'a [String],
    source_contents: &'a [String],
}

impl<'a> View for DecoderContext<'a> {
    type V = DecoderContextView;

    closed spec fn view(&self) -> DecoderContextView {
        DecoderContextView {
            config: *self.config,
            names: strings_view(self.source_names@),
            contents: strings_view(self.source_contents@),
        }
    }
}

impl<'a> DecoderContext<'a> {
    /// Context with the default configuration and an empty source cache.
    pub fn base() -> (ctx: DecoderContext<'static>)
        ensures
            ctx@.config == Config::spec_default(),
            ctx@.names == Seq::<Seq<char>>::empty(),
            ctx@.contents == Seq::<Seq<char>>::empty(),
    {
        let ctx = DecoderContext { config: &Config { zeroed_scalar_values: false }, source_names: &[], source_contents: &[] };
        assert(ctx@.names =~= Seq::<Seq<char>>::empty());
        assert(ctx@.contents =~= Seq::<Seq<char>>::empty());
        ctx
    }

    /// Create a new decoding context.
    pub fn new(
        config: &'a Config,
        source_names: &'a [String],
        source_contents: &'a [String],
    ) -> (ctx: DecoderContext<'a>)
        ensures
            ctx@.config == *config,
            ctx@.names == strings_view(source_names@),
            ctx@.contents == strings_view(source_contents@),
    {
        DecoderContext { config, source_names, source_contents }
    }

    /// Configuration of the decoding.
    pub fn config(&self) -> (c: &Config)
        ensures
            *c == self@.config,
    {
        self.config
    }

    /// Fetch the name of a file indexed by `id`.
    pub fn fetch_name(&self, id: usize) -> (r: Option<&'a str>)
        ensures
            r is Some <==> id < self@.names.len(),
            r is Some ==> r.unwrap()@ == self@.names[id as int],
    {
        if id < self.source_names.len() {
            Some(self.source_names[id].as_str())
        } else {
            None
        }
    }

    /// Fetch the contents of a file indexed by `id`.
    pub fn fetch_contents(&self, id: usize) -> (r: Option<&'a str>)
        ensures
            r is Some <==> id < self@.contents.len(),
            r is Some ==> r.unwrap()@ == self@.contents[id as int],
    {
        if id < self.source_contents.len() {
            Some(self.source_contents[id].as_str())
        } else {
            None
        }
    }
}

} // verus!

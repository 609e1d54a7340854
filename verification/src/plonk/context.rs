use vstd::prelude::*;

use crate::element::decoded_value;
use crate::error::Error;
use crate::plonk::circuit::{CircuitDescription, CircuitDescriptionView};
use crate::plonk::fixed_text::FixedText;

verus! {

/// Model of an encoding and decoding context.
pub struct ContextView {
    /// Source cache id set for the next item.
    pub source_cache_id: Option<usize>,
    /// The circuit description the context reads from, if any.
    pub cdf: Option<CircuitDescriptionView>,
}

/// Encoding and decoding context defined by the reader or writer and consumed by the
/// elements.
#[derive(Debug)]
pub struct Context {
    source_cache_id: Option<usize>,
    cdf: Option<CircuitDescription>,
}

impl View for Context {
    type V = ContextView;

    closed spec fn view(&self) -> ContextView {
        ContextView {
            source_cache_id: self.source_cache_id,
            cdf: match self.cdf {
                Some(c) => Some(c@),
                None => None,
            },
        }
    }
}

impl Context {
    /// Create a new context without a circuit description.
    pub fn unit() -> (c: Context)
        ensures
            c@ == (ContextView { source_cache_id: None, cdf: None }),
    {
        Context { source_cache_id: None, cdf: None }
    }

    /// Set a source cache id in the context. The next witness or constraint encoding should
    /// consume it instead of storing the raw path.
    pub fn with_source_cache_id(&mut self, id: usize) -> (r: &mut Self)
        ensures
            r@ == (ContextView { source_cache_id: Some(id), cdf: old(self)@.cdf }),
            final(self)@ == final(r)@,
    {
        self.source_cache_id = Some(id);
        self
    }

    /// Consume a previously set source cache id.
    pub fn take_source_cache_id(&mut self) -> (id: Option<usize>)
        ensures
            id == old(self)@.source_cache_id,
            final(self)@ == (ContextView { source_cache_id: None, cdf: old(self)@.cdf }),
    {
        self.source_cache_id.take()
    }

    /// Create a context that reads from a circuit description.
    pub fn with_cdf(cdf: CircuitDescription) -> (c: Context)
        ensures
            c@ == (ContextView { source_cache_id: None, cdf: Some(cdf@) }),
    {
        Context { source_cache_id: None, cdf: Some(cdf) }
    }

    /// The bytes of the circuit description the context reads from, if any.
    pub fn source(&mut self) -> (s: Option<&mut Vec<u8>>)
        ensures
            s is Some <==> old(self)@.cdf is Some,
            s is Some ==> s.unwrap()@ == old(self)@.cdf.unwrap().bytes,
    {
        match &mut self.cdf {
            Some(c) => Some(c.source_mut()),
            None => None,
        }
    }

    /// Attempt to fetch a path from the source cache of the circuit description.
    pub fn fetch_source_path(&self, idx: usize) -> (r: Result<FixedText<1024>, Error>)
        requires
            self@.cdf is Some,
        ensures
            decoded_value(self@.cdf.unwrap().spec_fetch_source(idx as int), r),
    {
        match &self.cdf {
            Some(c) => c.fetch_source(idx),
            None => Err(Error::SourceUnavailable),
        }
    }
}

} // verus!

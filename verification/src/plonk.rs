//! The first circuit description format: every item holds its source path inline, as fixed
//! text, and the file is the preamble followed by the witnesses and the constraints.

mod circuit;
mod constraint;
mod context;
mod element;
mod encoder;
mod fixed_text;
mod indexed_witness;
mod polynomial;
mod preamble;
mod primitives;
mod sort;
mod source;
mod witness;

pub use circuit::{CircuitDescription, CircuitDescriptionView};
pub use constraint::{Constraint, ConstraintView};
pub use context::{Context, ContextView};
pub use element::Element;
pub use encoder::{Encoder, EncoderView};
pub use fixed_text::FixedText;
pub use indexed_witness::{IndexedWitness, IndexedWitnessView, lemma_indexed_witness_validate};
pub use polynomial::{Polynomial, PolynomialView};
pub use preamble::Preamble;
pub use source::{Source, SourceView};
pub use witness::{Witness, WitnessView};
pub use crate::bytes::encode_bytes;
pub use crate::config::Config;
pub use crate::error::Error;
pub use crate::scalar::Scalar;
pub use circuit::{lemma_valid_cdf_complete, lemma_valid_cdf_sound, lemma_written_constraint, lemma_written_witness, spec_into_valid_cdf};
pub use encoder::lemma_encoder_places_items;
pub use fixed_text::{lemma_fit, spec_fit};
pub use sort::{lemma_sort_by, lemma_sort_unique_keys, spec_sort_by, spec_views};

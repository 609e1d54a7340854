//! Circuit description format: a dense linear encoding of the witnesses and constraints of a
//! PLONK circuit, with a source cache that maps each item to the code that produced it.

mod breakpoint;
mod bytes;
mod config;
mod constraint;
mod context;
mod dap;
mod decoder;
mod element;
mod encoder;
mod error;
mod format;
mod msgpack;
mod path;
pub mod plonk;
mod polynomial;
mod preamble;
mod primitives;
mod scalar;
mod selectors;
mod source;
mod text;
mod witness;
mod zkdb;

pub use config::Config;
pub use constraint::{Constraint, ConstraintView, EncodableConstraint, EncodableConstraintView};
pub use dap::{ZkResponse, ZkSource, ZkWitness, scalar_to_string};
pub use decoder::{CircuitDescription, CircuitDescriptionView};
pub use context::{DecoderContext, DecoderContextView, EncoderContext, EncoderContextView};
pub use encoder::{Encoder, EncoderContextProvider, EncoderView, write_source_cache};
pub use element::{Codec, DecodableElement, Element, EncodableElement};
pub use error::Error;
pub use breakpoint::{Breakpoint, BreakpointView, Breakpoints, BreakpointsView};
pub use bytes::encode_bytes;
pub use polynomial::{Polynomial, PolynomialView};
pub use preamble::Preamble;
pub use scalar::Scalar;
pub use source::{DecodedSource, DecodedSourceView, EncodableSource, EncodableSourceView, EncodedSource};
pub use witness::{EncodableWitness, EncodableWitnessView, Witness, WitnessView};
pub use zkdb::{Report, State, ZkDebugger, ZkDebuggerView};
pub use selectors::{Selectors, SelectorsView, WiredWitnesses, WiredWitnessesView};
pub use breakpoint::{
    BreakpointEvent, lemma_add_idempotent, lemma_add_keeps, lemma_add_then_fetch, lemma_add_then_remove,
    lemma_clear_keeps, lemma_clear_removes, lemma_find_entry, lemma_history, lemma_remove_keeps, lemma_unused_ids,
    spec_apply, spec_cleared, spec_find_entry, spec_matches,
};
pub use decoder::spec_parse;
pub use format::{
    lemma_fetch_written_constraint, lemma_fetch_written_witness, lemma_file_cache, spec_file_bytes,
    lemma_written_constraint_indices, lemma_written_witness_indices, spec_file_paths, spec_file_valid, spec_file_view,
};
pub use zkdb::{
    DebuggerCall, lemma_calls_keep_circuit, lemma_goto_moves, lemma_moved_is_call, lemma_next, lemma_next_stops_at_breakpoint,
    lemma_next_succeeds, lemma_prev, lemma_prev_stops_at_breakpoint, lemma_prev_succeeds, spec_all_read, spec_call,
    spec_moved, spec_moved_to,
};
pub use bytes::{spec_read_padded, spec_write_at};
pub use constraint::spec_constraint_len;
pub use context::{spec_add_path, strings_view};
pub use decoder::{spec_all_some, spec_read_preamble, spec_tail, spec_unwrap_all};
pub use element::{decoded_as, decoded_value, spec_check_len};
pub use encoder::{
    spec_constraint_id_used, spec_file_front, spec_place_constraints, spec_place_witnesses, spec_source_cache_bytes,
    spec_witness_id_used, spec_write_file, spec_write_items, spec_write_source_cache,
};
pub use msgpack::{
    msgpack_string_array, msgpack_unpack, spec_all_strings, spec_element_message_len, spec_element_messages_end,
    spec_elements_view, spec_msgpack_fits, spec_msgpack_flat, spec_scalar_message_len, spec_scalar_messages_end,
    spec_unpack_flat,
};
pub use path::{
    lemma_dot_component, lemma_plain_path_bytes, lemma_plain_path_key, lemma_repeated_separator, lemma_trailing_separator,
    spec_path_bytes, spec_path_feed, spec_path_key, spec_path_step, spec_plain_path,
};
pub use source::{spec_index_bytes, spec_read_index};
pub use text::{spec_contains, spec_utf8};
pub use witness::spec_witness_len;

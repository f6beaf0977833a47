//! Atoms: self-describing, size-prefixed binary records exchanged between
//! plugins and hosts, with traversal, query and append operations that work
//! in place on caller-owned byte buffers.
//!
//! A buffer holds an atom from its first byte; all multi-byte integers in it
//! are little-endian, and positions inside it are byte offsets.
pub mod atom;
pub mod features;
pub mod layout;
pub mod object;
pub mod sequence;

pub use atom::{
    LV2Atom, LV2AtomEvent, LV2AtomInt, LV2AtomLiteral, LV2AtomLiteralBody, LV2AtomLong,
    LV2AtomObject, LV2AtomObjectBody, LV2AtomProperty, LV2AtomPropertyBody, LV2AtomSequence,
    LV2AtomSequenceBody, LV2AtomString, LV2AtomTuple, LV2AtomURID, LV2AtomVector,
    LV2AtomVectorBody,
};
pub use features::{lv2_features_data, lv2_features_query, FeatureHelper, LV2Feature};
pub use layout::{
    lv2_atom_equals, lv2_atom_is_null, lv2_atom_pad_size, lv2_atom_total_size, read_atom, read_u32,
    read_u64, write_u32, ATOM_HEADER_SIZE,
};
pub use object::{
    lv2_atom_object_begin, lv2_atom_object_get, lv2_atom_object_is_end, lv2_atom_object_next,
    lv2_atom_object_query, read_property, LV2AtomObjectQuery, ObjectHelper, OBJECT_BODY_SIZE,
    PROPERTY_HEADER_SIZE,
};
pub use sequence::{
    lv2_atom_sequence_append_event, lv2_atom_sequence_begin, lv2_atom_sequence_clear,
    lv2_atom_sequence_end, lv2_atom_sequence_is_end, lv2_atom_sequence_next, read_event,
    LV2AtomSequenceIterator, EVENT_HEADER_SIZE, SEQUENCE_BODY_SIZE,
};

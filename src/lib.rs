//! Digital-ink strokes and sketches: parallel sample channels with free-form
//! JSON metadata, the transforms on them that need no arithmetic on
//! coordinates, and the field rules of their wire records.

pub mod fields;
pub mod meta;
pub mod sketch;
pub mod stroke;

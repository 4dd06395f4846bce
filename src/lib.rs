//! Derivation of `HasField` implementations for record types.
//!
//! A record declaration is described by [`Declaration`]. For each of its fields
//! that is not marked `#[preflect(ignore)]` the library emits one `impl` block
//! of the capability trait, which gives borrowed, mutably borrowed and owned
//! access to that field, addressed by the field's name as a string literal.
pub mod model;
pub mod attr;
pub mod emit;
pub mod derive;
pub mod laws;

pub use model::{
    CodeFragment, Declaration, DerivationError, ErrorKind, FieldAttribute, FieldDecl, Location,
    MarkerToken, Shape,
};
pub use attr::{read_field_attribute, read_marker_tokens};
pub use emit::{field_impl, impl_block};
pub use derive::{has_field_derive_impl, validate_shape};

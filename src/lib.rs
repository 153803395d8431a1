//! Renders the values of a tagged union from the documentation of its variants.
//!
//! The first documentation line of each variant is its template. Placeholders `{name}` and
//! `{name:?}` in it refer to the variant's named fields, or to its positional slots as
//! `_0`, `_1`, ...; unit variants render their template as it stands, trimmed.
//!
//! - `text`: white space, trimming and decimal numerals.
//! - `doc`: metadata entries and the template that they give a variant.
//! - `template`: compiling a template into a literal with insertion markers, and filling it.
//! - `binding`: payload shapes and the names of their slots.
//! - `value`: slot values and how they render.
//! - `table`: a union ready to render, built once from its declaration.
//! - `laws`: what holds of every rendering.
pub mod binding;
pub mod doc;
pub mod laws;
pub mod table;
pub mod template;
pub mod text;
pub mod value;

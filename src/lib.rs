//! Formatting of primitive values the way a `{}` placeholder shows them:
//! integers in several radixes, padding with a fill character and an
//! alignment, templates with positional and named placeholders, and a model
//! of lexically scoped bindings with shadowing and mutability.
pub mod array;
pub mod pad;
pub mod radix;
pub mod scope;
pub mod template;
pub mod text;
pub mod value;

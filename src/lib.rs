//! Finds URLs and email addresses in plain text.
//!
//! The scanning core works on the text's characters: a classifier of code
//! points, an authority scanner, three sub-scanners (email, URL with a scheme,
//! URL without one) and a dispatcher that walks the text once, left to right.
pub mod chars;
pub mod domains;
pub mod email;
pub mod url;
pub mod finder;
pub mod offsets;

pub use finder::{Link, LinkFinder, LinkKind, Span};

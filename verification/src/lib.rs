//! Parse the CSS `font` shorthand into its parts, or recognise a system-font
//! keyword, with every step proved against a specification.

pub mod css;
pub mod font;
pub mod laws;
pub mod order;
pub mod parse;
pub mod split;
pub mod text;

pub use font::{Font, LineHeight, ParseError, Shorthand, SystemFont};
pub use parse::parse;

//! A lexer for a small parenthesized notation whose names are tagged by
//! sigils. `tokenize` reads the token that a text begins with and says how
//! many characters it takes up; `tokenize_all` does so to the end of the text.
//! Each scanner is verified against a definition of what it reads, given as a
//! function on sequences of characters, and `laws` holds what follows from
//! those definitions.

pub mod array;
pub mod chars;
pub mod delimiters;
pub mod error;
pub mod laws;
pub mod lexer;
pub mod number;
pub mod outcome;
pub mod quoted;
pub mod runs;
pub mod stream;
pub mod text;
pub mod token;
pub mod word;

pub use crate::array::parse_array;
pub use crate::delimiters::seek_past_newline;
pub use crate::delimiters::seek_past_whitespace;
pub use crate::error::ASTError;
pub use crate::error::Reason;
pub use crate::lexer::tokenize;
pub use crate::quoted::parse_quoted;
pub use crate::stream::tokenize_all;
pub use crate::token::Tag;
pub use crate::token::TOKEN;
pub use crate::word::ensure_word_to_end;
pub use crate::word::make_ident_or_error;

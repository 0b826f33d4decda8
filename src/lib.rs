//! An interpreter for a tape machine with eight instructions, written either
//! as Brainfuck characters or as pairs of the words `Happy`, `New` and `Year`.

pub mod lexer;
pub mod machine;
pub mod opcode;
pub mod tape;
pub mod tokens;

pub use lexer::{lex_brainfuck, lex_words, opcode_from_words, to_words};
pub use machine::{Action, Frame, HnyFuck, from_brainfuck};
pub use opcode::{Error, Opcode};
pub use tape::{InputStream, State};
pub use tokens::TokenStream;

use vstd::prelude::*;

pub mod chars;
pub mod lexer;
pub mod options;
pub mod parser;
pub mod position;
pub mod roundtrip;
pub mod structure;
pub mod token;
pub mod tree;

pub use lexer::{lex, tokenize, LexError, LexErrorKind, Tokenizer};
pub use options::{default_data_file, Options};
pub use parser::{parse, ParseError, ParseErrorKind, Parser};
pub use position::Position;
pub use token::{Keyword, Symbol, Token, TokenPosition};
pub use tree::{Attribute, Record, ReferenceValue, Schema, Table, Value};

verus! {

} // verus!

//! An interpreter for Braindamage, a Brainfuck dialect with a file-backed
//! I/O channel: lexing into nested tokens, run-length fusion, flattening
//! with resolved jump distances, a wrapping tape, and an
//! instruction-pointer execution engine.

pub mod buffer;
pub mod cell;
pub mod instruction;
pub mod interpreter;
pub mod io;
pub mod lexer;
pub mod parser;
pub mod postprocessor;
pub mod settings;
pub mod tape;
pub mod token;

pub use buffer::VecBuffer;
pub use cell::Cell;
pub use instruction::Instruction;
pub use interpreter::Interpreter;
pub use io::{BraindamageIo, FileIo, FileWrite, TestIo};
pub use lexer::Lexer;
pub use parser::{Parser, ParserMode};
pub use postprocessor::AggregateSameProcessor;
pub use settings::{ArgAction, ArgParser, CellType, Settings};
pub use token::Token;

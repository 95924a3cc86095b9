use vstd::prelude::*;

use crate::cell::Cell;
use crate::instruction::{ops_of, Instruction};
use crate::lexer::{lemma_lex_trees_plain, lex_trees, unmatched_close, unmatched_open, Lexer};
use crate::postprocessor::{fuse_seq, lemma_fuse_seq_plain, AggregateSameProcessor};
use crate::token::{brackets_matched, flat_seq, lemma_flat_seq_matched, Tree};

verus! {

/// How source is read. `Debug` keeps every character that is no operator
/// as a no-op and leaves the program as written; `Release` drops such
/// characters and fuses runs of joinable instructions.
#[derive(Clone, Copy, Debug, PartialEq, Eq)]
pub enum ParserMode {
    Debug,
    Release,
}

impl ParserMode {
    pub open spec fn spec_keep_comments(self) -> bool {
        self is Debug
    }

    pub open spec fn spec_aggregate_instructions(self) -> bool {
        self is Release
    }

    /// Whether characters that are no operator become no-ops.
    pub fn keep_comments(&self) -> (r: bool)
        ensures
            r == self.spec_keep_comments(),
    {
        match self {
            ParserMode::Debug => true,
            ParserMode::Release => false,
        }
    }

    /// Whether the fusion pass runs.
    pub fn aggregate_instructions(&self) -> (r: bool)
        ensures
            r == self.spec_aggregate_instructions(),
    {
        match self {
            ParserMode::Debug => false,
            ParserMode::Release => true,
        }
    }
}

/// The nested program that `src` gives in `mode`, for cells with `m`
/// distinct values.
pub open spec fn parse_trees(src: Seq<char>, mode: ParserMode, m: nat) -> Seq<Tree> {
    let lexed = lex_trees(src, mode.spec_keep_comments());
    if mode.spec_aggregate_instructions() {
        fuse_seq(lexed, m)
    } else {
        lexed
    }
}

/// Whatever the source, the parsed program's loop brackets match: from a
/// `LoopStart(d)` at `i`, `i + d` holds `LoopEnd(d)`, and from a
/// `LoopEnd(d)` at `i`, `i - d` holds `LoopStart(d)`.
pub proof fn lemma_parse_brackets_matched(src: Seq<char>, mode: ParserMode, m: nat)
    ensures
        brackets_matched(flat_seq(parse_trees(src, mode, m))),
{
    lemma_lex_trees_plain(src, mode.spec_keep_comments());
    if mode.spec_aggregate_instructions() {
        lemma_fuse_seq_plain(lex_trees(src, mode.spec_keep_comments()), m);
    }
    lemma_flat_seq_matched(parse_trees(src, mode, m));
}

/// A parsed program, with the loop brackets of the source that matched
/// nothing.
pub struct Parsed<T: Cell> {
    pub instructions: Vec<Instruction<T>>,
    pub unmatched_open: usize,
    pub unmatched_close: usize,
}

/// Source text to flat program: lexing, fusion in release mode, then
/// flattening.
pub struct Parser {
    mode: ParserMode,
    lexer: Lexer,
    aggregate: Option<AggregateSameProcessor>,
}

impl Parser {
    pub closed spec fn mode(&self) -> ParserMode {
        self.mode
    }

    pub closed spec fn wf(&self) -> bool {
        &&& self.lexer.unknown_to_noop() == self.mode.spec_keep_comments()
        &&& self.aggregate is Some == self.mode.spec_aggregate_instructions()
    }

    pub fn new(mode: ParserMode) -> (r: Parser)
        ensures
            r.mode() == mode,
            r.wf(),
    {
        let lexer = Lexer::new(mode.keep_comments());
        let mut pipe = Parser { mode, lexer, aggregate: None };
        pipe.setup();
        pipe
    }

    fn setup(&mut self)
        requires
            old(self).lexer.unknown_to_noop() == old(self).mode.spec_keep_comments(),
            old(self).aggregate is None,
        ensures
            final(self).mode == old(self).mode,
            final(self).wf(),
    {
        if self.mode.aggregate_instructions() {
            self.aggregate = Some(AggregateSameProcessor::create());
        }
    }

    /// Parses `script`, with the loop brackets that matched nothing.
    pub fn parse<T: Cell>(&self, script: &str) -> (r: Parsed<T>)
        requires
            self.wf(),
        ensures
            ops_of(r.instructions@) == flat_seq(parse_trees(script@, self.mode(), T::modulus())),
            brackets_matched(ops_of(r.instructions@)),
            r.unmatched_open == unmatched_open(script@, self.mode().spec_keep_comments()),
            r.unmatched_close == unmatched_close(script@, self.mode().spec_keep_comments()),
    {
        let lexed = self.lexer.lex::<T>(script);
        let tokens = match &self.aggregate {
            Some(processor) => processor.process(lexed.tokens),
            None => lexed.tokens,
        };
        let instructions = self.lexer.flatten(tokens);
        proof {
            lemma_parse_brackets_matched(script@, self.mode, T::modulus());
        }
        Parsed {
            instructions,
            unmatched_open: lexed.unmatched_open,
            unmatched_close: lexed.unmatched_close,
        }
    }

    /// Parses `script` into a flat program.
    pub fn parse_script<T: Cell>(&mut self, script: &str) -> (r: Vec<Instruction<T>>)
        requires
            old(self).wf(),
        ensures
            *final(self) == *old(self),
            ops_of(r@) == flat_seq(parse_trees(script@, old(self).mode(), T::modulus())),
            brackets_matched(ops_of(r@)),
    {
        self.parse(script).instructions
    }
}

} // verus!

use vstd::prelude::*;

use crate::cell::Cell;
use crate::instruction::{ops_of, Instruction, Op};
use crate::token::{
    flat_seq, flat_tree, lemma_flat_seq_push, lemma_plain_push, lemma_trees_push, plain_seq,
    trees, Token, Tree,
};

verus! {

/// The operation a single character stands for, outside the loop brackets.
/// Characters that are no operator give a no-op when `unknown_to_noop`
/// holds, and nothing otherwise.
pub open spec fn char_op(c: char, unknown_to_noop: bool) -> Option<Op> {
    if c == '>' {
        Some(Op::IncreaseIndex(1))
    } else if c == '<' {
        Some(Op::DecreaseIndex(1))
    } else if c == '+' {
        Some(Op::IncreaseValue(1))
    } else if c == '-' {
        Some(Op::DecreaseValue(1))
    } else if c == ',' {
        Some(Op::IoRead)
    } else if c == '.' {
        Some(Op::IoWrite)
    } else if c == ';' {
        Some(Op::FileIoRead)
    } else if c == ':' {
        Some(Op::FileIoWrite)
    } else if c == '_' {
        Some(Op::NoOp)
    } else if unknown_to_noop {
        Some(Op::NoOp)
    } else {
        None
    }
}

/// Where the lexer stands after a prefix of the source: the blocks still
/// open, outermost first (the first is the program itself), and the number
/// of `]` that closed nothing.
pub struct LexState {
    pub stack: Seq<Seq<Tree>>,
    pub unmatched_close: nat,
}

pub open spec fn push_top(stack: Seq<Seq<Tree>>, t: Tree) -> Seq<Seq<Tree>> {
    stack.update(stack.len() - 1, stack.last().push(t))
}

/// Ends the innermost open block and appends it to the one around it.
pub open spec fn close_top(stack: Seq<Seq<Tree>>) -> Seq<Seq<Tree>> {
    push_top(stack.drop_last(), Tree::Block(stack.last()))
}

/// Ends every block still open at the end of the source.
pub open spec fn close_all(stack: Seq<Seq<Tree>>) -> Seq<Seq<Tree>>
    decreases stack.len(),
{
    if stack.len() <= 1 {
        stack
    } else {
        close_all(close_top(stack))
    }
}

pub open spec fn lex_step(st: LexState, c: char, unknown_to_noop: bool) -> LexState {
    if c == '[' {
        LexState { stack: st.stack.push(Seq::empty()), unmatched_close: st.unmatched_close }
    } else if c == ']' && st.stack.len() > 1 {
        LexState { stack: close_top(st.stack), unmatched_close: st.unmatched_close }
    } else {
        let unmatched_close = if c == ']' {
            st.unmatched_close + 1
        } else {
            st.unmatched_close
        };
        match char_op(c, unknown_to_noop) {
            Some(op) => LexState {
                stack: push_top(st.stack, Tree::Leaf(op)),
                unmatched_close,
            },
            None => LexState { stack: st.stack, unmatched_close },
        }
    }
}

pub open spec fn lex_prefix(src: Seq<char>, unknown_to_noop: bool) -> LexState
    decreases src.len(),
{
    if src.len() == 0 {
        LexState { stack: seq![Seq::empty()], unmatched_close: 0 }
    } else {
        lex_step(lex_prefix(src.drop_last(), unknown_to_noop), src.last(), unknown_to_noop)
    }
}

/// The program the lexer makes of `src`: loops become blocks, and a loop
/// still open at the end of the source is closed there.
pub open spec fn lex_trees(src: Seq<char>, unknown_to_noop: bool) -> Seq<Tree> {
    close_all(lex_prefix(src, unknown_to_noop).stack)[0]
}

/// The number of `[` that no `]` closes.
pub open spec fn unmatched_open(src: Seq<char>, unknown_to_noop: bool) -> nat {
    (lex_prefix(src, unknown_to_noop).stack.len() - 1) as nat
}

/// The number of `]` that close no `[`.
pub open spec fn unmatched_close(src: Seq<char>, unknown_to_noop: bool) -> nat {
    lex_prefix(src, unknown_to_noop).unmatched_close
}

pub open spec fn stack_trees<T: Cell>(stack: Seq<Vec<Token<T>>>) -> Seq<Seq<Tree>> {
    stack.map_values(|v: Vec<Token<T>>| trees(v@))
}

pub open spec fn plain_stack(stack: Seq<Seq<Tree>>) -> bool {
    forall|i: int| 0 <= i < stack.len() ==> plain_seq(#[trigger] stack[i])
}

proof fn lemma_close_top_plain(stack: Seq<Seq<Tree>>)
    requires
        stack.len() > 1,
        plain_stack(stack),
    ensures
        plain_stack(close_top(stack)),
        close_top(stack).len() == stack.len() - 1,
{
    let below = stack.drop_last();
    assert(plain_seq(stack[stack.len() - 1]));
    assert(plain_seq(below[below.len() - 1]));
    lemma_plain_push(below.last(), Tree::Block(stack.last()));
}

proof fn lemma_close_all_plain(stack: Seq<Seq<Tree>>)
    requires
        stack.len() >= 1,
        plain_stack(stack),
    ensures
        close_all(stack).len() == 1,
        plain_seq(close_all(stack)[0]),
    decreases stack.len(),
{
    if stack.len() > 1 {
        lemma_close_top_plain(stack);
        lemma_close_all_plain(close_top(stack));
    } else {
        assert(plain_seq(stack[0]));
    }
}

proof fn lemma_lex_prefix_plain(src: Seq<char>, unknown_to_noop: bool)
    ensures
        lex_prefix(src, unknown_to_noop).stack.len() >= 1,
        plain_stack(lex_prefix(src, unknown_to_noop).stack),
    decreases src.len(),
{
    if src.len() == 0 {
        let s: Seq<Tree> = Seq::empty();
        assert(plain_seq(s));
        assert(plain_stack(seq![s]));
    } else {
        lemma_lex_prefix_plain(src.drop_last(), unknown_to_noop);
        let st = lex_prefix(src.drop_last(), unknown_to_noop);
        let c = src.last();
        if c == '[' {
            let s: Seq<Tree> = Seq::empty();
            assert(plain_seq(s));
            assert(plain_stack(st.stack.push(s)));
        } else if c == ']' && st.stack.len() > 1 {
            lemma_close_top_plain(st.stack);
        } else {
            match char_op(c, unknown_to_noop) {
                Some(op) => {
                    assert(plain_seq(st.stack[st.stack.len() - 1]));
                    lemma_plain_push(st.stack.last(), Tree::Leaf(op));
                    assert(plain_stack(push_top(st.stack, Tree::Leaf(op))));
                },
                None => {},
            }
        }
    }
}

/// Every loop of a lexed program is a block: no leaf is a loop bracket.
pub proof fn lemma_lex_trees_plain(src: Seq<char>, unknown_to_noop: bool)
    ensures
        plain_seq(lex_trees(src, unknown_to_noop)),
{
    lemma_lex_prefix_plain(src, unknown_to_noop);
    lemma_close_all_plain(lex_prefix(src, unknown_to_noop).stack);
}

/// The result of lexing: the program, and the loop brackets that matched
/// nothing, which are reported and otherwise left alone.
pub struct Lexed<T: Cell> {
    pub tokens: Vec<Token<T>>,
    pub unmatched_open: usize,
    pub unmatched_close: usize,
}

/// Turns source text into a nested program of tokens.
pub struct Lexer {
    unknown_to_noop: bool,
}

impl Default for Lexer {
    /// A lexer that drops characters that are no operator.
    fn default() -> (r: Lexer)
        ensures
            !r.unknown_to_noop(),
    {
        Lexer::new(false)
    }
}

pub(crate) fn chars_of(s: &str) -> (r: Vec<char>)
    ensures
        r@ == s@,
{
    let mut v: Vec<char> = Vec::new();
    for c in it: s.chars()
        invariant
            it.seq() == s@,
            v@ == s@.take(it.index() as int),
    {
        v.push(c);
    }
    v
}

impl Lexer {
    pub fn new(unknown_to_noop: bool) -> (r: Lexer)
        ensures
            r.unknown_to_noop() == unknown_to_noop,
    {
        Lexer { unknown_to_noop }
    }

    pub closed spec fn unknown_to_noop(&self) -> bool {
        self.unknown_to_noop
    }

    /// The token for a character other than a loop bracket.
    fn token_of<T: Cell>(&self, c: char) -> (r: Option<Token<T>>)
        ensures
            match (r, char_op(c, self.unknown_to_noop)) {
                (Some(t), Some(op)) => t.tree() == Tree::Leaf(op),
                (None, None) => true,
                _ => false,
            },
    {
        let inst = if c == '>' {
            Instruction::IncreaseIndex(1)
        } else if c == '<' {
            Instruction::DecreaseIndex(1)
        } else if c == '+' {
            Instruction::IncreaseValue(T::from_u8(1))
        } else if c == '-' {
            Instruction::DecreaseValue(T::from_u8(1))
        } else if c == ',' {
            Instruction::IoRead
        } else if c == '.' {
            Instruction::IoWrite
        } else if c == ';' {
            Instruction::FileIoRead
        } else if c == ':' {
            Instruction::FileIoWrite
        } else if c == '_' || self.unknown_to_noop {
            Instruction::NoOp
        } else {
            return None;
        };
        Some(Token::Instruction(inst))
    }

    /// Appends `t` to the innermost open block.
    fn push_token<T: Cell>(stack: &mut Vec<Vec<Token<T>>>, t: Token<T>)
        requires
            old(stack).len() >= 1,
        ensures
            stack_trees(final(stack)@) == push_top(stack_trees(old(stack)@), t.tree()),
            final(stack)@.len() == old(stack)@.len(),
    {
        let ghost before = stack_trees(stack@);
        let mut top = stack.pop().unwrap();
        proof {
            lemma_trees_push(top@, t);
        }
        top.push(t);
        stack.push(top);
        assert(stack_trees(stack@) =~= push_top(before, t.tree()));
    }

    /// Ends the innermost open block.
    fn close_block<T: Cell>(stack: &mut Vec<Vec<Token<T>>>)
        requires
            old(stack).len() >= 2,
        ensures
            stack_trees(final(stack)@) == close_top(stack_trees(old(stack)@)),
            final(stack)@.len() == old(stack)@.len() - 1,
    {
        let ghost before = stack_trees(stack@);
        let top = stack.pop().unwrap();
        assert(stack_trees(stack@) =~= before.drop_last());
        Self::push_token(stack, Token::LoopBlock(top));
    }

    /// Lexes the characters of `code`, tracking the open loops on a stack.
    fn lex_block<T: Cell>(&self, code: &Vec<char>) -> (r: Lexed<T>)
        ensures
            trees(r.tokens@) == lex_trees(code@, self.unknown_to_noop),
            r.unmatched_open == unmatched_open(code@, self.unknown_to_noop),
            r.unmatched_close == unmatched_close(code@, self.unknown_to_noop),
    {
        let mut stack: Vec<Vec<Token<T>>> = Vec::new();
        stack.push(Vec::new());
        let mut unmatched: usize = 0;
        let mut i: usize = 0;
        proof {
            assert(code@.take(0) =~= Seq::<char>::empty());
            assert(stack_trees(stack@) =~= seq![Seq::<Tree>::empty()]);
        }
        while i < code.len()
            invariant
                i <= code@.len(),
                stack@.len() >= 1,
                unmatched <= i,
                stack_trees(stack@) == lex_prefix(code@.take(i as int), self.unknown_to_noop).stack,
                unmatched == lex_prefix(code@.take(i as int), self.unknown_to_noop).unmatched_close,
            decreases code@.len() - i,
        {
            let c = code[i];
            proof {
                assert(code@.take(i + 1).drop_last() =~= code@.take(i as int));
            }
            if c == '[' {
                stack.push(Vec::new());
                assert(stack_trees(stack@) =~= lex_prefix(
                    code@.take(i + 1),
                    self.unknown_to_noop,
                ).stack);
            } else if c == ']' && stack.len() > 1 {
                Self::close_block(&mut stack);
            } else {
                if c == ']' {
                    unmatched = unmatched + 1;
                }
                match self.token_of(c) {
                    Some(t) => Self::push_token(&mut stack, t),
                    None => {},
                }
            }
            i = i + 1;
        }
        proof {
            assert(code@.take(i as int) =~= code@);
        }
        let open = stack.len() - 1;
        while stack.len() > 1
            invariant
                stack@.len() >= 1,
                close_all(stack_trees(stack@)) == close_all(
                    lex_prefix(code@, self.unknown_to_noop).stack,
                ),
            decreases stack@.len(),
        {
            Self::close_block(&mut stack);
        }
        let tokens = stack.pop().unwrap();
        Lexed { tokens, unmatched_open: open, unmatched_close: unmatched }
    }

    /// Lexes `code`, with the loop brackets that matched nothing.
    pub fn lex<T: Cell>(&self, code: &str) -> (r: Lexed<T>)
        ensures
            trees(r.tokens@) == lex_trees(code@, self.unknown_to_noop()),
            r.unmatched_open == unmatched_open(code@, self.unknown_to_noop()),
            r.unmatched_close == unmatched_close(code@, self.unknown_to_noop()),
    {
        let chars = chars_of(code);
        self.lex_block(&chars)
    }

    /// Lexes `code` into a nested program of tokens.
    pub fn lex_string<T: Cell>(&self, code: &str) -> (r: Vec<Token<T>>)
        ensures
            trees(r@) == lex_trees(code@, self.unknown_to_noop()),
    {
        self.lex(code).tokens
    }

    /// Turns a nested program into a flat one: each block becomes
    /// `LoopStart(d)`, its flattened contents, and `LoopEnd(d)`, where `d` is
    /// one more than the flat length of the contents.
    pub fn flatten<T: Cell>(&self, items: Vec<Token<T>>) -> (r: Vec<Instruction<T>>)
        ensures
            ops_of(r@) == flat_seq(trees(items@)),
    {
        Self::flatten_tokens(&items)
    }

    /// Puts a flattened loop body between its two brackets.
    fn wrap_block<T: Cell>(inner: Vec<Instruction<T>>) -> (r: Vec<Instruction<T>>)
        ensures
            ops_of(r@) == seq![Op::LoopStart(inner@.len() + 1)] + ops_of(inner@) + seq![
                Op::LoopEnd(inner@.len() + 1),
            ],
    {
        let mut inner = inner;
        let ghost inner_ops = ops_of(inner@);
        let ghost n = inner@.len();
        let mut wrapped: Vec<Instruction<T>> = Vec::new();
        wrapped.push(Instruction::LoopStart(0));
        wrapped.append(&mut inner);
        let size = wrapped.len();
        wrapped.set(0, Instruction::LoopStart(size));
        wrapped.push(Instruction::LoopEnd(size));
        assert(ops_of(wrapped@) =~= seq![Op::LoopStart(n + 1)] + inner_ops + seq![
            Op::LoopEnd(n + 1),
        ]);
        wrapped
    }

    fn flatten_tokens<T: Cell>(items: &Vec<Token<T>>) -> (r: Vec<Instruction<T>>)
        ensures
            ops_of(r@) == flat_seq(trees(items@)),
        decreases items,
    {
        let mut instructions: Vec<Instruction<T>> = Vec::new();
        let mut i: usize = 0;
        proof {
            assert(items@.take(0) =~= Seq::<Token<T>>::empty());
            assert(ops_of(instructions@) =~= Seq::<Op>::empty());
        }
        while i < items.len()
            invariant
                i <= items@.len(),
                ops_of(instructions@) == flat_seq(trees(items@.take(i as int))),
            decreases items@.len() - i,
        {
            let ghost prefix = trees(items@.take(i as int));
            let ghost item = items@[i as int];
            let ghost before = instructions@;
            proof {
                assert(items@.take(i + 1) =~= items@.take(i as int).push(item));
                lemma_trees_push(items@.take(i as int), item);
                lemma_flat_seq_push(prefix, item.tree());
            }
            match &items[i] {
                Token::Instruction(x) => {
                    instructions.push(*x);
                    assert(ops_of(instructions@) =~= ops_of(before) + seq![x@]);
                },
                Token::LoopBlock(block) => {
                    proof {
                        assert(decreases_to!(items@ => items@[i as int]));
                    }
                    let inner = Self::flatten_tokens(block);
                    let mut wrapped = Self::wrap_block(inner);
                    let ghost block_ops = ops_of(wrapped@);
                    instructions.append(&mut wrapped);
                    assert(ops_of(instructions@) =~= ops_of(before) + block_ops);
                },
            }
            assert(ops_of(instructions@) == ops_of(before) + flat_tree(item.tree()));
            i = i + 1;
        }
        proof {
            assert(items@.take(i as int) =~= items@);
        }
        instructions
    }
}

} // verus!

use vstd::prelude::*;

use crate::cell::Cell;
use crate::instruction::{Instruction, Op};

verus! {

/// The mathematical content of a token: a leaf operation, or a loop block
/// holding the sequence of its children.
pub enum Tree {
    Leaf(Op),
    Block(Seq<Tree>),
}

/// A node of the nested program produced by the lexer.
#[derive(Debug, PartialEq)]
pub enum Token<T: Cell> {
    Instruction(Instruction<T>),
    LoopBlock(Vec<Token<T>>),
}

impl<T: Cell> Token<T> {
    pub open spec fn tree(self) -> Tree
        decreases self,
    {
        match self {
            Token::Instruction(i) => Tree::Leaf(i@),
            Token::LoopBlock(v) => Tree::Block(trees(v@)),
        }
    }

    pub open spec fn join_fits(self, other: Token<T>) -> bool {
        match (self, other) {
            (Token::Instruction(x), Token::Instruction(y)) => x.join_fits(y),
            _ => false,
        }
    }

    pub fn can_join(&self, other: &Token<T>) -> (r: bool)
        ensures
            r == (self.tree() is Leaf && other.tree() is Leaf && self.tree()->Leaf_0.joinable(
                other.tree()->Leaf_0,
            )),
    {
        match (self, other) {
            (Token::Instruction(x), Token::Instruction(y)) => x.can_join(y),
            _ => false,
        }
    }

    /// Fuses two instruction tokens (see `Instruction::join`).
    pub fn join(self, other: Token<T>) -> (r: Token<T>)
        requires
            self.join_fits(other),
        ensures
            r.tree() == Tree::Leaf(self.tree()->Leaf_0.join(other.tree()->Leaf_0, T::modulus())),
    {
        match (self, other) {
            (Token::Instruction(x), Token::Instruction(y)) => Token::Instruction(x.join(y)),
            (this, _) => this,
        }
    }
}

/// The trees of a sequence of tokens.
pub open spec fn trees<T: Cell>(s: Seq<Token<T>>) -> Seq<Tree>
    decreases s,
{
    if s.len() == 0 {
        Seq::empty()
    } else {
        trees(s.drop_last()).push(s.last().tree())
    }
}

pub proof fn lemma_trees_push<T: Cell>(s: Seq<Token<T>>, t: Token<T>)
    ensures
        trees(s.push(t)) == trees(s).push(t.tree()),
{
    assert(s.push(t).drop_last() =~= s);
}

/// The flat program of a sequence of trees: each block of flat length `n`
/// becomes `LoopStart(n + 1)`, its flat contents, and `LoopEnd(n + 1)`.
pub open spec fn flat_seq(ts: Seq<Tree>) -> Seq<Op>
    decreases ts,
{
    if ts.len() == 0 {
        Seq::empty()
    } else {
        flat_seq(ts.drop_last()) + flat_tree(ts.last())
    }
}

pub proof fn lemma_flat_seq_push(ts: Seq<Tree>, t: Tree)
    ensures
        flat_seq(ts.push(t)) == flat_seq(ts) + flat_tree(t),
{
    assert(ts.push(t).drop_last() =~= ts);
}

pub open spec fn flat_tree(t: Tree) -> Seq<Op>
    decreases t,
{
    match t {
        Tree::Leaf(op) => seq![op],
        Tree::Block(children) => {
            let inner = flat_seq(children);
            seq![Op::LoopStart(inner.len() + 1)] + inner + seq![Op::LoopEnd(inner.len() + 1)]
        },
    }
}

/// No leaf of the tree is a loop bracket: loops are blocks.
pub open spec fn plain_tree(t: Tree) -> bool
    decreases t,
{
    match t {
        Tree::Leaf(op) => !op.is_loop(),
        Tree::Block(children) => plain_seq(children),
    }
}

pub open spec fn plain_seq(ts: Seq<Tree>) -> bool
    decreases ts,
{
    ts.len() == 0 || (plain_seq(ts.drop_last()) && plain_tree(ts.last()))
}

pub proof fn lemma_plain_push(ts: Seq<Tree>, t: Tree)
    requires
        plain_seq(ts),
        plain_tree(t),
    ensures
        plain_seq(ts.push(t)),
{
    assert(ts.push(t).drop_last() =~= ts);
}

/// The loop bracket at `i`, if any, has its partner at the distance it
/// carries.
pub open spec fn bracket_ok(s: Seq<Op>, i: int) -> bool {
    match s[i] {
        Op::LoopStart(d) => 1 <= d && i + d < s.len() && s[i + d] == Op::LoopEnd(d),
        Op::LoopEnd(d) => 1 <= d && d <= i && s[i - d] == Op::LoopStart(d),
        _ => true,
    }
}

/// From every `LoopStart(d)` at `i`, `i + d` holds `LoopEnd(d)`; from every
/// `LoopEnd(d)` at `i`, `i - d` holds `LoopStart(d)`.
pub open spec fn brackets_matched(s: Seq<Op>) -> bool {
    forall|i: int| 0 <= i < s.len() ==> #[trigger] bracket_ok(s, i)
}

proof fn lemma_matched_concat(a: Seq<Op>, b: Seq<Op>)
    requires
        brackets_matched(a),
        brackets_matched(b),
    ensures
        brackets_matched(a + b),
{
    let s = a + b;
    assert forall|i: int| 0 <= i < s.len() implies #[trigger] bracket_ok(s, i) by {
        if i < a.len() {
            assert(bracket_ok(a, i));
        } else {
            assert(bracket_ok(b, i - a.len()));
        }
    }
}

proof fn lemma_matched_wrap(inner: Seq<Op>)
    requires
        brackets_matched(inner),
    ensures
        brackets_matched(
            seq![Op::LoopStart(inner.len() + 1)] + inner + seq![Op::LoopEnd(inner.len() + 1)],
        ),
{
    let n = inner.len();
    let s = seq![Op::LoopStart(n + 1)] + inner + seq![Op::LoopEnd(n + 1)];
    assert forall|i: int| 0 <= i < s.len() implies #[trigger] bracket_ok(s, i) by {
        if 1 <= i <= n {
            assert(s[i] == inner[i - 1]);
            assert(bracket_ok(inner, i - 1));
        }
    }
}

/// Flattening a sequence of trees whose loops are all blocks gives loop
/// brackets that match at the distances they carry.
pub proof fn lemma_flat_seq_matched(ts: Seq<Tree>)
    requires
        plain_seq(ts),
    ensures
        brackets_matched(flat_seq(ts)),
    decreases ts,
{
    if ts.len() > 0 {
        lemma_flat_seq_matched(ts.drop_last());
        lemma_flat_tree_matched(ts.last());
        lemma_matched_concat(flat_seq(ts.drop_last()), flat_tree(ts.last()));
    }
}

/// Flattening a tree whose loops are all blocks gives matched loop
/// brackets.
pub proof fn lemma_flat_tree_matched(t: Tree)
    requires
        plain_tree(t),
    ensures
        brackets_matched(flat_tree(t)),
    decreases t,
{
    match t {
        Tree::Leaf(op) => {
            let s = seq![op];
            assert(bracket_ok(s, 0));
        },
        Tree::Block(children) => {
            lemma_flat_seq_matched(children);
            lemma_matched_wrap(flat_seq(children));
        },
    }
}

} // verus!

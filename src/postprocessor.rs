use vstd::prelude::*;

use crate::tape::{join_all, lemma_join_all_joinable};
use crate::cell::Cell;
use crate::instruction::{Instruction, Op};
use crate::token::{lemma_plain_push, lemma_trees_push, plain_seq, plain_tree, trees, Token, Tree};

verus! {

impl Op {
    /// Two operations are fused when they are joinable and, for cursor
    /// moves, the summed count still fits in `usize`.
    pub open spec fn fusable(self, other: Op) -> bool {
        &&& self.joinable(other)
        &&& match (self, other) {
            (Op::IncreaseIndex(x), Op::IncreaseIndex(y)) => x + y <= usize::MAX,
            (Op::DecreaseIndex(x), Op::DecreaseIndex(y)) => x + y <= usize::MAX,
            _ => true,
        }
    }
}

pub open spec fn leaves_fusable(a: Tree, b: Tree) -> bool {
    a is Leaf && b is Leaf && a->Leaf_0.fusable(b->Leaf_0)
}

/// Appends `t` to an already fused sequence, merging it into the last item
/// where the two fuse.
pub open spec fn fuse_push(prev: Seq<Tree>, t: Tree, m: nat) -> Seq<Tree> {
    if prev.len() > 0 && leaves_fusable(prev.last(), t) {
        prev.drop_last().push(Tree::Leaf(prev.last()->Leaf_0.join(t->Leaf_0, m)))
    } else {
        prev.push(t)
    }
}

/// Run-length fusion of a sequence of trees, inside blocks as well, for
/// cells with `m` distinct values.
pub open spec fn fuse_seq(ts: Seq<Tree>, m: nat) -> Seq<Tree>
    decreases ts,
{
    if ts.len() == 0 {
        Seq::empty()
    } else {
        fuse_push(fuse_seq(ts.drop_last(), m), fuse_tree(ts.last(), m), m)
    }
}

pub open spec fn fuse_tree(t: Tree, m: nat) -> Tree
    decreases t,
{
    match t {
        Tree::Leaf(op) => Tree::Leaf(op),
        Tree::Block(children) => Tree::Block(fuse_seq(children, m)),
    }
}

/// Fusion keeps every loop a block.
pub proof fn lemma_fuse_seq_plain(ts: Seq<Tree>, m: nat)
    requires
        plain_seq(ts),
    ensures
        plain_seq(fuse_seq(ts, m)),
    decreases ts,
{
    if ts.len() > 0 {
        lemma_fuse_seq_plain(ts.drop_last(), m);
        lemma_fuse_tree_plain(ts.last(), m);
        let prev = fuse_seq(ts.drop_last(), m);
        let t = fuse_tree(ts.last(), m);
        if prev.len() > 0 && leaves_fusable(prev.last(), t) {
            assert(prev.drop_last().push(prev.last()) =~= prev);
            assert(plain_seq(prev.drop_last()));
            lemma_plain_push(prev.drop_last(), Tree::Leaf(prev.last()->Leaf_0.join(t->Leaf_0, m)));
        } else {
            lemma_plain_push(prev, t);
        }
    }
}

pub proof fn lemma_fuse_tree_plain(t: Tree, m: nat)
    requires
        plain_tree(t),
    ensures
        plain_tree(fuse_tree(t, m)),
    decreases t,
{
    match t {
        Tree::Leaf(_) => {},
        Tree::Block(children) => lemma_fuse_seq_plain(children, m),
    }
}

/// Each operation as a leaf.
pub open spec fn leaves(ops: Seq<Op>) -> Seq<Tree> {
    ops.map_values(|op: Op| Tree::Leaf(op))
}

/// The cursor count of a cursor move; zero for anything else.
pub open spec fn index_amount(op: Op) -> nat {
    match op {
        Op::IncreaseIndex(n) => n,
        Op::DecreaseIndex(n) => n,
        _ => 0,
    }
}

/// The summed cursor counts of a sequence of operations.
pub open spec fn total_index(ops: Seq<Op>) -> nat
    decreases ops.len(),
{
    if ops.len() == 0 {
        0
    } else {
        total_index(ops.drop_last()) + index_amount(ops.last())
    }
}

proof fn lemma_join_all_amount(ops: Seq<Op>, m: nat)
    requires
        ops.len() >= 1,
        forall|i: int| 0 <= i < ops.len() ==> ops[0].joinable(#[trigger] ops[i]),
    ensures
        index_amount(join_all(ops, m)) == total_index(ops),
    decreases ops.len(),
{
    let init = ops.drop_last();
    if ops.len() == 1 {
        assert(total_index(init) == 0);
    } else {
        assert(init[0] == ops[0]);
        assert forall|i: int| 0 <= i < init.len() implies init[0].joinable(#[trigger] init[i]) by {
            assert(init[i] == ops[i]);
        }
        lemma_join_all_amount(init, m);
        lemma_join_all_joinable(init, m);
        assert(ops[0].joinable(ops[ops.len() - 1]));
    }
}

/// The fusion pass turns a run of cursor moves in one direction, or of
/// value changes in one direction, into the single operation that joins
/// them all, provided the summed cursor count fits in `usize`.
pub proof fn lemma_run_fuses_to_one(ops: Seq<Op>, m: nat)
    requires
        ops.len() >= 1,
        forall|i: int| 0 <= i < ops.len() ==> ops[0].joinable(#[trigger] ops[i]),
        total_index(ops) <= usize::MAX,
    ensures
        fuse_seq(leaves(ops), m) == seq![Tree::Leaf(join_all(ops, m))],
    decreases ops.len(),
{
    let init = ops.drop_last();
    let ts = leaves(ops);
    assert(ts.drop_last() =~= leaves(init));
    assert(ts.last() == Tree::Leaf(ops.last()));
    if ops.len() == 1 {
        assert(fuse_seq(leaves(init), m) =~= Seq::<Tree>::empty());
        assert(fuse_seq(ts, m) == fuse_push(Seq::<Tree>::empty(), Tree::Leaf(ops[0]), m));
        assert(Seq::<Tree>::empty().push(Tree::Leaf(ops[0])) =~= seq![Tree::Leaf(ops[0])]);
    } else {
        assert(init[0] == ops[0]);
        assert forall|i: int| 0 <= i < init.len() implies init[0].joinable(#[trigger] init[i]) by {
            assert(init[i] == ops[i]);
        }
        lemma_run_fuses_to_one(init, m);
        lemma_join_all_joinable(init, m);
        lemma_join_all_amount(init, m);
        let j = join_all(init, m);
        let l = ops.last();
        assert(ops[0].joinable(ops[ops.len() - 1]));
        assert(j.fusable(l));
        let prev = seq![Tree::Leaf(j)];
        assert(fuse_seq(ts.drop_last(), m) == prev);
        assert(fuse_tree(ts.last(), m) == Tree::Leaf(l));
        assert(leaves_fusable(prev.last(), Tree::Leaf(l)));
        assert(fuse_seq(ts, m) == fuse_push(prev, Tree::Leaf(l), m));
        assert(prev.drop_last().push(Tree::Leaf(j.join(l, m))) =~= seq![Tree::Leaf(j.join(l, m))]);
        assert(join_all(ops, m) == j.join(l, m));
    }
}

/// The fusion pass: merges runs of joinable instructions.
pub struct AggregateSameProcessor {}

impl AggregateSameProcessor {
    pub fn create() -> (r: AggregateSameProcessor) {
        AggregateSameProcessor {  }
    }

    fn fusable<T: Cell>(a: &Token<T>, b: &Token<T>) -> (r: bool)
        ensures
            r == leaves_fusable(a.tree(), b.tree()),
            r ==> a.join_fits(*b),
    {
        match (a, b) {
            (Token::Instruction(x), Token::Instruction(y)) => {
                if !x.can_join(y) {
                    false
                } else {
                    match (x, y) {
                        (Instruction::IncreaseIndex(p), Instruction::IncreaseIndex(q)) => *p
                            <= usize::MAX - *q,
                        (Instruction::DecreaseIndex(p), Instruction::DecreaseIndex(q)) => *p
                            <= usize::MAX - *q,
                        _ => true,
                    }
                }
            },
            _ => false,
        }
    }

    /// Fuses each run of joinable instructions into one, in the program and
    /// in every loop body.
    pub fn process<T: Cell>(&self, code: Vec<Token<T>>) -> (r: Vec<Token<T>>)
        ensures
            trees(r@) == fuse_seq(trees(code@), T::modulus()),
        decreases code,
    {
        let ghost m = T::modulus();
        let ghost whole = code@;
        let mut result: Vec<Token<T>> = Vec::new();
        proof {
            assert(whole.take(0) =~= Seq::<Token<T>>::empty());
        }
        for item in it: code.into_iter()
            invariant
                it.seq() == whole,
                whole == code@,
                trees(result@) == fuse_seq(trees(whole.take(it.index() as int)), m),
                m == T::modulus(),
        {
            let ghost pos = it.index() as int;
            let ghost prev = trees(result@);
            proof {
                assert(item == whole[pos]);
                assert(whole.take(pos + 1).drop_last() =~= whole.take(pos));
                lemma_trees_push(whole.take(pos), whole[pos]);
                assert(whole.take(pos).push(whole[pos]) =~= whole.take(pos + 1));
                assert(decreases_to!(whole => whole[pos]));
                let ts = trees(whole.take(pos));
                assert(ts.push(whole[pos].tree()).drop_last() =~= ts);
                assert(fuse_seq(trees(whole.take(pos + 1)), m) == fuse_push(
                    prev,
                    fuse_tree(whole[pos].tree(), m),
                    m,
                ));
            }
            let item = match item {
                Token::LoopBlock(content) => Token::LoopBlock(self.process(content)),
                item => item,
            };
            assert(item.tree() == fuse_tree(whole[pos].tree(), m));
            if result.len() > 0 && Self::fusable(&result[result.len() - 1], &item) {
                let last = result.pop().unwrap();
                proof {
                    lemma_trees_push(result@, last);
                    assert(prev.drop_last() =~= trees(result@));
                    assert(prev.last() == last.tree());
                }
                let joined = last.join(item);
                proof {
                    lemma_trees_push(result@, joined);
                }
                result.push(joined);
            } else {
                proof {
                    lemma_trees_push(result@, item);
                }
                result.push(item);
            }
        }
        proof {
            assert(whole.take(whole.len() as int) =~= whole);
        }
        result
    }
}

} // verus!

use vstd::arithmetic::div_mod::{
    lemma_add_mod_noop, lemma_fundamental_div_mod, lemma_mod_add_multiples_vanish, lemma_mod_bound,
    lemma_mod_multiples_vanish, lemma_mod_twice, lemma_small_mod, lemma_sub_mod_noop,
};
use vstd::prelude::*;

use crate::cell::{wrap_add, wrap_sub};
use crate::instruction::Op;

verus! {

/// The cursor moved `n` cells to the right on a tape of `len` cells.
pub open spec fn move_right(cursor: nat, n: nat, len: nat) -> nat {
    (((cursor + n) as int) % (len as int)) as nat
}

/// The cursor moved `n` cells to the left on a tape of `len` cells.
pub open spec fn move_left(cursor: nat, n: nat, len: nat) -> nat {
    (((cursor as int) - (n as int)) % (len as int)) as nat
}

/// A tape in the abstract: its cells' values and the cursor.
pub struct Tape {
    pub cells: Seq<nat>,
    pub cursor: nat,
}

impl Tape {
    /// The cursor is on the tape and every value fits a cell with `m`
    /// distinct values.
    pub open spec fn wf(self, m: nat) -> bool {
        &&& self.cursor < self.cells.len()
        &&& forall|i: int| 0 <= i < self.cells.len() ==> #[trigger] self.cells[i] < m
    }
}

/// What an operation does to the tape; operations other than cursor moves
/// and value changes leave it alone.
pub open spec fn apply_op(op: Op, t: Tape, m: nat) -> Tape {
    match op {
        Op::IncreaseIndex(n) => Tape { cells: t.cells, cursor: move_right(t.cursor, n, t.cells.len()) },
        Op::DecreaseIndex(n) => Tape { cells: t.cells, cursor: move_left(t.cursor, n, t.cells.len()) },
        Op::IncreaseValue(v) => Tape {
            cells: t.cells.update(t.cursor as int, wrap_add(t.cells[t.cursor as int], v, m)),
            cursor: t.cursor,
        },
        Op::DecreaseValue(v) => Tape {
            cells: t.cells.update(t.cursor as int, wrap_sub(t.cells[t.cursor as int], v, m)),
            cursor: t.cursor,
        },
        _ => t,
    }
}

/// The operations applied one after the other.
pub open spec fn apply_ops(ops: Seq<Op>, t: Tape, m: nat) -> Tape
    decreases ops.len(),
{
    if ops.len() == 0 {
        t
    } else {
        apply_op(ops.last(), apply_ops(ops.drop_last(), t, m), m)
    }
}

/// The operations joined into one, left to right.
pub open spec fn join_all(ops: Seq<Op>, m: nat) -> Op
    decreases ops.len(),
{
    if ops.len() <= 1 {
        ops[0]
    } else {
        join_all(ops.drop_last(), m).join(ops.last(), m)
    }
}

/// Moving by a whole number of turns of the tape changes nothing; only the
/// remainder counts.
proof fn lemma_move_remainder(cursor: nat, n: nat, len: nat)
    requires
        len > 0,
    ensures
        move_right(cursor, n, len) == move_right(cursor, n % len, len),
        move_left(cursor, n, len) == move_left(cursor, n % len, len),
{
    let l = len as int;
    lemma_fundamental_div_mod(n as int, l);
    let q = (n as int) / l;
    let r = (n as int) % l;
    lemma_mod_multiples_vanish(q, cursor + r, l);
    assert(cursor + n == l * q + (cursor + r)) by (nonlinear_arith)
        requires
            n == l * q + r,
    ;
    lemma_mod_multiples_vanish(-q, cursor - r, l);
    assert(cursor - n == l * (-q) + (cursor - r)) by (nonlinear_arith)
        requires
            n == l * q + r,
    ;
}

/// Moving the cursor by the length of the tape, either way, leaves it where
/// it was.
pub proof fn lemma_tape_wraparound(cursor: nat, len: nat)
    requires
        cursor < len,
    ensures
        move_right(cursor, len, len) == cursor,
        move_left(cursor, len, len) == cursor,
{
    lemma_mod_add_multiples_vanish(cursor as int, len as int);
    lemma_small_mod(cursor, len);
    assert((cursor as int) - (len as int) == -(len as int) + cursor);
    lemma_mod_multiples_vanish(-1, cursor as int, len as int);
}

proof fn lemma_apply_two(a: Op, b: Op, t: Tape, m: nat)
    requires
        a.joinable(b),
        t.wf(m),
        m > 0,
    ensures
        apply_op(b, apply_op(a, t, m), m) == apply_op(a.join(b, m), t, m),
        apply_op(a, t, m).wf(m),
{
    let l = t.cells.len() as int;
    let mi = m as int;
    let c = t.cursor as int;
    match (a, b) {
        (Op::IncreaseIndex(x), Op::IncreaseIndex(y)) => {
            let (x, y) = (x as int, y as int);
            lemma_mod_bound(c + x, l);
            assert(((c + x) % l + y) % l == (c + (x + y)) % l) by {
                lemma_add_mod_noop(c + x, y, l);
                lemma_add_mod_noop((c + x) % l, y, l);
                lemma_mod_twice(c + x, l);
                lemma_small_mod((y % l) as nat, l as nat);
                lemma_mod_bound(y, l);
            }
        },
        (Op::DecreaseIndex(x), Op::DecreaseIndex(y)) => {
            let (x, y) = (x as int, y as int);
            lemma_mod_bound(c - x, l);
            assert(((c - x) % l - y) % l == (c - (x + y)) % l) by {
                lemma_sub_mod_noop(c - x, y, l);
                lemma_sub_mod_noop((c - x) % l, y, l);
                lemma_mod_twice(c - x, l);
            }
        },
        (Op::IncreaseValue(x), Op::IncreaseValue(y)) => {
            let (x, y) = (x as int, y as int);
            let v = t.cells[c] as int;
            lemma_mod_bound(v + x, mi);
            lemma_mod_bound(x + y, mi);
            assert(((v + x) % mi + y) % mi == (v + (x + y) % mi) % mi) by {
                lemma_add_mod_noop(v + x, y, mi);
                lemma_add_mod_noop((v + x) % mi, y, mi);
                lemma_mod_twice(v + x, mi);
                lemma_add_mod_noop(v, x + y, mi);
                lemma_add_mod_noop(v, (x + y) % mi, mi);
                lemma_mod_twice(x + y, mi);
            }
            assert(apply_op(b, apply_op(a, t, m), m).cells =~= apply_op(a.join(b, m), t, m).cells);
        },
        (Op::DecreaseValue(x), Op::DecreaseValue(y)) => {
            let (x, y) = (x as int, y as int);
            let v = t.cells[c] as int;
            lemma_mod_bound(v - x, mi);
            lemma_mod_bound(x + y, mi);
            assert(((v - x) % mi - y) % mi == (v - (x + y) % mi) % mi) by {
                lemma_sub_mod_noop(v - x, y, mi);
                lemma_sub_mod_noop((v - x) % mi, y, mi);
                lemma_mod_twice(v - x, mi);
                lemma_sub_mod_noop(v, x + y, mi);
                lemma_sub_mod_noop(v, (x + y) % mi, mi);
                lemma_mod_twice(x + y, mi);
            }
            assert(apply_op(b, apply_op(a, t, m), m).cells =~= apply_op(a.join(b, m), t, m).cells);
        },
        _ => {},
    }
    let t2 = apply_op(a, t, m);
    assert forall|i: int| 0 <= i < t2.cells.len() implies #[trigger] t2.cells[i] < m by {
        if i == c {
            match a {
                Op::IncreaseValue(x) => lemma_mod_bound(t.cells[c] + x as int, mi),
                Op::DecreaseValue(x) => lemma_mod_bound(t.cells[c] - x as int, mi),
                _ => {},
            }
        }
    }
    match a {
        Op::IncreaseIndex(x) => lemma_mod_bound(c + x as int, l),
        Op::DecreaseIndex(x) => lemma_mod_bound(c - x as int, l),
        _ => {},
    }
}

/// Joining a run of one kind gives an operation of that kind.
pub proof fn lemma_join_all_joinable(ops: Seq<Op>, m: nat)
    requires
        ops.len() >= 1,
        forall|i: int| 0 <= i < ops.len() ==> ops[0].joinable(#[trigger] ops[i]),
    ensures
        ops[0].joinable(join_all(ops, m)),
    decreases ops.len(),
{
    if ops.len() > 1 {
        let init = ops.drop_last();
        assert(init[0] == ops[0]);
        assert forall|i: int| 0 <= i < init.len() implies init[0].joinable(#[trigger] init[i]) by {
            assert(init[i] == ops[i]);
        }
        lemma_join_all_joinable(init, m);
        assert(ops[0].joinable(ops[ops.len() - 1]));
    }
}

/// Fusion is sound: a run of cursor moves in one direction, or of value
/// changes in one direction, does to the tape what their join does, for
/// every cell width.
pub proof fn lemma_fusion_sound(ops: Seq<Op>, t: Tape, m: nat)
    requires
        ops.len() >= 1,
        forall|i: int| 0 <= i < ops.len() ==> ops[0].joinable(#[trigger] ops[i]),
        t.wf(m),
        m > 0,
    ensures
        apply_ops(ops, t, m) == apply_op(join_all(ops, m), t, m),
    decreases ops.len(),
{
    if ops.len() == 1 {
        assert(apply_ops(ops.drop_last(), t, m) == t);
    } else {
        let init = ops.drop_last();
        assert(init[0] == ops[0]);
        assert forall|i: int| 0 <= i < init.len() implies init[0].joinable(#[trigger] init[i]) by {
            assert(init[i] == ops[i]);
        }
        lemma_fusion_sound(init, t, m);
        lemma_join_all_joinable(init, m);
        let j = join_all(init, m);
        assert(ops[0].joinable(ops[ops.len() - 1]));
        assert(j.joinable(ops.last()));
        lemma_apply_two(j, ops.last(), t, m);
        assert(apply_ops(ops, t, m) == apply_op(ops.last(), apply_ops(init, t, m), m));
        assert(join_all(ops, m) == j.join(ops.last(), m));
    }
}

/// Moves `index` by `n` cells to the right on a tape of `size` cells.
pub fn index_right(index: usize, n: usize, size: usize) -> (r: usize)
    requires
        index < size,
    ensures
        r == move_right(index as nat, n as nat, size as nat),
        r < size,
{
    let k = n % size;
    proof {
        lemma_move_remainder(index as nat, n as nat, size as nat);
    }
    let r = if index >= size - k {
        index - (size - k)
    } else {
        index + k
    };
    proof {
        let s = size as int;
        if index >= size - k {
            lemma_mod_multiples_vanish(1, r as int, s);
            lemma_small_mod(r as nat, size as nat);
            assert(index + k == s * 1 + r);
        } else {
            lemma_small_mod((index + k) as nat, size as nat);
        }
    }
    r
}

/// Moves `index` by `n` cells to the left on a tape of `size` cells.
pub fn index_left(index: usize, n: usize, size: usize) -> (r: usize)
    requires
        index < size,
    ensures
        r == move_left(index as nat, n as nat, size as nat),
        r < size,
{
    let k = n % size;
    proof {
        lemma_move_remainder(index as nat, n as nat, size as nat);
    }
    let r = if index >= k {
        index - k
    } else {
        index + (size - k)
    };
    proof {
        let s = size as int;
        if index >= k {
            lemma_small_mod(r as nat, size as nat);
        } else {
            lemma_mod_multiples_vanish(-1, r as int, s);
            lemma_small_mod(r as nat, size as nat);
            assert(index - k == s * (-1) + r);
        }
    }
    r
}

} // verus!

use vstd::prelude::*;

use crate::cell::Cell;

verus! {

/// The ASCII code of the hexadecimal digit `d`, upper case.
pub open spec fn hex_digit(d: nat) -> u8 {
    if d < 10 {
        (48 + d) as u8
    } else {
        (55 + d) as u8
    }
}

/// `n` in hexadecimal, upper case, without leading zeros.
pub open spec fn hex_of(n: nat) -> Seq<u8>
    decreases n,
{
    if n < 16 {
        seq![hex_digit(n)]
    } else {
        hex_of(n / 16).push(hex_digit(n % 16))
    }
}

/// `n` in hexadecimal, padded with zeros to at least `width` digits.
pub open spec fn padded_hex(n: nat, width: nat) -> Seq<u8> {
    let h = hex_of(n);
    if h.len() >= width {
        h
    } else {
        Seq::new((width - h.len()) as nat, |i: int| 48u8) + h
    }
}

pub open spec fn is_ascii_alphanumeric(b: u8) -> bool {
    (48 <= b <= 57) || (65 <= b <= 90) || (97 <= b <= 122)
}

/// The character shown for a byte in the text column.
pub open spec fn shown_byte(b: u8) -> u8 {
    if is_ascii_alphanumeric(b) {
        b
    } else {
        46u8
    }
}

/// The extra space after every eighth cell of a row.
pub open spec fn group_gap(i: nat) -> Seq<u8> {
    if (i + 1) % 8 == 0 {
        seq![32u8]
    } else {
        Seq::empty()
    }
}

/// The hexadecimal column for the first `k` cells of the row at `from`.
pub open spec fn row_hex(cells: Seq<nat>, from: nat, k: nat) -> Seq<u8>
    decreases k,
{
    if k == 0 {
        Seq::empty()
    } else {
        let i = (k - 1) as nat;
        row_hex(cells, from, i) + padded_hex(cells[(from + i) as int], 2) + seq![32u8] + group_gap(i)
    }
}

/// The text column for the first `k` cells of the row at `from`.
pub open spec fn row_text(cells: Seq<nat>, from: nat, k: nat) -> Seq<u8>
    decreases k,
{
    if k == 0 {
        Seq::empty()
    } else {
        let i = (k - 1) as nat;
        row_text(cells, from, i) + seq![shown_byte((cells[(from + i) as int] % 256) as u8)] + group_gap(i)
    }
}

/// Cells shown per row.
pub const ROW_SIZE: usize = 32;

/// One row of the dump: the address of its first cell, up to `ROW_SIZE`
/// cells in hexadecimal, then the same cells as text.
pub open spec fn row_line(cells: Seq<nat>, from: nat, end: nat) -> Seq<u8> {
    let k = if from + 32 <= end {
        32
    } else {
        (end - from) as nat
    };
    seq![32u8, 32u8, 48u8, 120u8] + padded_hex(from, 6) + seq![58u8, 32u8, 32u8, 32u8, 32u8]
        + row_hex(cells, from, k) + seq![32u8, 32u8, 32u8, 32u8] + row_text(cells, from, k)
        + seq![10u8]
}

/// The rows from `from` up to `end`, `ROW_SIZE` cells apart.
pub open spec fn rows(cells: Seq<nat>, from: nat, end: nat) -> Seq<u8>
    decreases end - from,
{
    if from >= end {
        Seq::empty()
    } else if from + 32 >= end {
        row_line(cells, from, end)
    } else {
        row_line(cells, from, end) + rows(cells, from + 32, end)
    }
}

/// The first cell shown: `start` rounded down to a row, within the tape.
pub open spec fn dump_start(start: nat, len: nat) -> nat {
    let s = (start - start % 32) as nat;
    if s <= len - 1 {
        s
    } else {
        (len - 1) as nat
    }
}

/// Where the rows end: `end` rounded up to a row, but before the last cell.
pub open spec fn dump_end(end: nat, len: nat) -> nat {
    let e = if end % 32 == 0 {
        end
    } else {
        (end + 32 - end % 32) as nat
    };
    if e <= len - 1 {
        e
    } else {
        (len - 1) as nat
    }
}

/// The text of a dump of `cells` between `start` and `end`.
pub open spec fn dump_text(cells: Seq<nat>, start: nat, end: nat) -> Seq<u8> {
    "Buffer {\n"@.map_values(|c: char| c as u8) + rows(
        cells,
        dump_start(start, cells.len()),
        dump_end(end, cells.len()),
    ) + seq![125u8]
}

proof fn lemma_hex_step(m: nat)
    requires
        m > 0,
    ensures
        hex_of(m) == (if m / 16 > 0 {
            hex_of(m / 16)
        } else {
            Seq::empty()
        }).push(hex_digit(m % 16)),
{
    if m < 16 {
        assert(Seq::<u8>::empty().push(hex_digit(m)) =~= seq![hex_digit(m)]);
    }
}

fn hex_digit_exec(d: u64) -> (r: u8)
    requires
        d < 16,
    ensures
        r == hex_digit(d as nat),
{
    if d < 10 {
        48 + d as u8
    } else {
        55 + d as u8
    }
}

/// Appends `n` in hexadecimal, padded with zeros to `width` digits.
fn push_hex(out: &mut Vec<u8>, n: u64, width: usize)
    ensures
        final(out)@ == old(out)@ + padded_hex(n as nat, width as nat),
{
    let mut digits: Vec<u8> = Vec::new();
    digits.push(hex_digit_exec(n % 16));
    let mut m = n / 16;
    proof {
        if n > 0 {
            lemma_hex_step(n as nat);
        }
    }
    while m > 0
        invariant
            hex_of(n as nat) == (if m > 0 {
                hex_of(m as nat)
            } else {
                Seq::empty()
            }) + digits@,
        decreases m,
    {
        proof {
            lemma_hex_step(m as nat);
        }
        let d = hex_digit_exec(m % 16);
        let ghost old_digits = digits@;
        digits.insert(0, d);
        assert(digits@ =~= seq![d] + old_digits);
        m = m / 16;
        assert(hex_of(n as nat) =~= (if m > 0 {
            hex_of(m as nat)
        } else {
            Seq::empty()
        }) + digits@);
    }
    assert(digits@ =~= hex_of(n as nat));
    let ghost before = out@;
    let mut pad: usize = 0;
    let count = digits.len();
    let missing = if count < width {
        width - count
    } else {
        0
    };
    while pad < missing
        invariant
            pad <= missing,
            out@ == before + Seq::new(pad as nat, |i: int| 48u8),
        decreases missing - pad,
    {
        out.push(48);
        pad = pad + 1;
        assert(out@ =~= before + Seq::new(pad as nat, |i: int| 48u8));
    }
    out.append(&mut digits);
    assert(out@ =~= old(out)@ + padded_hex(n as nat, width as nat));
}

/// A fixed-size tape of cells.
pub struct VecBuffer<T: Cell> {
    buffer: Vec<T>,
}

impl<T: Cell> View for VecBuffer<T> {
    type V = Seq<nat>;

    closed spec fn view(&self) -> Seq<nat> {
        self.buffer@.map_values(|c: T| c.as_nat())
    }
}

impl<T: Cell> VecBuffer<T> {
    /// Every value fits a cell.
    pub proof fn lemma_values_fit(&self)
        ensures
            forall|i: int| 0 <= i < self@.len() ==> #[trigger] self@[i] < T::modulus(),
    {
        assert forall|i: int| 0 <= i < self@.len() implies #[trigger] self@[i] < T::modulus() by {
            self.buffer@[i].lemma_range();
        }
    }

    /// A tape of `array_size` cells, all zero.
    pub fn new(array_size: usize) -> (r: VecBuffer<T>)
        ensures
            r@ == Seq::new(array_size as nat, |i: int| 0nat),
    {
        let mut buffer: Vec<T> = Vec::new();
        let mut i: usize = 0;
        while i < array_size
            invariant
                i <= array_size,
                buffer@.len() == i,
                forall|j: int| 0 <= j < i ==> (#[trigger] buffer@[j]).as_nat() == 0,
            decreases array_size - i,
        {
            buffer.push(T::zero());
            i = i + 1;
        }
        let r = VecBuffer { buffer };
        assert(r@ =~= Seq::new(array_size as nat, |i: int| 0nat));
        r
    }

    pub fn set_value(&mut self, index: usize, value: T)
        requires
            index < old(self)@.len(),
        ensures
            final(self)@ == old(self)@.update(index as int, value.as_nat()),
    {
        self.buffer.set(index, value);
        assert(self@ =~= old(self)@.update(index as int, value.as_nat()));
    }

    pub fn get_value(&self, index: usize) -> (r: T)
        requires
            index < self@.len(),
        ensures
            r.as_nat() == self@[index as int],
    {
        self.buffer[index]
    }

    pub fn size(&self) -> (r: usize)
        ensures
            r == self@.len(),
    {
        self.buffer.len()
    }
    /// Appends the row of the dump that starts at `row_start`.
    fn push_row(&self, out: &mut Vec<u8>, row_start: usize, last: usize)
        requires
            row_start < last <= self@.len() - 1,
        ensures
            final(out)@ == old(out)@ + row_line(self@, row_start as nat, last as nat),
    {
        let ghost cells = self@;
        let ghost len = cells.len();
        let ghost before = out@;
        out.push(32);
        out.push(32);
        out.push(48);
        out.push(120);
        push_hex(out, row_start as u64, 6);
        out.push(58);
        out.push(32);
        out.push(32);
        out.push(32);
        out.push(32);
        let mut text: Vec<u8> = Vec::new();
        let ghost k_end: nat = if row_start + 32 <= last {
            32
        } else {
            (last - row_start) as nat
        };
        let ghost mid = out@;
        let mut i: usize = 0;
        while i < ROW_SIZE && row_start + i < last
            invariant
                cells == self@,
                len == cells.len(),
                row_start < last <= len - 1,
                i <= k_end,
                k_end == (if row_start + 32 <= last {
                    32
                } else {
                    (last - row_start) as nat
                }),
                out@ == mid + row_hex(cells, row_start as nat, i as nat),
                text@ == row_text(cells, row_start as nat, i as nat),
            decreases ROW_SIZE - i,
        {
            let value = self.get_value(row_start + i);
            push_hex(out, value.to_u32() as u64, 2);
            out.push(32);
            let b = value.to_byte();
            let shown = if (48 <= b && b <= 57) || (65 <= b && b <= 90) || (97 <= b && b <= 122) {
                b
            } else {
                46
            };
            text.push(shown);
            if (i + 1) % 8 == 0 {
                out.push(32);
                text.push(32);
            }
            assert(out@ =~= mid + row_hex(cells, row_start as nat, (i + 1) as nat));
            assert(text@ =~= row_text(cells, row_start as nat, (i + 1) as nat));
            i = i + 1;
        }
        assert(i == k_end);
        out.push(32);
        out.push(32);
        out.push(32);
        out.push(32);
        out.append(&mut text);
        out.push(10);
        assert(out@ =~= before + row_line(cells, row_start as nat, last as nat));
    }

    /// The dump of the cells between `start` and `end`, as ASCII text:
    /// rows of `ROW_SIZE` cells, each with the address of its first cell,
    /// the cells in hexadecimal, and the cells as text, where a byte that is
    /// no ASCII letter or digit shows as `.`; an extra space follows every
    /// eighth cell.
    pub fn write_buffer(&self, start: usize, end: usize) -> (r: Vec<u8>)
        requires
            self@.len() > 0,
        ensures
            r@ == dump_text(self@, start as nat, end as nat),
    {
        let len = self.buffer.len();
        let mut out: Vec<u8> = Vec::new();
        out.push(66);
        out.push(117);
        out.push(102);
        out.push(102);
        out.push(101);
        out.push(114);
        out.push(32);
        out.push(123);
        out.push(10);
        proof {
            reveal_strlit("Buffer {\n");
            assert(out@ =~= "Buffer {\n"@.map_values(|c: char| c as u8));
        }
        let first = start - start % ROW_SIZE;
        let first = if first <= len - 1 {
            first
        } else {
            len - 1
        };
        let last = if end % ROW_SIZE == 0 {
            end
        } else if end >= len - 1 || len - 1 < ROW_SIZE || end - end % ROW_SIZE > (len - 1)
            - ROW_SIZE {
            len - 1
        } else {
            end - end % ROW_SIZE + ROW_SIZE
        };
        let last = if last <= len - 1 {
            last
        } else {
            len - 1
        };
        assert(first == dump_start(start as nat, len as nat));
        assert(last == dump_end(end as nat, len as nat));
        let ghost cells = self@;
        let ghost header = out@;
        let mut row_start = first;
        while row_start < last
            invariant
                cells == self@,
                len == cells.len(),
                first <= row_start,
                last <= len - 1,
                out@ + rows(cells, row_start as nat, last as nat) == header + rows(
                    cells,
                    first as nat,
                    last as nat,
                ),
            decreases last - row_start,
        {
            self.push_row(&mut out, row_start, last);
            if last - row_start <= ROW_SIZE {
                row_start = last;
            } else {
                row_start = row_start + ROW_SIZE;
            }
        }
        out.push(125);
        assert(out@ =~= dump_text(cells, start as nat, end as nat));
        out
    }

}

} // verus!

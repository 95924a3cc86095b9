use vstd::prelude::*;

use crate::cell::Cell;

verus! {

/// An I/O channel of the interpreter. `read` gives the next cell; on
/// exhaustion a channel gives a sentinel value rather than failing. `write`
/// takes a cell and gives back the value it committed, which the
/// interpreter stores back into the cell.
pub trait BraindamageIo<T: Cell> {
    fn read(&mut self) -> T;

    fn write(&mut self, value: T) -> T;
}

/// The value that ends a buffer of the file channel, and that a read gives
/// once the buffer is exhausted.
pub const BUFFER_END_VALUE: u8 = 0;

/// What a flush of the file channel gives back when the file was written.
pub const RET_IO_OK: u8 = 0;

/// What a flush of the file channel gives back when writing the file failed.
pub const RET_IO_ERR: u8 = 1;

pub open spec fn values_of<T: Cell>(s: Seq<T>) -> Seq<nat> {
    s.map_values(|c: T| c.as_nat())
}

/// A scripted channel for tests: reads come from a fixed sequence, looping
/// if asked to, and each write is checked against the next expected value.
/// A read past the end of a script that does not loop, a write past the
/// expected values, or a write of an unexpected value marks the channel as
/// failed.
pub struct TestIo<T: Cell> {
    read_data: Vec<T>,
    read_index: usize,
    loop_read_data: bool,
    expected_data: Vec<T>,
    expected_data_index: usize,
    failed: bool,
}

impl<T: Cell> TestIo<T> {
    pub closed spec fn reads(&self) -> Seq<nat> {
        values_of(self.read_data@)
    }

    pub closed spec fn read_pos(&self) -> nat {
        self.read_index as nat
    }

    pub closed spec fn loops(&self) -> bool {
        self.loop_read_data
    }

    pub closed spec fn expected(&self) -> Seq<nat> {
        values_of(self.expected_data@)
    }

    pub closed spec fn write_pos(&self) -> nat {
        self.expected_data_index as nat
    }

    pub closed spec fn failed(&self) -> bool {
        self.failed
    }

    pub fn new(read_data: Vec<T>, loop_read_data: bool, expected_data: Vec<T>) -> (r: TestIo<T>)
        ensures
            r.reads() == values_of(read_data@),
            r.read_pos() == 0,
            r.loops() == loop_read_data,
            r.expected() == values_of(expected_data@),
            r.write_pos() == 0,
            !r.failed(),
    {
        TestIo {
            read_data,
            read_index: 0,
            loop_read_data,
            expected_data,
            expected_data_index: 0,
            failed: false,
        }
    }

    pub fn is_done(&self) -> (r: bool)
        ensures
            r == ((self.read_pos() == self.reads().len() || self.loops()) && self.write_pos()
                == self.expected().len()),
    {
        self.is_read_done() && self.is_write_done()
    }

    pub fn is_read_done(&self) -> (r: bool)
        ensures
            r == (self.read_pos() == self.reads().len() || self.loops()),
    {
        self.read_index == self.read_data.len() || self.loop_read_data
    }

    pub fn is_write_done(&self) -> (r: bool)
        ensures
            r == (self.write_pos() == self.expected().len()),
    {
        self.expected_data_index == self.expected_data.len()
    }

    /// Whether the script was broken: a read or a write it did not provide
    /// for, or a write of another value than expected.
    pub fn has_failed(&self) -> (r: bool)
        ensures
            r == self.failed(),
    {
        self.failed
    }
}

impl<T: Cell> BraindamageIo<T> for TestIo<T> {
    fn read(&mut self) -> (r: T)
        ensures
            final(self).reads() == old(self).reads(),
            final(self).loops() == old(self).loops(),
            final(self).expected() == old(self).expected(),
            final(self).write_pos() == old(self).write_pos(),
            ({
                let n = old(self).reads().len();
                let pos = old(self).read_pos();
                if pos < n {
                    r.as_nat() == old(self).reads()[pos as int] && final(self).read_pos() == pos + 1
                        && final(self).failed() == old(self).failed()
                } else if old(self).loops() && n > 0 {
                    r.as_nat() == old(self).reads()[0] && final(self).read_pos() == 1
                        && final(self).failed() == old(self).failed()
                } else {
                    r.as_nat() == 0 && final(self).read_pos() == pos && final(self).failed()
                }
            }),
    {
        if self.read_index >= self.read_data.len() {
            if self.loop_read_data && self.read_data.len() > 0 {
                self.read_index = 0;
            } else {
                self.failed = true;
                return T::zero();
            }
        }
        self.read_index = self.read_index + 1;
        self.read_data[self.read_index - 1]
    }

    fn write(&mut self, value: T) -> (r: T)
        ensures
            r == value,
            final(self).reads() == old(self).reads(),
            final(self).read_pos() == old(self).read_pos(),
            final(self).loops() == old(self).loops(),
            final(self).expected() == old(self).expected(),
            ({
                let n = old(self).expected().len();
                let pos = old(self).write_pos();
                if pos < n {
                    final(self).write_pos() == pos + 1 && final(self).failed() == (old(self).failed()
                        || value.as_nat() != old(self).expected()[pos as int])
                } else {
                    final(self).write_pos() == pos && final(self).failed()
                }
            }),
    {
        if self.expected_data_index < self.expected_data.len() {
            let expect = self.expected_data[self.expected_data_index];
            assert(values_of(self.expected_data@)[self.expected_data_index as int]
                == expect.as_nat());
            self.expected_data_index = self.expected_data_index + 1;
            let same = value.sub_overflow(&expect).is_zero();
            proof {
                value.lemma_range();
                expect.lemma_range();
                vstd::arithmetic::div_mod::lemma_small_mod(0, T::modulus());
                if value.as_nat() != expect.as_nat() {
                    let d = value.as_nat() as int - expect.as_nat() as int;
                    let m = T::modulus() as int;
                    if d > 0 {
                        vstd::arithmetic::div_mod::lemma_small_mod(d as nat, m as nat);
                    } else {
                        vstd::arithmetic::div_mod::lemma_mod_multiples_vanish(1, d, m);
                        vstd::arithmetic::div_mod::lemma_small_mod((d + m) as nat, m as nat);
                        assert(d + m == m * 1 + d);
                    }
                }
            }
            if !same {
                self.failed = true;
            }
        } else {
            self.failed = true;
        }
        value
    }
}

/// What the file channel asks for after a write.
pub enum FileWrite<T: Cell> {
    /// The value was buffered; it is the value committed.
    Stored(T),
    /// The end value was written: these cells are to replace the file's
    /// contents, and the write buffer is now empty.
    Flush(Vec<T>),
}

/// The buffering of the file channel. Writes gather in a buffer until the
/// end value comes, at which point the whole buffer is to be written to the
/// file. Reads load the whole file on the first read of a cycle and give it
/// back cell by cell, then the end value once, after which the next read
/// loads the file anew. The file itself is handled by the caller: it asks
/// `needs_load` before a read and hands the contents to `load`, and writes
/// the cells of a `FileWrite::Flush`.
pub struct FileIo<T: Cell> {
    file: String,
    r_buffer: Vec<T>,
    r_index: usize,
    w_buffer: Vec<T>,
}

impl<T: Cell> FileIo<T> {
    pub closed spec fn file(&self) -> Seq<char> {
        self.file@
    }

    pub closed spec fn read_buffer(&self) -> Seq<nat> {
        values_of(self.r_buffer@)
    }

    pub closed spec fn read_pos(&self) -> nat {
        self.r_index as nat
    }

    pub closed spec fn write_buffer(&self) -> Seq<nat> {
        values_of(self.w_buffer@)
    }

    pub fn new(file_name: &str) -> (r: FileIo<T>)
        ensures
            r.file() == file_name@,
            r.read_buffer().len() == 0,
            r.read_pos() == 0,
            r.write_buffer().len() == 0,
    {
        FileIo { file: file_name.to_owned(), r_buffer: Vec::new(), r_index: 0, w_buffer: Vec::new() }
    }

    pub fn file_name(&self) -> (r: &str)
        ensures
            r@ == self.file(),
    {
        self.file.as_str()
    }

    /// Whether the next read starts a cycle, so that the file is to be
    /// loaded first.
    pub fn needs_load(&self) -> (r: bool)
        ensures
            r == (self.read_pos() == 0),
    {
        self.r_index == 0
    }

    /// Takes the file's contents as the read buffer; a missing file is
    /// empty.
    pub fn load(&mut self, cells: Vec<T>)
        ensures
            final(self).read_buffer() == values_of(cells@),
            final(self).read_pos() == 0,
            final(self).write_buffer() == old(self).write_buffer(),
            final(self).file() == old(self).file(),
    {
        self.r_buffer = cells;
        self.r_index = 0;
    }

    /// The next cell of the read buffer, or the end value once it is
    /// exhausted, which also ends the cycle.
    pub fn next_read(&mut self) -> (r: T)
        ensures
            final(self).read_buffer() == old(self).read_buffer(),
            final(self).write_buffer() == old(self).write_buffer(),
            final(self).file() == old(self).file(),
            old(self).read_pos() < old(self).read_buffer().len() ==> r.as_nat()
                == old(self).read_buffer()[old(self).read_pos() as int] && final(self).read_pos()
                == old(self).read_pos() + 1,
            old(self).read_pos() >= old(self).read_buffer().len() ==> r.as_nat()
                == BUFFER_END_VALUE && final(self).read_pos() == 0,
    {
        if self.r_index >= self.r_buffer.len() {
            self.r_index = 0;
            return T::from_u8(BUFFER_END_VALUE);
        }
        let value = self.r_buffer[self.r_index];
        self.r_index = self.r_index + 1;
        value
    }

    /// Buffers `value`, or, for the end value, hands over the buffer to be
    /// written to the file.
    pub fn write(&mut self, value: T) -> (r: FileWrite<T>)
        ensures
            final(self).read_buffer() == old(self).read_buffer(),
            final(self).read_pos() == old(self).read_pos(),
            final(self).file() == old(self).file(),
            value.as_nat() == BUFFER_END_VALUE ==> match r {
                FileWrite::Flush(cells) => values_of(cells@) == old(self).write_buffer()
                    && final(self).write_buffer().len() == 0,
                FileWrite::Stored(_) => false,
            },
            value.as_nat() != BUFFER_END_VALUE ==> r == FileWrite::Stored(value)
                && final(self).write_buffer() == old(self).write_buffer().push(value.as_nat()),
    {
        if value.is_zero() {
            let mut cells: Vec<T> = Vec::new();
            cells.append(&mut self.w_buffer);
            proof {
                assert(values_of(self.w_buffer@) =~= Seq::<nat>::empty());
                assert(cells@ =~= old(self).w_buffer@);
            }
            return FileWrite::Flush(cells);
        }
        self.w_buffer.push(value);
        proof {
            assert(values_of(self.w_buffer@) =~= values_of(old(self).w_buffer@).push(value.as_nat()));
        }
        FileWrite::Stored(value)
    }

    /// The value a flush gives back to the program: `RET_IO_OK` when the
    /// file was written, `RET_IO_ERR` when it was not.
    pub fn flush_result(written: bool) -> (r: T)
        ensures
            r.as_nat() == if written {
                RET_IO_OK
            } else {
                RET_IO_ERR
            },
    {
        if written {
            T::from_u8(RET_IO_OK)
        } else {
            T::from_u8(RET_IO_ERR)
        }
    }
}

} // verus!

use vstd::prelude::*;

verus! {

/// A memory cell: an unsigned integer of a fixed width whose arithmetic
/// wraps around modulo `2^width`.
pub trait Cell: Copy + Sized {
    /// The number of distinct values a cell can hold, `2^width`.
    spec fn modulus() -> nat;

    /// The numeric value held by the cell.
    spec fn as_nat(self) -> nat;

    proof fn lemma_range(self)
        ensures
            256 <= Self::modulus(),
            self.as_nat() < Self::modulus(),
    ;

    /// The cell holding zero, the value that ends a loop.
    fn zero() -> (r: Self)
        ensures
            r.as_nat() == 0,
    ;

    /// A cell holding the given byte.
    fn from_u8(b: u8) -> (r: Self)
        ensures
            r.as_nat() == b as nat,
    ;

    /// Addition modulo `2^width`.
    fn add_overflow(&self, other: &Self) -> (r: Self)
        ensures
            r.as_nat() == wrap_add(self.as_nat(), other.as_nat(), Self::modulus()),
    ;

    /// Subtraction modulo `2^width`.
    fn sub_overflow(&self, other: &Self) -> (r: Self)
        ensures
            r.as_nat() == wrap_sub(self.as_nat(), other.as_nat(), Self::modulus()),
    ;

    fn is_zero(&self) -> (r: bool)
        ensures
            r == (self.as_nat() == 0),
    ;

    /// The value as a `u32`, which holds every width.
    fn to_u32(&self) -> (r: u32)
        ensures
            r as nat == self.as_nat(),
    ;

    /// The low byte of the value: the lossy projection used for display
    /// and for console output.
    fn to_byte(&self) -> (r: u8)
        ensures
            r as nat == self.as_nat() % 256,
    ;
}

/// `(a + b) mod m`.
pub open spec fn wrap_add(a: nat, b: nat, m: nat) -> nat {
    (((a + b) as int) % (m as int)) as nat
}

/// `(a - b) mod m`, taken in `0..m`.
pub open spec fn wrap_sub(a: nat, b: nat, m: nat) -> nat {
    (((a as int) - (b as int)) % (m as int)) as nat
}

/// The value of `x` after `k` increments by one.
pub open spec fn increments(x: nat, k: nat, m: nat) -> nat
    decreases k,
{
    if k == 0 {
        x
    } else {
        wrap_add(increments(x, (k - 1) as nat, m), 1, m)
    }
}

proof fn lemma_increments_closed_form(x: nat, k: nat, m: nat)
    requires
        m > 0,
    ensures
        k > 0 ==> increments(x, k, m) as int == ((x + k) as int) % (m as int),
    decreases k,
{
    let mi = m as int;
    if k == 1 {
        assert(increments(x, 0, m) == x);
        vstd::arithmetic::div_mod::lemma_mod_pos_bound((x + 1) as int, mi);
    } else if k > 1 {
        lemma_increments_closed_form(x, (k - 1) as nat, m);
        let p: int = x + k - 1;
        vstd::arithmetic::div_mod::lemma_mod_pos_bound(p, mi);
        vstd::arithmetic::div_mod::lemma_mod_pos_bound(p % mi + 1, mi);
        assert(((p % mi) + 1) % mi == (p + 1) % mi) by {
            vstd::arithmetic::div_mod::lemma_add_mod_noop(p, 1, mi);
            vstd::arithmetic::div_mod::lemma_mod_twice(1, mi);
            vstd::arithmetic::div_mod::lemma_add_mod_noop(p % mi, 1, mi);
            vstd::arithmetic::div_mod::lemma_mod_twice(p, mi);
        }
    }
}

/// Incrementing a cell `2^width` times gives back the value it started with.
pub proof fn lemma_increment_full_cycle<T: Cell>(c: T)
    ensures
        increments(c.as_nat(), T::modulus(), T::modulus()) == c.as_nat(),
{
    c.lemma_range();
    let m = T::modulus();
    lemma_increments_closed_form(c.as_nat(), m, m);
    vstd::arithmetic::div_mod::lemma_mod_add_multiples_vanish(c.as_nat() as int, m as int);
    vstd::arithmetic::div_mod::lemma_small_mod(c.as_nat(), m);
}

/// Wrapping subtraction undoes wrapping addition, and the other way round.
pub proof fn lemma_add_sub_inverse<T: Cell>(a: T, b: T)
    ensures
        wrap_sub(wrap_add(a.as_nat(), b.as_nat(), T::modulus()), b.as_nat(), T::modulus())
            == a.as_nat(),
        wrap_add(wrap_sub(a.as_nat(), b.as_nat(), T::modulus()), b.as_nat(), T::modulus())
            == a.as_nat(),
{
    a.lemma_range();
    b.lemma_range();
    let m = T::modulus() as int;
    let x = a.as_nat() as int;
    let y = b.as_nat() as int;
    vstd::arithmetic::div_mod::lemma_sub_mod_noop(x + y, y, m);
    vstd::arithmetic::div_mod::lemma_mod_twice(x + y, m);
    vstd::arithmetic::div_mod::lemma_small_mod(y as nat, m as nat);
    vstd::arithmetic::div_mod::lemma_small_mod(x as nat, m as nat);
    vstd::arithmetic::div_mod::lemma_add_mod_noop(x - y, y, m);
    vstd::arithmetic::div_mod::lemma_mod_twice(x - y, m);
}

impl Cell for u8 {
    open spec fn modulus() -> nat {
        0x100
    }

    open spec fn as_nat(self) -> nat {
        self as nat
    }

    proof fn lemma_range(self) {
    }

    fn zero() -> (r: u8) {
        0
    }

    fn from_u8(b: u8) -> (r: u8) {
        b
    }

    fn add_overflow(&self, other: &u8) -> (r: u8) {
        (((*self as u16) + (*other as u16)) % 0x100) as u8
    }

    fn sub_overflow(&self, other: &u8) -> (r: u8) {
        if *self >= *other {
            *self - *other
        } else {
            (((*self as u16) + 0x100) - (*other as u16)) as u8
        }
    }

    fn is_zero(&self) -> (r: bool) {
        *self == 0
    }

    fn to_u32(&self) -> (r: u32) {
        *self as u32
    }

    fn to_byte(&self) -> (r: u8) {
        *self
    }
}

impl Cell for u16 {
    open spec fn modulus() -> nat {
        0x1_0000
    }

    open spec fn as_nat(self) -> nat {
        self as nat
    }

    proof fn lemma_range(self) {
    }

    fn zero() -> (r: u16) {
        0
    }

    fn from_u8(b: u8) -> (r: u16) {
        b as u16
    }

    fn add_overflow(&self, other: &u16) -> (r: u16) {
        (((*self as u32) + (*other as u32)) % 0x1_0000) as u16
    }

    fn sub_overflow(&self, other: &u16) -> (r: u16) {
        if *self >= *other {
            *self - *other
        } else {
            (((*self as u32) + 0x1_0000) - (*other as u32)) as u16
        }
    }

    fn is_zero(&self) -> (r: bool) {
        *self == 0
    }

    fn to_u32(&self) -> (r: u32) {
        *self as u32
    }

    fn to_byte(&self) -> (r: u8) {
        (*self % 0x100) as u8
    }
}

impl Cell for u32 {
    open spec fn modulus() -> nat {
        0x1_0000_0000
    }

    open spec fn as_nat(self) -> nat {
        self as nat
    }

    proof fn lemma_range(self) {
    }

    fn zero() -> (r: u32) {
        0
    }

    fn from_u8(b: u8) -> (r: u32) {
        b as u32
    }

    fn add_overflow(&self, other: &u32) -> (r: u32) {
        (((*self as u64) + (*other as u64)) % 0x1_0000_0000) as u32
    }

    fn sub_overflow(&self, other: &u32) -> (r: u32) {
        if *self >= *other {
            *self - *other
        } else {
            (((*self as u64) + 0x1_0000_0000) - (*other as u64)) as u32
        }
    }

    fn is_zero(&self) -> (r: bool) {
        *self == 0
    }

    fn to_u32(&self) -> (r: u32) {
        *self
    }

    fn to_byte(&self) -> (r: u8) {
        (*self % 0x100) as u8
    }
}

} // verus!

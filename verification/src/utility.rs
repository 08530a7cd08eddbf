//! The two additions that cells can be added to with, saturating and
//! wrapping, for each of the built-in integer types.
use vstd::prelude::*;

verus! {

/// `value` where it lies between `lowest` and `highest`, else the nearer of
/// the two.
pub open spec fn clamped(value: int, lowest: int, highest: int) -> int {
    if value < lowest {
        lowest
    } else if value > highest {
        highest
    } else {
        value
    }
}

/// A number type with an addition that stops at the ends of its range
/// instead of passing them.
pub trait Saturating: Sized {
    /// The integer that `self` stands for.
    spec fn value(self) -> int;

    /// The least integer the type holds.
    spec fn lowest() -> int;

    /// The greatest integer the type holds.
    spec fn highest() -> int;

    /// The saturating sum of `self` and `other`.
    spec fn saturating_sum(self, other: Self) -> Self;

    /// Every value lies within the range of its type, and the saturating sum
    /// stands for the true sum, clamped to that range.
    proof fn lemma_saturating_sum(self, other: Self)
        ensures
            Self::lowest() <= self.value() <= Self::highest(),
            self.saturating_sum(other).value() == clamped(
                self.value() + other.value(),
                Self::lowest(),
                Self::highest(),
            ),
    ;

    /// Adds `other` to `self`, stopping at the ends of the range.
    fn saturating_add(&self, other: Self) -> (sum: Self)
        ensures
            sum == self.saturating_sum(other),
    ;
}

/// A number type with the addition of its machine representation: a sum that
/// passes one end of the range comes back in at the other.
pub trait Wrapping: Sized {
    /// The wrapping sum of `self` and `other`.
    spec fn wrapping_sum(self, other: Self) -> Self;

    /// Wrapping sums may be grouped either way.
    proof fn lemma_wrapping_sum_associative(self, second: Self, third: Self)
        ensures
            self.wrapping_sum(second).wrapping_sum(third) == self.wrapping_sum(
                second.wrapping_sum(third),
            ),
    ;

    /// Adds `other` to `self`, wrapping round at the ends of the range.
    fn wrapping_add(&self, other: Self) -> (sum: Self)
        ensures
            sum == self.wrapping_sum(other),
    ;
}

impl Saturating for usize {
    open spec fn value(self) -> int {
        self as int
    }

    open spec fn lowest() -> int {
        usize::MIN as int
    }

    open spec fn highest() -> int {
        usize::MAX as int
    }

    open spec fn saturating_sum(self, other: usize) -> usize {
        if self + other > usize::MAX {
            usize::MAX
        } else {
            (self + other) as usize
        }
    }

    proof fn lemma_saturating_sum(self, other: usize) {
    }

    fn saturating_add(&self, other: usize) -> (sum: usize) {
        (*self).saturating_add(other)
    }
}

impl Wrapping for usize {
    open spec fn wrapping_sum(self, other: usize) -> usize {
        if self + other > usize::MAX {
            (self + other - usize::MAX - 1) as usize
        } else {
            (self + other) as usize
        }
    }

    proof fn lemma_wrapping_sum_associative(self, second: usize, third: usize) {
    }

    fn wrapping_add(&self, other: usize) -> (sum: usize) {
        (*self).wrapping_add(other)
    }
}

impl Saturating for isize {
    open spec fn value(self) -> int {
        self as int
    }

    open spec fn lowest() -> int {
        isize::MIN as int
    }

    open spec fn highest() -> int {
        isize::MAX as int
    }

    open spec fn saturating_sum(self, other: isize) -> isize {
        if self + other > isize::MAX {
            isize::MAX
        } else if self + other < isize::MIN {
            isize::MIN
        } else {
            (self + other) as isize
        }
    }

    proof fn lemma_saturating_sum(self, other: isize) {
    }

    fn saturating_add(&self, other: isize) -> (sum: isize) {
        let this: isize = *self;
        if other > 0 && this > isize::MAX - other {
            isize::MAX
        } else if other < 0 && this < isize::MIN - other {
            isize::MIN
        } else {
            this + other
        }
    }
}

impl Wrapping for isize {
    open spec fn wrapping_sum(self, other: isize) -> isize {
        if self + other > isize::MAX {
            (self + other - (isize::MAX - isize::MIN + 1)) as isize
        } else if self + other < isize::MIN {
            (self + other + (isize::MAX - isize::MIN + 1)) as isize
        } else {
            (self + other) as isize
        }
    }

    proof fn lemma_wrapping_sum_associative(self, second: isize, third: isize) {
    }

    fn wrapping_add(&self, other: isize) -> (sum: isize) {
        (*self).wrapping_add(other)
    }
}

impl Saturating for u8 {
    open spec fn value(self) -> int {
        self as int
    }

    open spec fn lowest() -> int {
        u8::MIN as int
    }

    open spec fn highest() -> int {
        u8::MAX as int
    }

    open spec fn saturating_sum(self, other: u8) -> u8 {
        if self + other > u8::MAX {
            u8::MAX
        } else {
            (self + other) as u8
        }
    }

    proof fn lemma_saturating_sum(self, other: u8) {
    }

    fn saturating_add(&self, other: u8) -> (sum: u8) {
        (*self).saturating_add(other)
    }
}

impl Wrapping for u8 {
    open spec fn wrapping_sum(self, other: u8) -> u8 {
        if self + other > u8::MAX {
            (self + other - u8::MAX - 1) as u8
        } else {
            (self + other) as u8
        }
    }

    proof fn lemma_wrapping_sum_associative(self, second: u8, third: u8) {
    }

    fn wrapping_add(&self, other: u8) -> (sum: u8) {
        (*self).wrapping_add(other)
    }
}

impl Saturating for u16 {
    open spec fn value(self) -> int {
        self as int
    }

    open spec fn lowest() -> int {
        u16::MIN as int
    }

    open spec fn highest() -> int {
        u16::MAX as int
    }

    open spec fn saturating_sum(self, other: u16) -> u16 {
        if self + other > u16::MAX {
            u16::MAX
        } else {
            (self + other) as u16
        }
    }

    proof fn lemma_saturating_sum(self, other: u16) {
    }

    fn saturating_add(&self, other: u16) -> (sum: u16) {
        (*self).saturating_add(other)
    }
}

impl Wrapping for u16 {
    open spec fn wrapping_sum(self, other: u16) -> u16 {
        if self + other > u16::MAX {
            (self + other - u16::MAX - 1) as u16
        } else {
            (self + other) as u16
        }
    }

    proof fn lemma_wrapping_sum_associative(self, second: u16, third: u16) {
    }

    fn wrapping_add(&self, other: u16) -> (sum: u16) {
        (*self).wrapping_add(other)
    }
}

impl Saturating for u32 {
    open spec fn value(self) -> int {
        self as int
    }

    open spec fn lowest() -> int {
        u32::MIN as int
    }

    open spec fn highest() -> int {
        u32::MAX as int
    }

    open spec fn saturating_sum(self, other: u32) -> u32 {
        if self + other > u32::MAX {
            u32::MAX
        } else {
            (self + other) as u32
        }
    }

    proof fn lemma_saturating_sum(self, other: u32) {
    }

    fn saturating_add(&self, other: u32) -> (sum: u32) {
        (*self).saturating_add(other)
    }
}

impl Wrapping for u32 {
    open spec fn wrapping_sum(self, other: u32) -> u32 {
        if self + other > u32::MAX {
            (self + other - u32::MAX - 1) as u32
        } else {
            (self + other) as u32
        }
    }

    proof fn lemma_wrapping_sum_associative(self, second: u32, third: u32) {
    }

    fn wrapping_add(&self, other: u32) -> (sum: u32) {
        (*self).wrapping_add(other)
    }
}

impl Saturating for u64 {
    open spec fn value(self) -> int {
        self as int
    }

    open spec fn lowest() -> int {
        u64::MIN as int
    }

    open spec fn highest() -> int {
        u64::MAX as int
    }

    open spec fn saturating_sum(self, other: u64) -> u64 {
        if self + other > u64::MAX {
            u64::MAX
        } else {
            (self + other) as u64
        }
    }

    proof fn lemma_saturating_sum(self, other: u64) {
    }

    fn saturating_add(&self, other: u64) -> (sum: u64) {
        (*self).saturating_add(other)
    }
}

impl Wrapping for u64 {
    open spec fn wrapping_sum(self, other: u64) -> u64 {
        if self + other > u64::MAX {
            (self + other - u64::MAX - 1) as u64
        } else {
            (self + other) as u64
        }
    }

    proof fn lemma_wrapping_sum_associative(self, second: u64, third: u64) {
    }

    fn wrapping_add(&self, other: u64) -> (sum: u64) {
        (*self).wrapping_add(other)
    }
}

impl Saturating for u128 {
    open spec fn value(self) -> int {
        self as int
    }

    open spec fn lowest() -> int {
        u128::MIN as int
    }

    open spec fn highest() -> int {
        u128::MAX as int
    }

    open spec fn saturating_sum(self, other: u128) -> u128 {
        if self + other > u128::MAX {
            u128::MAX
        } else {
            (self + other) as u128
        }
    }

    proof fn lemma_saturating_sum(self, other: u128) {
    }

    fn saturating_add(&self, other: u128) -> (sum: u128) {
        (*self).saturating_add(other)
    }
}

impl Wrapping for u128 {
    open spec fn wrapping_sum(self, other: u128) -> u128 {
        if self + other > u128::MAX {
            (self + other - u128::MAX - 1) as u128
        } else {
            (self + other) as u128
        }
    }

    proof fn lemma_wrapping_sum_associative(self, second: u128, third: u128) {
    }

    fn wrapping_add(&self, other: u128) -> (sum: u128) {
        (*self).wrapping_add(other)
    }
}

impl Saturating for i8 {
    open spec fn value(self) -> int {
        self as int
    }

    open spec fn lowest() -> int {
        i8::MIN as int
    }

    open spec fn highest() -> int {
        i8::MAX as int
    }

    open spec fn saturating_sum(self, other: i8) -> i8 {
        if self + other > i8::MAX {
            i8::MAX
        } else if self + other < i8::MIN {
            i8::MIN
        } else {
            (self + other) as i8
        }
    }

    proof fn lemma_saturating_sum(self, other: i8) {
    }

    fn saturating_add(&self, other: i8) -> (sum: i8) {
        let this: i8 = *self;
        if other > 0 && this > i8::MAX - other {
            i8::MAX
        } else if other < 0 && this < i8::MIN - other {
            i8::MIN
        } else {
            this + other
        }
    }
}

impl Wrapping for i8 {
    open spec fn wrapping_sum(self, other: i8) -> i8 {
        if self + other > i8::MAX {
            (self + other - (i8::MAX - i8::MIN + 1)) as i8
        } else if self + other < i8::MIN {
            (self + other + (i8::MAX - i8::MIN + 1)) as i8
        } else {
            (self + other) as i8
        }
    }

    proof fn lemma_wrapping_sum_associative(self, second: i8, third: i8) {
    }

    fn wrapping_add(&self, other: i8) -> (sum: i8) {
        (*self).wrapping_add(other)
    }
}

impl Saturating for i16 {
    open spec fn value(self) -> int {
        self as int
    }

    open spec fn lowest() -> int {
        i16::MIN as int
    }

    open spec fn highest() -> int {
        i16::MAX as int
    }

    open spec fn saturating_sum(self, other: i16) -> i16 {
        if self + other > i16::MAX {
            i16::MAX
        } else if self + other < i16::MIN {
            i16::MIN
        } else {
            (self + other) as i16
        }
    }

    proof fn lemma_saturating_sum(self, other: i16) {
    }

    fn saturating_add(&self, other: i16) -> (sum: i16) {
        let this: i16 = *self;
        if other > 0 && this > i16::MAX - other {
            i16::MAX
        } else if other < 0 && this < i16::MIN - other {
            i16::MIN
        } else {
            this + other
        }
    }
}

impl Wrapping for i16 {
    open spec fn wrapping_sum(self, other: i16) -> i16 {
        if self + other > i16::MAX {
            (self + other - (i16::MAX - i16::MIN + 1)) as i16
        } else if self + other < i16::MIN {
            (self + other + (i16::MAX - i16::MIN + 1)) as i16
        } else {
            (self + other) as i16
        }
    }

    proof fn lemma_wrapping_sum_associative(self, second: i16, third: i16) {
    }

    fn wrapping_add(&self, other: i16) -> (sum: i16) {
        (*self).wrapping_add(other)
    }
}

impl Saturating for i32 {
    open spec fn value(self) -> int {
        self as int
    }

    open spec fn lowest() -> int {
        i32::MIN as int
    }

    open spec fn highest() -> int {
        i32::MAX as int
    }

    open spec fn saturating_sum(self, other: i32) -> i32 {
        if self + other > i32::MAX {
            i32::MAX
        } else if self + other < i32::MIN {
            i32::MIN
        } else {
            (self + other) as i32
        }
    }

    proof fn lemma_saturating_sum(self, other: i32) {
    }

    fn saturating_add(&self, other: i32) -> (sum: i32) {
        let this: i32 = *self;
        if other > 0 && this > i32::MAX - other {
            i32::MAX
        } else if other < 0 && this < i32::MIN - other {
            i32::MIN
        } else {
            this + other
        }
    }
}

impl Wrapping for i32 {
    open spec fn wrapping_sum(self, other: i32) -> i32 {
        if self + other > i32::MAX {
            (self + other - (i32::MAX - i32::MIN + 1)) as i32
        } else if self + other < i32::MIN {
            (self + other + (i32::MAX - i32::MIN + 1)) as i32
        } else {
            (self + other) as i32
        }
    }

    proof fn lemma_wrapping_sum_associative(self, second: i32, third: i32) {
    }

    fn wrapping_add(&self, other: i32) -> (sum: i32) {
        (*self).wrapping_add(other)
    }
}

impl Saturating for i64 {
    open spec fn value(self) -> int {
        self as int
    }

    open spec fn lowest() -> int {
        i64::MIN as int
    }

    open spec fn highest() -> int {
        i64::MAX as int
    }

    open spec fn saturating_sum(self, other: i64) -> i64 {
        if self + other > i64::MAX {
            i64::MAX
        } else if self + other < i64::MIN {
            i64::MIN
        } else {
            (self + other) as i64
        }
    }

    proof fn lemma_saturating_sum(self, other: i64) {
    }

    fn saturating_add(&self, other: i64) -> (sum: i64) {
        let this: i64 = *self;
        if other > 0 && this > i64::MAX - other {
            i64::MAX
        } else if other < 0 && this < i64::MIN - other {
            i64::MIN
        } else {
            this + other
        }
    }
}

impl Wrapping for i64 {
    open spec fn wrapping_sum(self, other: i64) -> i64 {
        if self + other > i64::MAX {
            (self + other - (i64::MAX - i64::MIN + 1)) as i64
        } else if self + other < i64::MIN {
            (self + other + (i64::MAX - i64::MIN + 1)) as i64
        } else {
            (self + other) as i64
        }
    }

    proof fn lemma_wrapping_sum_associative(self, second: i64, third: i64) {
    }

    fn wrapping_add(&self, other: i64) -> (sum: i64) {
        (*self).wrapping_add(other)
    }
}

impl Saturating for i128 {
    open spec fn value(self) -> int {
        self as int
    }

    open spec fn lowest() -> int {
        i128::MIN as int
    }

    open spec fn highest() -> int {
        i128::MAX as int
    }

    open spec fn saturating_sum(self, other: i128) -> i128 {
        if self + other > i128::MAX {
            i128::MAX
        } else if self + other < i128::MIN {
            i128::MIN
        } else {
            (self + other) as i128
        }
    }

    proof fn lemma_saturating_sum(self, other: i128) {
    }

    fn saturating_add(&self, other: i128) -> (sum: i128) {
        let this: i128 = *self;
        if other > 0 && this > i128::MAX - other {
            i128::MAX
        } else if other < 0 && this < i128::MIN - other {
            i128::MIN
        } else {
            this + other
        }
    }
}

impl Wrapping for i128 {
    open spec fn wrapping_sum(self, other: i128) -> i128 {
        if self + other > i128::MAX {
            (self + other - (i128::MAX - i128::MIN + 1)) as i128
        } else if self + other < i128::MIN {
            (self + other + (i128::MAX - i128::MIN + 1)) as i128
        } else {
            (self + other) as i128
        }
    }

    proof fn lemma_wrapping_sum_associative(self, second: i128, third: i128) {
    }

    fn wrapping_add(&self, other: i128) -> (sum: i128) {
        (*self).wrapping_add(other)
    }
}

} // verus!

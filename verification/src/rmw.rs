//! Read-modify-write delta-merge framework.
//!
//! A value type opts into in-place updates by saying how a modification is
//! merged into the current stored value. Merging is a pure function of the
//! two inputs — the engine may invoke it again for retried or racing
//! attempts — and the built-in rules are: numeric types add (wrapping),
//! booleans and characters are replaced, strings and vectors append.

use vstd::prelude::*;

verus! {

/// A value type with read-modify-write merge semantics.
///
/// When an RMW targets a key that already holds a value, the engine hands
/// the current value and the modification to [`FasterRmw::rmw`]; the result
/// replaces the stored value. When the key is absent the modification is
/// stored verbatim and `rmw` is not invoked.
pub trait FasterRmw: Sized {
    /// Exactly when `merged` is the result of merging `modification` into
    /// the current value `self`.
    spec fn merges_to(self, modification: Self, merged: Self) -> bool;

    /// Merge `modification` into the current value `self`.
    fn rmw(&self, modification: Self) -> (r: Self)
        ensures
            self.merges_to(modification, r),
    ;
}

impl FasterRmw for bool {
    open spec fn merges_to(self, modification: bool, merged: bool) -> bool {
        merged == modification
    }

    fn rmw(&self, modification: bool) -> (r: bool) {
        modification
    }
}

impl FasterRmw for char {
    open spec fn merges_to(self, modification: char, merged: char) -> bool {
        merged == modification
    }

    fn rmw(&self, modification: char) -> (r: char) {
        modification
    }
}

impl FasterRmw for u8 {
    open spec fn merges_to(self, modification: u8, merged: u8) -> bool {
        merged == vstd::wrapping::u8_specs::wrapping_add(self, modification)
    }

    fn rmw(&self, modification: u8) -> (r: u8) {
        self.wrapping_add(modification)
    }
}

impl FasterRmw for u16 {
    open spec fn merges_to(self, modification: u16, merged: u16) -> bool {
        merged == vstd::wrapping::u16_specs::wrapping_add(self, modification)
    }

    fn rmw(&self, modification: u16) -> (r: u16) {
        self.wrapping_add(modification)
    }
}

impl FasterRmw for u32 {
    open spec fn merges_to(self, modification: u32, merged: u32) -> bool {
        merged == vstd::wrapping::u32_specs::wrapping_add(self, modification)
    }

    fn rmw(&self, modification: u32) -> (r: u32) {
        self.wrapping_add(modification)
    }
}

impl FasterRmw for u64 {
    open spec fn merges_to(self, modification: u64, merged: u64) -> bool {
        merged == vstd::wrapping::u64_specs::wrapping_add(self, modification)
    }

    fn rmw(&self, modification: u64) -> (r: u64) {
        self.wrapping_add(modification)
    }
}

impl FasterRmw for u128 {
    open spec fn merges_to(self, modification: u128, merged: u128) -> bool {
        merged == vstd::wrapping::u128_specs::wrapping_add(self, modification)
    }

    fn rmw(&self, modification: u128) -> (r: u128) {
        self.wrapping_add(modification)
    }
}

impl FasterRmw for usize {
    open spec fn merges_to(self, modification: usize, merged: usize) -> bool {
        merged == vstd::wrapping::usize_specs::wrapping_add(self, modification)
    }

    fn rmw(&self, modification: usize) -> (r: usize) {
        self.wrapping_add(modification)
    }
}

impl FasterRmw for i8 {
    open spec fn merges_to(self, modification: i8, merged: i8) -> bool {
        merged == vstd::wrapping::i8_specs::wrapping_add(self, modification)
    }

    fn rmw(&self, modification: i8) -> (r: i8) {
        self.wrapping_add(modification)
    }
}

impl FasterRmw for i16 {
    open spec fn merges_to(self, modification: i16, merged: i16) -> bool {
        merged == vstd::wrapping::i16_specs::wrapping_add(self, modification)
    }

    fn rmw(&self, modification: i16) -> (r: i16) {
        self.wrapping_add(modification)
    }
}

impl FasterRmw for i32 {
    open spec fn merges_to(self, modification: i32, merged: i32) -> bool {
        merged == vstd::wrapping::i32_specs::wrapping_add(self, modification)
    }

    fn rmw(&self, modification: i32) -> (r: i32) {
        self.wrapping_add(modification)
    }
}

impl FasterRmw for i64 {
    open spec fn merges_to(self, modification: i64, merged: i64) -> bool {
        merged == vstd::wrapping::i64_specs::wrapping_add(self, modification)
    }

    fn rmw(&self, modification: i64) -> (r: i64) {
        self.wrapping_add(modification)
    }
}

impl FasterRmw for i128 {
    open spec fn merges_to(self, modification: i128, merged: i128) -> bool {
        merged == vstd::wrapping::i128_specs::wrapping_add(self, modification)
    }

    fn rmw(&self, modification: i128) -> (r: i128) {
        self.wrapping_add(modification)
    }
}

impl FasterRmw for isize {
    open spec fn merges_to(self, modification: isize, merged: isize) -> bool {
        merged == vstd::wrapping::isize_specs::wrapping_add(self, modification)
    }

    fn rmw(&self, modification: isize) -> (r: isize) {
        self.wrapping_add(modification)
    }
}

impl FasterRmw for String {
    open spec fn merges_to(self, modification: String, merged: String) -> bool {
        merged@ == self@ + modification@
    }

    fn rmw(&self, modification: String) -> (r: String) {
        let mut r = self.clone();
        r.append(modification.as_str());
        r
    }
}

impl<T: Copy> FasterRmw for Vec<T> {
    open spec fn merges_to(self, modification: Vec<T>, merged: Vec<T>) -> bool {
        merged@ == self@ + modification@
    }

    fn rmw(&self, modification: Vec<T>) -> (r: Vec<T>) {
        let mut r: Vec<T> = Vec::new();
        let mut i: usize = 0;
        while i < self.len()
            invariant
                i <= self@.len(),
                r@ == self@.take(i as int),
            decreases self@.len() - i,
        {
            r.push(self[i]);
            i = i + 1;
        }
        let mut j: usize = 0;
        while j < modification.len()
            invariant
                j <= modification@.len(),
                r@ == self@.take(self@.len() as int) + modification@.take(j as int),
            decreases modification@.len() - j,
        {
            r.push(modification[j]);
            j = j + 1;
        }
        proof {
            assert(r@ =~= self@ + modification@);
        }
        r
    }
}

} // verus!

use vstd::prelude::*;

verus! {

/// An unsigned integer type that identifiers are drawn from.
///
/// Each value is seen through `id_int` as a mathematical integer in
/// `[min_int(), max_int()]`. Arithmetic on identifiers is done on the
/// widened `u128` form, so successor and predecessor never wrap silently.
pub trait IdType: Copy + Sized {
    /// The integer a value stands for.
    spec fn id_int(self) -> int;

    /// The smallest value of the type.
    spec fn min_int() -> int;

    /// The largest value of the type.
    spec fn max_int() -> int;

    proof fn lemma_bounds(v: Self)
        ensures
            0 <= Self::min_int() <= v.id_int() <= Self::max_int() <= u128::MAX,
    ;

    fn min_value() -> (r: Self)
        ensures
            r.id_int() == Self::min_int(),
    ;

    fn max_value() -> (r: Self)
        ensures
            r.id_int() == Self::max_int(),
    ;

    fn to_u128(self) -> (r: u128)
        ensures
            r as int == self.id_int(),
    ;

    fn from_u128(v: u128) -> (r: Self)
        requires
            Self::min_int() <= v <= Self::max_int(),
        ensures
            r.id_int() == v as int,
    ;
}

impl IdType for u8 {
    open spec fn id_int(self) -> int {
        self as int
    }

    open spec fn min_int() -> int {
        0
    }

    open spec fn max_int() -> int {
        u8::MAX as int
    }

    proof fn lemma_bounds(v: Self) {
    }

    fn min_value() -> (r: Self) {
        u8::MIN
    }

    fn max_value() -> (r: Self) {
        u8::MAX
    }

    fn to_u128(self) -> (r: u128) {
        self as u128
    }

    fn from_u128(v: u128) -> (r: Self) {
        v as u8
    }
}

impl IdType for u16 {
    open spec fn id_int(self) -> int {
        self as int
    }

    open spec fn min_int() -> int {
        0
    }

    open spec fn max_int() -> int {
        u16::MAX as int
    }

    proof fn lemma_bounds(v: Self) {
    }

    fn min_value() -> (r: Self) {
        u16::MIN
    }

    fn max_value() -> (r: Self) {
        u16::MAX
    }

    fn to_u128(self) -> (r: u128) {
        self as u128
    }

    fn from_u128(v: u128) -> (r: Self) {
        v as u16
    }
}

impl IdType for u32 {
    open spec fn id_int(self) -> int {
        self as int
    }

    open spec fn min_int() -> int {
        0
    }

    open spec fn max_int() -> int {
        u32::MAX as int
    }

    proof fn lemma_bounds(v: Self) {
    }

    fn min_value() -> (r: Self) {
        u32::MIN
    }

    fn max_value() -> (r: Self) {
        u32::MAX
    }

    fn to_u128(self) -> (r: u128) {
        self as u128
    }

    fn from_u128(v: u128) -> (r: Self) {
        v as u32
    }
}

impl IdType for u64 {
    open spec fn id_int(self) -> int {
        self as int
    }

    open spec fn min_int() -> int {
        0
    }

    open spec fn max_int() -> int {
        u64::MAX as int
    }

    proof fn lemma_bounds(v: Self) {
    }

    fn min_value() -> (r: Self) {
        u64::MIN
    }

    fn max_value() -> (r: Self) {
        u64::MAX
    }

    fn to_u128(self) -> (r: u128) {
        self as u128
    }

    fn from_u128(v: u128) -> (r: Self) {
        v as u64
    }
}

impl IdType for u128 {
    open spec fn id_int(self) -> int {
        self as int
    }

    open spec fn min_int() -> int {
        0
    }

    open spec fn max_int() -> int {
        u128::MAX as int
    }

    proof fn lemma_bounds(v: Self) {
    }

    fn min_value() -> (r: Self) {
        u128::MIN
    }

    fn max_value() -> (r: Self) {
        u128::MAX
    }

    fn to_u128(self) -> (r: u128) {
        self
    }

    fn from_u128(v: u128) -> (r: Self) {
        v
    }
}

impl IdType for usize {
    open spec fn id_int(self) -> int {
        self as int
    }

    open spec fn min_int() -> int {
        0
    }

    open spec fn max_int() -> int {
        usize::MAX as int
    }

    proof fn lemma_bounds(v: Self) {
    }

    fn min_value() -> (r: Self) {
        usize::MIN
    }

    fn max_value() -> (r: Self) {
        usize::MAX
    }

    fn to_u128(self) -> (r: u128) {
        self as u128
    }

    fn from_u128(v: u128) -> (r: Self) {
        v as usize
    }
}

} // verus!

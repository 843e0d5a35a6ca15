use vstd::prelude::*;

verus! {

/// The numeric capabilities a sequence element type must supply: ordering,
/// checked addition and subtraction, the additive identity and unit, and a
/// bidirectional checked conversion to and from a machine-word index. The
/// index of a value is its distance from the type's minimum, so the minimum
/// converts to index `0` and the maximum to the largest index.
pub trait RangeNum: Copy + Sized {
    /// The value as a mathematical integer.
    spec fn as_int(self) -> int;

    /// The least value of the type, as a mathematical integer.
    spec fn min_int() -> int;

    /// The greatest value of the type, as a mathematical integer.
    spec fn max_int() -> int;

    /// Every value lies between the type's minimum and maximum.
    proof fn lemma_bounds(self)
        ensures
            Self::min_int() <= self.as_int() <= Self::max_int(),
    ;

    /// The type contains zero and at least one positive value.
    proof fn lemma_span()
        ensures
            Self::min_int() <= 0 < Self::max_int(),
    ;

    /// The additive identity.
    fn num_zero() -> (r: Self)
        ensures
            r.as_int() == 0,
    ;

    /// The unit.
    fn num_one() -> (r: Self)
        ensures
            r.as_int() == 1,
    ;

    /// Value equality.
    fn val_eq(self, other: Self) -> (r: bool)
        ensures
            r == (self.as_int() == other.as_int()),
    ;

    /// Strictly-greater comparison.
    fn val_gt(self, other: Self) -> (r: bool)
        ensures
            r == (self.as_int() > other.as_int()),
    ;

    /// Addition that reports failure instead of wrapping.
    fn add_checked(self, other: Self) -> (r: Option<Self>)
        ensures
            match r {
                Some(v) => {
                    &&& v.as_int() == self.as_int() + other.as_int()
                    &&& Self::min_int() <= v.as_int() <= Self::max_int()
                },
                None => !(Self::min_int() <= self.as_int() + other.as_int()
                    <= Self::max_int()),
            },
    ;

    /// Subtraction that reports failure instead of wrapping.
    fn sub_checked(self, other: Self) -> (r: Option<Self>)
        ensures
            match r {
                Some(v) => {
                    &&& v.as_int() == self.as_int() - other.as_int()
                    &&& Self::min_int() <= v.as_int() <= Self::max_int()
                },
                None => !(Self::min_int() <= self.as_int() - other.as_int()
                    <= Self::max_int()),
            },
    ;

    /// Exact conversion from a machine-word count, preserving the value.
    fn try_from_count(c: usize) -> (r: Option<Self>)
        ensures
            match r {
                Some(v) => v.as_int() == c as int,
                None => c as int > Self::max_int(),
            },
    ;

    /// The greatest index: the distance from the type's minimum to its maximum.
    fn index_ceiling() -> (r: usize)
        ensures
            r as int == Self::max_int() - Self::min_int(),
    ;

    /// Conversion of the value to its machine-word index.
    fn try_to_index(self) -> (r: Option<usize>)
        ensures
            match r {
                Some(i) => i as int == self.as_int() - Self::min_int(),
                None => self.as_int() - Self::min_int() > usize::MAX as int,
            },
    ;

    /// Conversion from a machine-word index back to the value at that
    /// distance from the type's minimum.
    fn try_from_index(i: usize) -> (r: Option<Self>)
        ensures
            match r {
                Some(v) => {
                    &&& v.as_int() == Self::min_int() + i as int
                    &&& i as int <= Self::max_int() - Self::min_int()
                },
                None => i as int > Self::max_int() - Self::min_int(),
            },
    ;
}

impl RangeNum for u8 {
    open spec fn as_int(self) -> int {
        self as int
    }

    open spec fn min_int() -> int {
        0
    }

    open spec fn max_int() -> int {
        255
    }

    proof fn lemma_bounds(self) {
    }

    proof fn lemma_span() {
    }

    fn num_zero() -> u8 {
        0
    }

    fn num_one() -> u8 {
        1
    }

    fn val_eq(self, other: u8) -> bool {
        self == other
    }

    fn val_gt(self, other: u8) -> bool {
        self > other
    }

    fn add_checked(self, other: u8) -> Option<u8> {
        self.checked_add(other)
    }

    fn sub_checked(self, other: u8) -> Option<u8> {
        self.checked_sub(other)
    }

    fn try_from_count(c: usize) -> Option<u8> {
        if c <= 255 {
            Some(c as u8)
        } else {
            None
        }
    }

    fn index_ceiling() -> usize {
        255
    }

    fn try_to_index(self) -> Option<usize> {
        Some(self as usize)
    }

    fn try_from_index(i: usize) -> Option<u8> {
        if i <= 255 {
            Some(i as u8)
        } else {
            None
        }
    }
}

impl RangeNum for i8 {
    open spec fn as_int(self) -> int {
        self as int
    }

    open spec fn min_int() -> int {
        -128
    }

    open spec fn max_int() -> int {
        127
    }

    proof fn lemma_bounds(self) {
    }

    proof fn lemma_span() {
    }

    fn num_zero() -> i8 {
        0
    }

    fn num_one() -> i8 {
        1
    }

    fn val_eq(self, other: i8) -> bool {
        self == other
    }

    fn val_gt(self, other: i8) -> bool {
        self > other
    }

    fn add_checked(self, other: i8) -> Option<i8> {
        self.checked_add(other)
    }

    fn sub_checked(self, other: i8) -> Option<i8> {
        self.checked_sub(other)
    }

    fn try_from_count(c: usize) -> Option<i8> {
        if c <= 127 {
            Some(c as i8)
        } else {
            None
        }
    }

    fn index_ceiling() -> usize {
        255
    }

    fn try_to_index(self) -> Option<usize> {
        Some((self as i16 + 128) as usize)
    }

    fn try_from_index(i: usize) -> Option<i8> {
        if i <= 255 {
            Some((i as i16 - 128) as i8)
        } else {
            None
        }
    }
}

impl RangeNum for u16 {
    open spec fn as_int(self) -> int {
        self as int
    }

    open spec fn min_int() -> int {
        0
    }

    open spec fn max_int() -> int {
        65535
    }

    proof fn lemma_bounds(self) {
    }

    proof fn lemma_span() {
    }

    fn num_zero() -> u16 {
        0
    }

    fn num_one() -> u16 {
        1
    }

    fn val_eq(self, other: u16) -> bool {
        self == other
    }

    fn val_gt(self, other: u16) -> bool {
        self > other
    }

    fn add_checked(self, other: u16) -> Option<u16> {
        self.checked_add(other)
    }

    fn sub_checked(self, other: u16) -> Option<u16> {
        self.checked_sub(other)
    }

    fn try_from_count(c: usize) -> Option<u16> {
        if c <= 65535 {
            Some(c as u16)
        } else {
            None
        }
    }

    fn index_ceiling() -> usize {
        65535
    }

    fn try_to_index(self) -> Option<usize> {
        Some(self as usize)
    }

    fn try_from_index(i: usize) -> Option<u16> {
        if i <= 65535 {
            Some(i as u16)
        } else {
            None
        }
    }
}

impl RangeNum for i16 {
    open spec fn as_int(self) -> int {
        self as int
    }

    open spec fn min_int() -> int {
        -32768
    }

    open spec fn max_int() -> int {
        32767
    }

    proof fn lemma_bounds(self) {
    }

    proof fn lemma_span() {
    }

    fn num_zero() -> i16 {
        0
    }

    fn num_one() -> i16 {
        1
    }

    fn val_eq(self, other: i16) -> bool {
        self == other
    }

    fn val_gt(self, other: i16) -> bool {
        self > other
    }

    fn add_checked(self, other: i16) -> Option<i16> {
        self.checked_add(other)
    }

    fn sub_checked(self, other: i16) -> Option<i16> {
        self.checked_sub(other)
    }

    fn try_from_count(c: usize) -> Option<i16> {
        if c <= 32767 {
            Some(c as i16)
        } else {
            None
        }
    }

    fn index_ceiling() -> usize {
        65535
    }

    fn try_to_index(self) -> Option<usize> {
        Some((self as i32 + 32768) as usize)
    }

    fn try_from_index(i: usize) -> Option<i16> {
        if i <= 65535 {
            Some((i as i32 - 32768) as i16)
        } else {
            None
        }
    }
}

impl RangeNum for u32 {
    open spec fn as_int(self) -> int {
        self as int
    }

    open spec fn min_int() -> int {
        0
    }

    open spec fn max_int() -> int {
        4294967295
    }

    proof fn lemma_bounds(self) {
    }

    proof fn lemma_span() {
    }

    fn num_zero() -> u32 {
        0
    }

    fn num_one() -> u32 {
        1
    }

    fn val_eq(self, other: u32) -> bool {
        self == other
    }

    fn val_gt(self, other: u32) -> bool {
        self > other
    }

    fn add_checked(self, other: u32) -> Option<u32> {
        self.checked_add(other)
    }

    fn sub_checked(self, other: u32) -> Option<u32> {
        self.checked_sub(other)
    }

    fn try_from_count(c: usize) -> Option<u32> {
        if c <= 4294967295 {
            Some(c as u32)
        } else {
            None
        }
    }

    fn index_ceiling() -> usize {
        4294967295
    }

    fn try_to_index(self) -> Option<usize> {
        Some(self as usize)
    }

    fn try_from_index(i: usize) -> Option<u32> {
        if i <= 4294967295 {
            Some(i as u32)
        } else {
            None
        }
    }
}

impl RangeNum for i32 {
    open spec fn as_int(self) -> int {
        self as int
    }

    open spec fn min_int() -> int {
        -2147483648
    }

    open spec fn max_int() -> int {
        2147483647
    }

    proof fn lemma_bounds(self) {
    }

    proof fn lemma_span() {
    }

    fn num_zero() -> i32 {
        0
    }

    fn num_one() -> i32 {
        1
    }

    fn val_eq(self, other: i32) -> bool {
        self == other
    }

    fn val_gt(self, other: i32) -> bool {
        self > other
    }

    fn add_checked(self, other: i32) -> Option<i32> {
        self.checked_add(other)
    }

    fn sub_checked(self, other: i32) -> Option<i32> {
        self.checked_sub(other)
    }

    fn try_from_count(c: usize) -> Option<i32> {
        if c <= 2147483647 {
            Some(c as i32)
        } else {
            None
        }
    }

    fn index_ceiling() -> usize {
        4294967295
    }

    fn try_to_index(self) -> Option<usize> {
        Some((self as i64 + 2147483648) as usize)
    }

    fn try_from_index(i: usize) -> Option<i32> {
        if i <= 4294967295 {
            Some((i as i64 - 2147483648) as i32)
        } else {
            None
        }
    }
}

} // verus!

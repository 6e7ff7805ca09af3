use vstd::prelude::*;
use crate::vec::{Number, SignedNumber};

verus! {

impl Number for i8 {
    open spec fn val(self) -> int {
        self as int
    }

    open spec fn lo() -> int {
        i8::MIN as int
    }

    open spec fn hi() -> int {
        i8::MAX as int
    }

    open spec fn from_int(v: int) -> Self {
        v as i8
    }

    proof fn lemma_range() {
    }

    proof fn lemma_val(self) {
    }

    proof fn lemma_from_int(v: int) {
    }

    fn zero() -> (r: Self) {
        0
    }

    fn one() -> (r: Self) {
        1
    }

    fn add(self, rhs: Self) -> (r: Self) {
        self + rhs
    }

    fn sub(self, rhs: Self) -> (r: Self) {
        self - rhs
    }

    fn mul(self, rhs: Self) -> (r: Self) {
        self * rhs
    }

    fn div(self, rhs: Self) -> (r: Self) {
        proof {
            if self == i8::MIN && rhs == -1 {
                assert(128int / (-1int) == -128int) by (nonlinear_arith);
            }
        }
        self / rhs
    }

    fn equal(self, rhs: Self) -> (r: bool) {
        self == rhs
    }

    fn less(self, rhs: Self) -> (r: bool) {
        self < rhs
    }
}

impl SignedNumber for i8 {
    fn minus_one() -> (r: Self) {
        -1
    }

    fn neg(self) -> (r: Self) {
        -self
    }
}

impl Number for i16 {
    open spec fn val(self) -> int {
        self as int
    }

    open spec fn lo() -> int {
        i16::MIN as int
    }

    open spec fn hi() -> int {
        i16::MAX as int
    }

    open spec fn from_int(v: int) -> Self {
        v as i16
    }

    proof fn lemma_range() {
    }

    proof fn lemma_val(self) {
    }

    proof fn lemma_from_int(v: int) {
    }

    fn zero() -> (r: Self) {
        0
    }

    fn one() -> (r: Self) {
        1
    }

    fn add(self, rhs: Self) -> (r: Self) {
        self + rhs
    }

    fn sub(self, rhs: Self) -> (r: Self) {
        self - rhs
    }

    fn mul(self, rhs: Self) -> (r: Self) {
        self * rhs
    }

    fn div(self, rhs: Self) -> (r: Self) {
        proof {
            if self == i16::MIN && rhs == -1 {
                assert(32768int / (-1int) == -32768int) by (nonlinear_arith);
            }
        }
        self / rhs
    }

    fn equal(self, rhs: Self) -> (r: bool) {
        self == rhs
    }

    fn less(self, rhs: Self) -> (r: bool) {
        self < rhs
    }
}

impl SignedNumber for i16 {
    fn minus_one() -> (r: Self) {
        -1
    }

    fn neg(self) -> (r: Self) {
        -self
    }
}

impl Number for i32 {
    open spec fn val(self) -> int {
        self as int
    }

    open spec fn lo() -> int {
        i32::MIN as int
    }

    open spec fn hi() -> int {
        i32::MAX as int
    }

    open spec fn from_int(v: int) -> Self {
        v as i32
    }

    proof fn lemma_range() {
    }

    proof fn lemma_val(self) {
    }

    proof fn lemma_from_int(v: int) {
    }

    fn zero() -> (r: Self) {
        0
    }

    fn one() -> (r: Self) {
        1
    }

    fn add(self, rhs: Self) -> (r: Self) {
        self + rhs
    }

    fn sub(self, rhs: Self) -> (r: Self) {
        self - rhs
    }

    fn mul(self, rhs: Self) -> (r: Self) {
        self * rhs
    }

    fn div(self, rhs: Self) -> (r: Self) {
        proof {
            if self == i32::MIN && rhs == -1 {
                assert(2147483648int / (-1int) == -2147483648int) by (nonlinear_arith);
            }
        }
        self / rhs
    }

    fn equal(self, rhs: Self) -> (r: bool) {
        self == rhs
    }

    fn less(self, rhs: Self) -> (r: bool) {
        self < rhs
    }
}

impl SignedNumber for i32 {
    fn minus_one() -> (r: Self) {
        -1
    }

    fn neg(self) -> (r: Self) {
        -self
    }
}

impl Number for i64 {
    open spec fn val(self) -> int {
        self as int
    }

    open spec fn lo() -> int {
        i64::MIN as int
    }

    open spec fn hi() -> int {
        i64::MAX as int
    }

    open spec fn from_int(v: int) -> Self {
        v as i64
    }

    proof fn lemma_range() {
    }

    proof fn lemma_val(self) {
    }

    proof fn lemma_from_int(v: int) {
    }

    fn zero() -> (r: Self) {
        0
    }

    fn one() -> (r: Self) {
        1
    }

    fn add(self, rhs: Self) -> (r: Self) {
        self + rhs
    }

    fn sub(self, rhs: Self) -> (r: Self) {
        self - rhs
    }

    fn mul(self, rhs: Self) -> (r: Self) {
        self * rhs
    }

    fn div(self, rhs: Self) -> (r: Self) {
        proof {
            if self == i64::MIN && rhs == -1 {
                assert(9223372036854775808int / (-1int) == -9223372036854775808int) by (nonlinear_arith);
            }
        }
        self / rhs
    }

    fn equal(self, rhs: Self) -> (r: bool) {
        self == rhs
    }

    fn less(self, rhs: Self) -> (r: bool) {
        self < rhs
    }
}

impl SignedNumber for i64 {
    fn minus_one() -> (r: Self) {
        -1
    }

    fn neg(self) -> (r: Self) {
        -self
    }
}

impl Number for u8 {
    open spec fn val(self) -> int {
        self as int
    }

    open spec fn lo() -> int {
        u8::MIN as int
    }

    open spec fn hi() -> int {
        u8::MAX as int
    }

    open spec fn from_int(v: int) -> Self {
        v as u8
    }

    proof fn lemma_range() {
    }

    proof fn lemma_val(self) {
    }

    proof fn lemma_from_int(v: int) {
    }

    fn zero() -> (r: Self) {
        0
    }

    fn one() -> (r: Self) {
        1
    }

    fn add(self, rhs: Self) -> (r: Self) {
        self + rhs
    }

    fn sub(self, rhs: Self) -> (r: Self) {
        self - rhs
    }

    fn mul(self, rhs: Self) -> (r: Self) {
        self * rhs
    }

    fn div(self, rhs: Self) -> (r: Self) {
        self / rhs
    }

    fn equal(self, rhs: Self) -> (r: bool) {
        self == rhs
    }

    fn less(self, rhs: Self) -> (r: bool) {
        self < rhs
    }
}

impl Number for u16 {
    open spec fn val(self) -> int {
        self as int
    }

    open spec fn lo() -> int {
        u16::MIN as int
    }

    open spec fn hi() -> int {
        u16::MAX as int
    }

    open spec fn from_int(v: int) -> Self {
        v as u16
    }

    proof fn lemma_range() {
    }

    proof fn lemma_val(self) {
    }

    proof fn lemma_from_int(v: int) {
    }

    fn zero() -> (r: Self) {
        0
    }

    fn one() -> (r: Self) {
        1
    }

    fn add(self, rhs: Self) -> (r: Self) {
        self + rhs
    }

    fn sub(self, rhs: Self) -> (r: Self) {
        self - rhs
    }

    fn mul(self, rhs: Self) -> (r: Self) {
        self * rhs
    }

    fn div(self, rhs: Self) -> (r: Self) {
        self / rhs
    }

    fn equal(self, rhs: Self) -> (r: bool) {
        self == rhs
    }

    fn less(self, rhs: Self) -> (r: bool) {
        self < rhs
    }
}

impl Number for u32 {
    open spec fn val(self) -> int {
        self as int
    }

    open spec fn lo() -> int {
        u32::MIN as int
    }

    open spec fn hi() -> int {
        u32::MAX as int
    }

    open spec fn from_int(v: int) -> Self {
        v as u32
    }

    proof fn lemma_range() {
    }

    proof fn lemma_val(self) {
    }

    proof fn lemma_from_int(v: int) {
    }

    fn zero() -> (r: Self) {
        0
    }

    fn one() -> (r: Self) {
        1
    }

    fn add(self, rhs: Self) -> (r: Self) {
        self + rhs
    }

    fn sub(self, rhs: Self) -> (r: Self) {
        self - rhs
    }

    fn mul(self, rhs: Self) -> (r: Self) {
        self * rhs
    }

    fn div(self, rhs: Self) -> (r: Self) {
        self / rhs
    }

    fn equal(self, rhs: Self) -> (r: bool) {
        self == rhs
    }

    fn less(self, rhs: Self) -> (r: bool) {
        self < rhs
    }
}

impl Number for u64 {
    open spec fn val(self) -> int {
        self as int
    }

    open spec fn lo() -> int {
        u64::MIN as int
    }

    open spec fn hi() -> int {
        u64::MAX as int
    }

    open spec fn from_int(v: int) -> Self {
        v as u64
    }

    proof fn lemma_range() {
    }

    proof fn lemma_val(self) {
    }

    proof fn lemma_from_int(v: int) {
    }

    fn zero() -> (r: Self) {
        0
    }

    fn one() -> (r: Self) {
        1
    }

    fn add(self, rhs: Self) -> (r: Self) {
        self + rhs
    }

    fn sub(self, rhs: Self) -> (r: Self) {
        self - rhs
    }

    fn mul(self, rhs: Self) -> (r: Self) {
        self * rhs
    }

    fn div(self, rhs: Self) -> (r: Self) {
        self / rhs
    }

    fn equal(self, rhs: Self) -> (r: bool) {
        self == rhs
    }

    fn less(self, rhs: Self) -> (r: bool) {
        self < rhs
    }
}

} // verus!

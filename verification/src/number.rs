//! Numeric primitives of the constraint-system core: the row/degree index
//! type, the model of a prime-field element, and conversions from the
//! arbitrary-precision integers that the front end computes with.

use vstd::prelude::*;

verus! {

/// The type of polynomial degrees and of indices into columns.
pub type DegreeType = u64;

/// One element of the prime field that column values are drawn from,
/// modelled by its canonical non-negative representative.
#[derive(Clone, Copy, PartialEq, Eq, Structural, Debug)]
pub struct FieldElement {
    pub value: u64,
}

/// The abstract type of numbers to be computed with. They have arbitrary
/// precision, but need to be converted to a finite-field element once the
/// column values are generated.
pub type AbstractNumberType = num_bigint::BigInt;

#[verifier::external_type_specification]
#[verifier::external_body]
pub struct ExBigInt(num_bigint::BigInt);

#[verifier::external_type_specification]
#[verifier::external_body]
pub struct ExBigUint(num_bigint::BigUint);

/// The integer that a `num_bigint::BigInt` holds.
pub uninterp spec fn big_int_value(x: num_bigint::BigInt) -> int;

/// The integer that a `num_bigint::BigUint` holds.
pub uninterp spec fn big_uint_value(x: num_bigint::BigUint) -> int;

enum SignClass {
    Negative,
    Zero,
    Positive,
}

/// Relies on `num_bigint::BigInt::sign`: it returns `Sign::Minus`,
/// `Sign::NoSign` and `Sign::Plus` exactly for negative, zero and positive
/// values.
#[verifier::external_body]
fn sign_class(x: &num_bigint::BigInt) -> (r: SignClass)
    ensures
        r is Negative <==> big_int_value(*x) < 0,
        r is Zero <==> big_int_value(*x) == 0,
        r is Positive <==> big_int_value(*x) > 0,
{
    match x.sign() {
        num_bigint::Sign::Minus => SignClass::Negative,
        num_bigint::Sign::NoSign => SignClass::Zero,
        num_bigint::Sign::Plus => SignClass::Positive,
    }
}

/// Relies on `num_bigint::BigInt::to_biguint`: it returns `Some` exactly for
/// non-negative values, holding the same integer.
#[verifier::external_body]
fn to_unsigned(x: &num_bigint::BigInt) -> (r: Option<num_bigint::BigUint>)
    ensures
        r is Some <==> big_int_value(*x) >= 0,
        r matches Some(u) ==> big_uint_value(u) == big_int_value(*x),
{
    x.to_biguint()
}

/// The value of a little-endian sequence of base-2^64 digits.
pub open spec fn digits_value(s: Seq<u64>) -> int
    decreases s.len(),
{
    if s.len() == 0 {
        0
    } else {
        s[0] + 0x1_0000_0000_0000_0000 * digits_value(s.drop_first())
    }
}

/// Relies on `num_bigint::BigUint::to_u64_digits`: it returns the value's
/// base-2^64 digits, least significant first, with no trailing zero digit.
#[verifier::external_body]
fn unsigned_digits(x: &num_bigint::BigUint) -> (r: Vec<u64>)
    ensures
        digits_value(r@) == big_uint_value(*x),
        r@.len() > 0 ==> r@[r@.len() - 1] != 0,
{
    x.to_u64_digits()
}

proof fn lemma_digits_value_positive(s: Seq<u64>)
    requires
        s.len() > 0,
        s[s.len() - 1] != 0,
    ensures
        digits_value(s) >= 1,
    decreases s.len(),
{
    if s.len() == 1 {
        assert(digits_value(s.drop_first()) == 0);
    } else {
        let tail = s.drop_first();
        assert(tail[tail.len() - 1] == s[s.len() - 1]);
        lemma_digits_value_positive(tail);
    }
}

proof fn lemma_small_digits(s: Seq<u64>)
    requires
        digits_value(s) < 0x1_0000_0000_0000_0000,
        s.len() > 0 ==> s[s.len() - 1] != 0,
    ensures
        s.len() <= 1,
        digits_value(s) == if s.len() == 0 {
            0int
        } else {
            s[0] as int
        },
{
    if s.len() >= 2 {
        let tail = s.drop_first();
        assert(tail[tail.len() - 1] == s[s.len() - 1]);
        lemma_digits_value_positive(tail);
        assert(digits_value(s) >= 0x1_0000_0000_0000_0000);
        assert(false);
    } else if s.len() == 1 {
        assert(digits_value(s.drop_first()) == 0);
    }
}

/// Converts an arbitrary-precision number to a degree or row index.
/// The number must be non-negative and fit in 64 bits; other inputs have no
/// degree reading.
pub fn abstract_to_degree(input: &AbstractNumberType) -> (r: DegreeType)
    requires
        0 <= big_int_value(*input) < 0x1_0000_0000_0000_0000,
    ensures
        r == big_int_value(*input),
{
    let unsigned = to_unsigned(input).unwrap();
    let digits = unsigned_digits(&unsigned);
    proof {
        lemma_small_digits(digits@);
    }
    if digits.len() == 0 {
        0
    } else {
        digits[0]
    }
}

/// Converts an arbitrary-precision number to a degree or row index, or
/// nothing when the number is negative or does not fit in 64 bits.
pub fn try_abstract_to_degree(input: &AbstractNumberType) -> (r: Option<DegreeType>)
    ensures
        r is Some <==> 0 <= big_int_value(*input) < 0x1_0000_0000_0000_0000,
        r matches Some(d) ==> d == big_int_value(*input),
{
    match to_unsigned(input) {
        None => None,
        Some(unsigned) => {
            let digits = unsigned_digits(&unsigned);
            if digits.len() == 0 {
                Some(0)
            } else if digits.len() == 1 {
                proof {
                    assert(digits_value(digits@.drop_first()) == 0);
                }
                Some(digits[0])
            } else {
                proof {
                    let tail = digits@.drop_first();
                    assert(tail[tail.len() - 1] == digits@[digits@.len() - 1]);
                    lemma_digits_value_positive(tail);
                    assert(digits_value(digits@) >= 0x1_0000_0000_0000_0000);
                }
                None
            }
        },
    }
}

/// Whether an arbitrary-precision number is zero.
pub fn is_zero(x: &AbstractNumberType) -> (r: bool)
    ensures
        r <==> big_int_value(*x) == 0,
{
    matches!(sign_class(x), SignClass::Zero)
}

} // verus!

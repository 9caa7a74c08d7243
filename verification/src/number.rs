//! Decimal fixed-point numbers: the one numeric kind of the language.
//!
//! A number is an integer count of billionths. Every operation is exact
//! integer arithmetic, and an operation whose result does not fit reports
//! that instead of wrapping.
use vstd::prelude::*;

verus! {

/// How many raw units make one: numbers carry nine decimal places.
pub const SCALE: i128 = 1_000_000_000;

/// The number of decimal places that a number carries.
pub const PLACES: usize = 9;

/// A decimal fixed-point number; its value is `raw / SCALE`.
#[derive(Clone, Copy, Debug, PartialEq, Eq, Structural)]
pub struct Number {
    pub raw: i128,
}

/// The magnitude of an integer.
pub open spec fn abs(x: int) -> int {
    if x < 0 {
        -x
    } else {
        x
    }
}

/// Whether `x` is the raw form of some number.
pub open spec fn in_range(x: int) -> bool {
    i128::MIN <= x <= i128::MAX
}

/// `x` where it is the raw form of some number, nothing otherwise.
pub open spec fn checked(x: int) -> Option<int> {
    if in_range(x) {
        Some(x)
    } else {
        None
    }
}

/// The raw sum of two raw numbers.
pub open spec fn sum(a: int, b: int) -> Option<int> {
    checked(a + b)
}

/// The raw difference of two raw numbers.
pub open spec fn difference(a: int, b: int) -> Option<int> {
    checked(a - b)
}

/// The raw negation of a raw number.
pub open spec fn negation(a: int) -> Option<int> {
    checked(-a)
}

/// `m` carrying the sign of a result whose operands had the given signs.
pub open spec fn signed(negative: bool, m: int) -> int {
    if negative {
        -m
    } else {
        m
    }
}

/// The raw product of two raw numbers, rounded toward zero. It exists while
/// the product of the raw magnitudes fits in 128 bits.
pub open spec fn product(a: int, b: int) -> Option<int> {
    let p = abs(a) * abs(b);
    if p > u128::MAX {
        None
    } else {
        Some(signed((a < 0) != (b < 0), p / (SCALE as int)))
    }
}

/// The raw quotient of two raw numbers, rounded toward zero. It exists while
/// the divisor is not zero, the scaled dividend fits in 128 bits and the
/// quotient is in range.
pub open spec fn quotient(a: int, b: int) -> Option<int> {
    let n = abs(a) * (SCALE as int);
    if b == 0 || n > u128::MAX {
        None
    } else {
        checked(signed((a < 0) != (b < 0), n / abs(b)))
    }
}

/// The raw remainder of dividing `a` by `b`; it takes the sign of `a`.
pub open spec fn remainder(a: int, b: int) -> Option<int> {
    if b == 0 {
        None
    } else {
        Some(signed(a < 0, abs(a) % abs(b)))
    }
}

/// The whole part of a raw number that is not negative, zero for one that is,
/// capped at the largest `usize`.
pub open spec fn whole_count(a: int) -> nat {
    if a <= 0 {
        0
    } else if a / (SCALE as int) > usize::MAX {
        usize::MAX as nat
    } else {
        (a / (SCALE as int)) as nat
    }
}

/// The decimal digits of `n`, most significant first; none for zero.
pub open spec fn digits(n: nat) -> Seq<u8>
    decreases n,
{
    if n == 0 {
        Seq::empty()
    } else {
        digits(n / 10).push(('0' as u8 + n % 10) as u8)
    }
}

/// The decimal digits of a whole number: `"0"` for zero.
pub open spec fn whole_text(n: nat) -> Seq<u8> {
    if n == 0 {
        seq!['0' as u8]
    } else {
        digits(n)
    }
}

/// The digits of the fraction `f / 10^places` without trailing zeros.
pub open spec fn fraction_text(f: nat, places: nat) -> Seq<u8>
    decreases places,
{
    if places == 0 || f == 0 {
        Seq::empty()
    } else if f % 10 == 0 {
        fraction_text(f / 10, (places - 1) as nat)
    } else {
        padded(f / 10, (places - 1) as nat).push(('0' as u8 + f % 10) as u8)
    }
}

/// The digits of `f`, padded with zeros on the left to `places` digits.
pub open spec fn padded(f: nat, places: nat) -> Seq<u8>
    decreases places,
{
    if places == 0 {
        Seq::empty()
    } else {
        padded(f / 10, (places - 1) as nat).push(('0' as u8 + f % 10) as u8)
    }
}

/// How a raw number is written: an optional `-`, the whole part, and, where
/// the fraction is not zero, a `.` and the fraction without trailing zeros.
pub open spec fn number_text(a: int) -> Seq<u8> {
    let m = abs(a);
    let whole = (m / (SCALE as int)) as nat;
    let fraction = (m % (SCALE as int)) as nat;
    let sign = if a < 0 {
        seq!['-' as u8]
    } else {
        Seq::empty()
    };
    let tail = if fraction == 0 {
        Seq::empty()
    } else {
        seq!['.' as u8] + fraction_text(fraction, PLACES as nat)
    };
    sign + whole_text(whole) + tail
}

/// The magnitude of `x`.
pub fn magnitude(x: i128) -> (m: u128)
    ensures
        m == abs(x as int),
{
    if x >= 0 {
        x as u128
    } else if x == i128::MIN {
        0x8000_0000_0000_0000_0000_0000_0000_0000u128
    } else {
        (-x) as u128
    }
}

/// The integer of magnitude `m` with the given sign, where it is in range.
pub fn with_sign(negative: bool, m: u128) -> (r: Option<i128>)
    ensures
        r matches Some(x) ==> x == signed(negative, m as int),
        r is Some <==> in_range(signed(negative, m as int)),
{
    if negative {
        if m <= 0x7fff_ffff_ffff_ffff_ffff_ffff_ffff_ffffu128 {
            Some(-(m as i128))
        } else if m == 0x8000_0000_0000_0000_0000_0000_0000_0000u128 {
            Some(i128::MIN)
        } else {
            None
        }
    } else if m <= 0x7fff_ffff_ffff_ffff_ffff_ffff_ffff_ffffu128 {
        Some(m as i128)
    } else {
        None
    }
}

impl View for Number {
    type V = int;

    open spec fn view(&self) -> int {
        self.raw as int
    }
}

impl Number {
    /// The number zero.
    pub fn zero() -> (r: Number)
        ensures
            r@ == 0,
    {
        Number { raw: 0 }
    }

    /// The number one.
    pub fn one() -> (r: Number)
        ensures
            r@ == SCALE,
    {
        Number { raw: SCALE }
    }

    /// The whole number `n`, where it is in range.
    pub fn from_whole(n: i64) -> (r: Number)
        ensures
            r@ == n * SCALE,
    {
        assert(in_range(n * SCALE)) by (nonlinear_arith)
            requires
                i64::MIN <= n <= i64::MAX,
                SCALE == 1_000_000_000,
        ;
        Number { raw: (n as i128) * SCALE }
    }

    /// Whether the number is zero.
    pub fn is_zero(&self) -> (r: bool)
        ensures
            r == (self@ == 0),
    {
        self.raw == 0
    }

    /// The sum, where it is in range.
    pub fn plus(&self, other: &Number) -> (r: Option<Number>)
        ensures
            r matches Some(n) ==> sum(self@, other@) == Some(n@),
            r is None ==> sum(self@, other@) is None,
    {
        match self.raw.checked_add(other.raw) {
            Some(raw) => Some(Number { raw }),
            None => None,
        }
    }

    /// The difference, where it is in range.
    pub fn minus(&self, other: &Number) -> (r: Option<Number>)
        ensures
            r matches Some(n) ==> difference(self@, other@) == Some(n@),
            r is None ==> difference(self@, other@) is None,
    {
        match self.raw.checked_sub(other.raw) {
            Some(raw) => Some(Number { raw }),
            None => None,
        }
    }

    /// The negation, where it is in range.
    pub fn negated(&self) -> (r: Option<Number>)
        ensures
            r matches Some(n) ==> negation(self@) == Some(n@),
            r is None ==> negation(self@) is None,
    {
        if self.raw == i128::MIN {
            None
        } else {
            Some(Number { raw: -self.raw })
        }
    }

    /// The product rounded toward zero, where it can be computed.
    pub fn times(&self, other: &Number) -> (r: Option<Number>)
        ensures
            r matches Some(n) ==> product(self@, other@) == Some(n@),
            r is None ==> product(self@, other@) is None,
    {
        let a = magnitude(self.raw);
        let b = magnitude(other.raw);
        match a.checked_mul(b) {
            Some(p) => {
                let q = p / (SCALE as u128);
                let negative = (self.raw < 0) != (other.raw < 0);
                assert(q <= i128::MAX) by {
                    assert(p / 1_000_000_000 <= 0x7fff_ffff_ffff_ffff_ffff_ffff_ffff_ffffu128);
                }
                let m = q as i128;
                Some(
                    Number {
                        raw: if negative {
                            -m
                        } else {
                            m
                        },
                    },
                )
            },
            None => None,
        }
    }

    /// The quotient rounded toward zero, where it can be computed.
    pub fn over(&self, other: &Number) -> (r: Option<Number>)
        ensures
            r matches Some(n) ==> quotient(self@, other@) == Some(n@),
            r is None ==> quotient(self@, other@) is None,
    {
        if other.raw == 0 {
            return None;
        }
        let a = magnitude(self.raw);
        let b = magnitude(other.raw);
        match a.checked_mul(SCALE as u128) {
            Some(n) => {
                let q = n / b;
                let negative = (self.raw < 0) != (other.raw < 0);
                match with_sign(negative, q) {
                    Some(raw) => Some(Number { raw }),
                    None => None,
                }
            },
            None => None,
        }
    }

    /// The remainder, where the divisor is not zero.
    pub fn modulo(&self, other: &Number) -> (r: Option<Number>)
        ensures
            r matches Some(n) ==> remainder(self@, other@) == Some(n@),
            r is None ==> remainder(self@, other@) is None,
    {
        if other.raw == 0 {
            return None;
        }
        let a = magnitude(self.raw);
        let b = magnitude(other.raw);
        let m = (a % b) as i128;
        Some(
            Number {
                raw: if self.raw < 0 {
                    -m
                } else {
                    m
                },
            },
        )
    }

    /// Whether this number is smaller than the other.
    pub fn less_than(&self, other: &Number) -> (r: bool)
        ensures
            r == (self@ < other@),
    {
        self.raw < other.raw
    }

    /// The whole part as a count: zero for a negative number.
    pub fn to_count(&self) -> (r: usize)
        ensures
            r == whole_count(self@),
    {
        if self.raw <= 0 {
            0
        } else {
            let w = self.raw / SCALE;
            if w > usize::MAX as i128 {
                usize::MAX
            } else {
                w as usize
            }
        }
    }

    /// The number as text.
    pub fn to_text(&self) -> (r: Vec<u8>)
        ensures
            r@ == number_text(self@),
    {
        let m = magnitude(self.raw);
        let whole = m / (SCALE as u128);
        let fraction = m % (SCALE as u128);
        let mut out: Vec<u8> = Vec::new();
        if self.raw < 0 {
            out.push('-' as u8);
        }
        let ghost sign = out@;
        push_whole(&mut out, whole);
        if fraction != 0 {
            out.push('.' as u8);
            let ghost head = out@;
            push_fraction(&mut out, fraction, PLACES);
            assert(out@ == sign + whole_text(whole as nat) + (seq!['.' as u8] + fraction_text(
                fraction as nat,
                PLACES as nat,
            ))) by {
                assert(out@ =~= sign + whole_text(whole as nat) + (seq!['.' as u8] + fraction_text(
                    fraction as nat,
                    PLACES as nat,
                )));
            }
        } else {
            assert(out@ =~= sign + whole_text(whole as nat) + Seq::<u8>::empty());
        }
        out
    }
}

/// The digits of `n` reversed: least significant first.
pub open spec fn digits_reversed(n: nat) -> Seq<u8>
    decreases n,
{
    if n == 0 {
        Seq::empty()
    } else {
        seq![('0' as u8 + n % 10) as u8] + digits_reversed(n / 10)
    }
}

proof fn lemma_digits_reversed(n: nat)
    ensures
        digits_reversed(n).reverse() == digits(n),
    decreases n,
{
    if n == 0 {
        assert(digits_reversed(n).reverse() =~= digits(n));
    } else {
        lemma_digits_reversed(n / 10);
        let d = (48 + n % 10) as u8;
        let rest = digits_reversed(n / 10);
        assert((seq![d] + rest).reverse() =~= rest.reverse().push(d));
    }
}

/// Appends the digits of the whole number `n`.
fn push_whole(out: &mut Vec<u8>, n: u128)
    ensures
        final(out)@ == old(out)@ + whole_text(n as nat),
{
    if n == 0 {
        out.push('0' as u8);
        assert(out@ =~= old(out)@ + whole_text(n as nat));
        return ;
    }
    let mut stack: Vec<u8> = Vec::new();
    let mut rest = n;
    while rest != 0
        invariant
            stack@ + digits_reversed(rest as nat) == digits_reversed(n as nat),
        decreases rest,
    {
        let d = ('0' as u8 as u128 + rest % 10) as u8;
        proof {
            assert(digits_reversed(rest as nat) == seq![d] + digits_reversed((rest / 10) as nat));
            assert(stack@.push(d) + digits_reversed((rest / 10) as nat) =~= stack@ + (seq![d]
                + digits_reversed((rest / 10) as nat)));
        }
        stack.push(d);
        rest = rest / 10;
    }
    proof {
        assert(stack@ =~= digits_reversed(n as nat));
        lemma_digits_reversed(n as nat);
    }
    let mut i = stack.len();
    while i > 0
        invariant
            i <= stack@.len(),
            out@ == old(out)@ + stack@.reverse().subrange(0, stack@.len() - i),
        decreases i,
    {
        i = i - 1;
        out.push(stack[i]);
        assert(out@ =~= old(out)@ + stack@.reverse().subrange(0, stack@.len() - i));
    }
    assert(stack@.reverse().subrange(0, stack@.len() as int) =~= stack@.reverse());
}

/// Appends the digits of `f`, padded on the left to `places` digits.
fn push_padded(out: &mut Vec<u8>, f: u128, places: usize)
    ensures
        final(out)@ == old(out)@ + padded(f as nat, places as nat),
    decreases places,
{
    if places == 0 {
        assert(out@ =~= old(out)@ + padded(f as nat, places as nat));
    } else {
        push_padded(out, f / 10, places - 1);
        let d = ('0' as u8 as u128 + f % 10) as u8;
        out.push(d);
        assert(out@ =~= old(out)@ + padded(f as nat, places as nat));
    }
}

/// Appends the digits of the fraction `f / 10^places` without trailing zeros.
fn push_fraction(out: &mut Vec<u8>, f: u128, places: usize)
    ensures
        final(out)@ == old(out)@ + fraction_text(f as nat, places as nat),
    decreases places,
{
    if places == 0 || f == 0 {
        assert(out@ =~= old(out)@ + fraction_text(f as nat, places as nat));
    } else if f % 10 == 0 {
        push_fraction(out, f / 10, places - 1);
    } else {
        push_padded(out, f / 10, places - 1);
        let d = ('0' as u8 as u128 + f % 10) as u8;
        out.push(d);
        assert(out@ =~= old(out)@ + fraction_text(f as nat, places as nat));
    }
}

} // verus!

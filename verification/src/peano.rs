//! The Peano numeral type and its arithmetic.

use vstd::prelude::*;

verus! {

use std::cmp::Ordering;

/// A natural number written unarily: either zero, or the successor of a
/// smaller natural number. The nesting depth of a numeral is the number
/// it stands for, so structural equality coincides with value equality
/// (see [`lemma_value_injective`]).
#[derive(Debug, PartialEq, Eq)]
pub enum Peano {
    Zero,
    Succ(Box<Peano>),
}

/// The one way an operation on numerals can fail: dividing a nonzero
/// numeral by `Zero`.
#[derive(Debug, PartialEq, Eq)]
pub enum PeanoError {
    DivisionByZero,
}

impl Peano {
    /// The natural number a numeral stands for: its nesting depth.
    pub open spec fn value(self) -> nat
        decreases self,
    {
        match self {
            Peano::Zero => 0,
            Peano::Succ(n) => 1 + n.value(),
        }
    }
}

/// The canonical numeral for a natural number: `n` successor layers
/// around `Zero`.
pub open spec fn peano_of(n: nat) -> Peano
    decreases n,
{
    if n == 0 {
        Peano::Zero
    } else {
        Peano::Succ(Box::new(peano_of((n - 1) as nat)))
    }
}

/// The canonical numeral for `n` stands for `n`. Together with the
/// contracts of [`Peano::from_int`] and [`Peano::to_int`] this is the
/// round-trip law: converting a non-negative machine integer to a
/// numeral and back returns the integer unchanged.
pub proof fn lemma_peano_of_value(n: nat)
    ensures
        peano_of(n).value() == n,
    decreases n,
{
    if n > 0 {
        lemma_peano_of_value((n - 1) as nat);
    }
}

/// Every numeral is the canonical numeral of its value: the
/// representation has exactly one numeral per natural number.
pub proof fn lemma_canonical(p: Peano)
    ensures
        peano_of(p.value()) == p,
    decreases p,
{
    match p {
        Peano::Zero => {}
        Peano::Succ(n) => {
            lemma_canonical(*n);
        }
    }
}

/// Two numerals are equal exactly when the natural numbers they stand
/// for are equal.
pub proof fn lemma_value_injective(a: Peano, b: Peano)
    ensures
        a == b <==> a.value() == b.value(),
{
    if a.value() == b.value() {
        lemma_canonical(a);
        lemma_canonical(b);
    }
}

impl Peano {
    /// The numeral for `n`, clamping negative inputs to `Zero`.
    pub fn from_int(n: i64) -> (r: Peano)
        ensures
            r == peano_of(if n <= 0 { 0nat } else { n as nat }),
            r.value() == if n <= 0 { 0nat } else { n as nat },
        decreases n,
    {
        if n <= 0 {
            Peano::Zero
        } else {
            Peano::Succ(Box::new(Peano::from_int(n - 1)))
        }
    }
}

/// The sum of two numerals, as a canonical numeral.
pub open spec fn spec_add(a: Peano, b: Peano) -> Peano {
    peano_of(a.value() + b.value())
}

/// The difference of two numerals, floor-clamped at `Zero`, as a
/// canonical numeral.
pub open spec fn spec_sub(a: Peano, b: Peano) -> Peano {
    if a.value() >= b.value() {
        peano_of((a.value() - b.value()) as nat)
    } else {
        Peano::Zero
    }
}

/// The product of two numerals, as a canonical numeral.
pub open spec fn spec_mul(a: Peano, b: Peano) -> Peano {
    peano_of(a.value() * b.value())
}

impl Clone for Peano {
    /// An equal, independently owned numeral.
    fn clone(&self) -> (r: Peano)
        ensures
            r == *self,
        decreases self,
    {
        match self {
            Peano::Zero => Peano::Zero,
            Peano::Succ(n) => Peano::Succ(Box::new((**n).clone())),
        }
    }
}

impl Peano {
    /// The machine integer a numeral stands for.
    pub fn to_int(&self) -> (r: i64)
        requires
            self.value() <= i64::MAX,
        ensures
            r == self.value(),
        decreases self,
    {
        match self {
            Peano::Zero => 0,
            Peano::Succ(n) => 1 + n.to_int(),
        }
    }

    /// The sum of `self` and `other`.
    pub fn add(&self, other: &Peano) -> (r: Peano)
        ensures
            r == spec_add(*self, *other),
            r.value() == self.value() + other.value(),
        decreases self,
    {
        let r = match self {
            Peano::Zero => other.clone(),
            Peano::Succ(n) => Peano::Succ(Box::new(n.add(other))),
        };
        proof {
            lemma_canonical(r);
        }
        r
    }

    /// The difference of `self` and `other`, floor-clamped: when `other`
    /// stands for a larger number than `self`, the result is `Zero`.
    pub fn sub(&self, other: &Peano) -> (r: Peano)
        ensures
            r == spec_sub(*self, *other),
            r.value() == if self.value() >= other.value() {
                self.value() - other.value()
            } else {
                0
            },
        decreases self,
    {
        let r = match (self, other) {
            (Peano::Zero, _) => Peano::Zero,
            (Peano::Succ(_), Peano::Zero) => self.clone(),
            (Peano::Succ(n1), Peano::Succ(n2)) => n1.sub(n2),
        };
        proof {
            lemma_canonical(r);
        }
        r
    }

    /// The product of `self` and `other`: `other` added to `Zero` once
    /// for each successor layer of `self`.
    pub fn mul(&self, other: &Peano) -> (r: Peano)
        ensures
            r == spec_mul(*self, *other),
            r.value() == self.value() * other.value(),
        decreases self,
    {
        let r = match self {
            Peano::Zero => Peano::Zero,
            Peano::Succ(n) => {
                let p = n.mul(other);
                proof {
                    vstd::arithmetic::mul::lemma_mul_is_distributive_add_other_way(
                        other.value() as int,
                        n.value() as int,
                        1,
                    );
                }
                p.add(other)
            }
        };
        proof {
            lemma_canonical(r);
        }
        r
    }
}

/// How two numerals are ordered: the order of the natural numbers they
/// stand for.
pub open spec fn spec_compare(a: Peano, b: Peano) -> Ordering {
    if a.value() < b.value() {
        Ordering::Less
    } else if a.value() == b.value() {
        Ordering::Equal
    } else {
        Ordering::Greater
    }
}

/// The quotient of two numerals, or the error a division reports. A
/// dividend of `Zero` yields `Zero` whatever the divisor is — even
/// `Zero` divided by `Zero` is `Zero`, never an error; only a nonzero
/// dividend over a `Zero` divisor fails.
pub open spec fn spec_div(a: Peano, b: Peano) -> Result<Peano, PeanoError> {
    if a.value() == 0 {
        Ok(Peano::Zero)
    } else if b.value() == 0 {
        Err(PeanoError::DivisionByZero)
    } else {
        Ok(peano_of(a.value() / b.value()))
    }
}

impl Peano {
    /// Whether `self` stands for an even number.
    pub fn even(&self) -> (r: bool)
        ensures
            r == (self.value() % 2 == 0),
        decreases self,
    {
        match self {
            Peano::Zero => true,
            Peano::Succ(n) => !n.even(),
        }
    }

    /// Whether `self` stands for an odd number.
    pub fn odd(&self) -> (r: bool)
        ensures
            r == (self.value() % 2 == 1),
        decreases self,
    {
        match self {
            Peano::Zero => false,
            Peano::Succ(n) => n.even(),
        }
    }

    /// How `self` is ordered against `other`: both numerals are peeled
    /// in lock-step until one reaches `Zero`.
    pub fn compare(&self, other: &Peano) -> (r: Ordering)
        ensures
            r == spec_compare(*self, *other),
        decreases self,
    {
        match (self, other) {
            (Peano::Zero, Peano::Zero) => Ordering::Equal,
            (Peano::Zero, _) => Ordering::Less,
            (_, Peano::Zero) => Ordering::Greater,
            (Peano::Succ(n1), Peano::Succ(n2)) => n1.compare(n2),
        }
    }

    /// The quotient of `self` over `other`, by repeated subtraction, or
    /// `DivisionByZero` when a nonzero `self` is divided by `Zero`. A
    /// `Zero` dividend yields `Ok(Zero)` whatever the divisor is.
    pub fn div(&self, other: &Peano) -> (r: Result<Peano, PeanoError>)
        ensures
            r == spec_div(*self, *other),
            r is Err <==> self.value() > 0 && other.value() == 0,
            r matches Ok(q) ==> q.value() == (if other.value() == 0 {
                0nat
            } else {
                self.value() / other.value()
            }),
    {
        match self {
            Peano::Zero => Ok(Peano::Zero),
            Peano::Succ(_) => match other {
                Peano::Zero => Err(PeanoError::DivisionByZero),
                Peano::Succ(_) => {
                    let mut count = Peano::Zero;
                    let mut remainder = self.clone();
                    proof {
                        vstd::arithmetic::mul::lemma_mul_basics(other.value() as int);
                    }
                    while matches!(remainder.compare(other), Ordering::Greater | Ordering::Equal)
                        invariant
                            other.value() > 0,
                            count.value() * other.value() + remainder.value() == self.value(),
                        decreases remainder.value(),
                    {
                        proof {
                            vstd::arithmetic::mul::lemma_mul_is_distributive_add_other_way(
                                other.value() as int,
                                count.value() as int,
                                1,
                            );
                            assert(Peano::Succ(Box::new(Peano::Zero)).value() == 1) by {
                                reveal_with_fuel(Peano::value, 2);
                            }
                        }
                        remainder = remainder.sub(other);
                        count = count.add(&Peano::Succ(Box::new(Peano::Zero)));
                    }
                    proof {
                        vstd::arithmetic::div_mod::lemma_fundamental_div_mod_converse(
                            self.value() as int,
                            other.value() as int,
                            count.value() as int,
                            remainder.value() as int,
                        );
                        lemma_canonical(count);
                    }
                    Ok(count)
                }
            },
        }
    }
}

/// `Zero` is an identity for addition, and addition is commutative and
/// associative.
pub proof fn lemma_add_laws(a: Peano, b: Peano, c: Peano)
    ensures
        spec_add(a, Peano::Zero) == a,
        spec_add(Peano::Zero, a) == a,
        spec_add(a, b) == spec_add(b, a),
        spec_add(spec_add(a, b), c) == spec_add(a, spec_add(b, c)),
{
    lemma_canonical(a);
    lemma_peano_of_value(a.value() + b.value());
    lemma_peano_of_value(b.value() + c.value());
}

/// `Zero` absorbs multiplication, the numeral for one is its identity,
/// the product's value is the product of the values, and multiplication
/// is commutative.
pub proof fn lemma_mul_laws(a: Peano, b: Peano)
    ensures
        spec_mul(a, Peano::Zero) == Peano::Zero,
        spec_mul(Peano::Zero, a) == Peano::Zero,
        spec_mul(a, peano_of(1)) == a,
        spec_mul(a, b).value() == a.value() * b.value(),
        spec_mul(a, b) == spec_mul(b, a),
{
    lemma_canonical(a);
    lemma_peano_of_value(1);
    lemma_peano_of_value(a.value() * b.value());
    vstd::arithmetic::mul::lemma_mul_basics(a.value() as int);
    vstd::arithmetic::mul::lemma_mul_is_commutative(a.value() as int, b.value() as int);
}

/// Subtracting a larger numeral floors at `Zero`.
pub proof fn lemma_sub_floor(a: Peano, b: Peano)
    requires
        a.value() < b.value(),
    ensures
        spec_sub(a, b) == Peano::Zero,
{
}

/// A numeral is even or odd, never both: the two parity tests are
/// consistent.
pub proof fn lemma_parity(x: Peano)
    ensures
        (x.value() % 2 == 0) != (x.value() % 2 == 1),
{
}

/// `compare` orders numerals exactly as the natural numbers they stand
/// for are ordered, and finds them equal exactly when they are the same
/// numeral.
pub proof fn lemma_compare_order(a: Peano, b: Peano)
    ensures
        (spec_compare(a, b) == Ordering::Less) <==> a.value() < b.value(),
        (spec_compare(a, b) == Ordering::Equal) <==> a.value() == b.value(),
        (spec_compare(a, b) == Ordering::Greater) <==> a.value() > b.value(),
        (spec_compare(a, b) == Ordering::Equal) <==> a == b,
{
    lemma_value_injective(a, b);
}

/// For a nonzero divisor, division succeeds with the floor quotient:
/// the quotient times the divisor does not exceed the dividend, while
/// one more multiple would.
pub proof fn lemma_div_exact(a: Peano, b: Peano)
    requires
        b.value() > 0,
    ensures
        spec_div(a, b) == Ok::<Peano, PeanoError>(peano_of(a.value() / b.value())),
        peano_of(a.value() / b.value()).value() == a.value() / b.value(),
        b.value() * (a.value() / b.value()) <= a.value(),
        a.value() < b.value() * (a.value() / b.value() + 1),
{
    lemma_peano_of_value(a.value() / b.value());
    vstd::arithmetic::div_mod::lemma_fundamental_div_mod(a.value() as int, b.value() as int);
    vstd::arithmetic::div_mod::lemma_mod_bound(a.value() as int, b.value() as int);
    vstd::arithmetic::mul::lemma_mul_basics(b.value() as int);
    vstd::arithmetic::mul::lemma_mul_is_distributive_add(
        b.value() as int,
        (a.value() / b.value()) as int,
        1,
    );
    if a.value() == 0 {
        vstd::arithmetic::div_mod::lemma_fundamental_div_mod_converse(0, b.value() as int, 0, 0);
    }
}

/// Division reports `DivisionByZero` exactly when a nonzero numeral is
/// divided by `Zero`; `Zero` divided by `Zero` is the documented
/// special case, `Ok(Zero)`.
pub proof fn lemma_div_by_zero(a: Peano)
    ensures
        a.value() > 0 ==> spec_div(a, Peano::Zero) == Err::<Peano, PeanoError>(
            PeanoError::DivisionByZero,
        ),
        spec_div(Peano::Zero, Peano::Zero) == Ok::<Peano, PeanoError>(Peano::Zero),
{
}

} // verus!

use vstd::prelude::*;
use crate::text::{decimal, push_decimal};

verus! {

/// The coefficient domain of a combination: the integers modulo some
/// `modulus() > 1`, each element standing for exactly one residue.
pub trait Field: Sized {
    /// The number of elements.
    spec fn modulus() -> nat;

    /// The residue that this element stands for.
    spec fn val(&self) -> nat;

    /// The element is well formed; every operation keeps it so.
    spec fn inv(&self) -> bool;

    proof fn lemma_modulus()
        ensures
            Self::modulus() > 1,
    ;

    /// A well-formed element stands for a residue below the modulus.
    proof fn lemma_residue(a: &Self)
        requires
            a.inv(),
        ensures
            Self::modulus() > 1,
            a.val() < Self::modulus(),
    ;

    /// Two elements with the same residue are the same element.
    proof fn lemma_residue_injective(a: &Self, b: &Self)
        requires
            a.inv(),
            b.inv(),
            a.val() == b.val(),
        ensures
            *a == *b,
    ;

    /// The additive identity.
    fn zero() -> (r: Self)
        ensures
            r.inv(),
            r.val() == 0,
    ;

    /// The multiplicative identity.
    fn one() -> (r: Self)
        ensures
            r.inv(),
            r.val() == 1,
    ;

    /// `self + other`.
    fn add(&self, other: &Self) -> (r: Self)
        requires
            self.inv(),
            other.inv(),
        ensures
            r.inv(),
            r.val() == (self.val() + other.val()) % Self::modulus(),
    ;

    /// `self - other`.
    fn sub(&self, other: &Self) -> (r: Self)
        requires
            self.inv(),
            other.inv(),
        ensures
            r.inv(),
            r.val() == (self.val() - other.val()) % (Self::modulus() as int),
    ;

    /// Whether this is the additive identity.
    fn is_zero(&self) -> (r: bool)
        requires
            self.inv(),
        ensures
            r == (self.val() == 0),
    ;

    /// A copy of this element.
    fn duplicate(&self) -> (r: Self)
        ensures
            r == *self,
    ;

    /// How the element is written.
    spec fn text(&self) -> Seq<char>;

    /// The characters of `text`.
    fn render(&self) -> (r: Vec<char>)
        requires
            self.inv(),
        ensures
            r@ == self.text(),
    ;
}

/// The order of `FieldPrime`, the largest prime below `2^64`.
pub const PRIME: u64 = 18446744073709551557;

/// Integers modulo `PRIME`, held as their least non-negative residue.
#[derive(Debug, Clone, Copy, PartialEq, Eq, Structural)]
pub struct FieldPrime {
    value: u64,
}

impl FieldPrime {
    /// The element of residue `n mod PRIME`.
    pub fn from_u64(n: u64) -> (r: FieldPrime)
        ensures
            r.inv(),
            r.val() == n % PRIME,
    {
        FieldPrime { value: n % PRIME }
    }

    /// The least non-negative residue.
    pub fn value(&self) -> (r: u64)
        ensures
            r == self.val(),
    {
        self.value
    }
}

impl Field for FieldPrime {
    open spec fn modulus() -> nat {
        PRIME as nat
    }

    closed spec fn val(&self) -> nat {
        self.value as nat
    }

    closed spec fn inv(&self) -> bool {
        self.value < PRIME
    }

    proof fn lemma_modulus() {
    }

    proof fn lemma_residue(a: &Self) {
    }

    proof fn lemma_residue_injective(a: &Self, b: &Self) {
    }

    fn zero() -> (r: Self) {
        FieldPrime { value: 0 }
    }

    fn one() -> (r: Self) {
        FieldPrime { value: 1 }
    }

    fn add(&self, other: &Self) -> (r: Self) {
        let s: u128 = self.value as u128 + other.value as u128;
        FieldPrime { value: (s % (PRIME as u128)) as u64 }
    }

    fn sub(&self, other: &Self) -> (r: Self) {
        let s: u128 = self.value as u128 + PRIME as u128 - other.value as u128;
        let r = FieldPrime { value: (s % (PRIME as u128)) as u64 };
        let ghost d: int = self.value - other.value;
        assert((d + PRIME) % (PRIME as int) == d % (PRIME as int)) by {
            vstd::arithmetic::div_mod::lemma_mod_add_multiples_vanish(d, PRIME as int);
        }
        r
    }

    fn is_zero(&self) -> (r: bool) {
        self.value == 0
    }

    fn duplicate(&self) -> (r: Self) {
        *self
    }

    /// The residue in decimal.
    open spec fn text(&self) -> Seq<char> {
        decimal(self.val())
    }

    fn render(&self) -> (r: Vec<char>) {
        let mut r: Vec<char> = Vec::new();
        push_decimal(&mut r, self.value);
        proof {
            assert(r@ =~= decimal(self.val()));
        }
        r
    }
}

impl From<u64> for FieldPrime {
    fn from(n: u64) -> (r: FieldPrime) {
        FieldPrime::from_u64(n)
    }
}

impl vstd::std_specs::convert::FromSpecImpl<u64> for FieldPrime {
    open spec fn obeys_from_spec() -> bool {
        true
    }

    closed spec fn from_spec(n: u64) -> FieldPrime {
        FieldPrime { value: n % PRIME }
    }
}

}

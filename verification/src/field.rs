//! The prime field underlying the virtual machine.
//!
//! An element is stored as a fully reduced `u64` representative. Only the
//! elements `0` and `1` may drive control flow; the processor checks that at
//! each decision point.

use vstd::prelude::*;

verus! {

/// The prime modulus of the VM's field: `2^64 - 2^32 + 1`.
pub const FELT_MODULUS: u64 = 18446744069414584321;

/// An element of the VM's prime field.
#[derive(Clone, Copy, Debug, PartialEq, Eq, Structural)]
pub struct Felt {
    value: u64,
}

/// Modular exponentiation, in the square-and-multiply shape: the result of
/// raising `a` to the power `e`, reduced modulo the field prime.
pub open spec fn pow_mod(a: int, e: nat) -> int
    decreases e,
{
    let p = FELT_MODULUS as int;
    if e == 0 {
        1int % p
    } else if e % 2 == 0 {
        (pow_mod(a, e / 2) * pow_mod(a, e / 2)) % p
    } else {
        ((a % p) * pow_mod(a, (e - 1) as nat)) % p
    }
}

/// `pow_mod` agrees with ordinary exponentiation reduced modulo the prime.
pub proof fn lemma_pow_mod_is_pow(a: int, e: nat)
    ensures
        pow_mod(a, e) == vstd::arithmetic::power::pow(a, e) % (FELT_MODULUS as int),
    decreases e,
{
    let p = FELT_MODULUS as int;
    reveal(vstd::arithmetic::power::pow);
    if e == 0 {
    } else if e % 2 == 0 {
        lemma_pow_mod_is_pow(a, e / 2);
        let h = vstd::arithmetic::power::pow(a, e / 2);
        vstd::arithmetic::div_mod::lemma_mul_mod_noop_general(h, h, p);
        vstd::arithmetic::power::lemma_pow_adds(a, e / 2, e / 2);
        assert(e / 2 + e / 2 == e);
    } else {
        lemma_pow_mod_is_pow(a, (e - 1) as nat);
        let h = vstd::arithmetic::power::pow(a, (e - 1) as nat);
        vstd::arithmetic::div_mod::lemma_mul_mod_noop_general(a, h, p);
    }
}

/// `(a * b) % FELT_MODULUS` computed without overflow through `u128`.
fn mul_mod(a: u64, b: u64) -> (r: u64)
    ensures
        r as int == (a as int * b as int) % (FELT_MODULUS as int),
        r < FELT_MODULUS,
{
    proof {
        assert((a as int) * (b as int) <= (u64::MAX as int) * (u64::MAX as int)) by (nonlinear_arith)
            requires
                a <= u64::MAX,
                b <= u64::MAX,
        ;
    }
    let wide: u128 = (a as u128) * (b as u128);
    (wide % (FELT_MODULUS as u128)) as u64
}

/// Recursive square-and-multiply; mirrors `pow_mod` branch for branch.
fn pow_exec(base: u64, e: u64) -> (r: u64)
    ensures
        r as int == pow_mod(base as int, e as nat),
        r < FELT_MODULUS,
    decreases e,
{
    if e == 0 {
        1
    } else if e % 2 == 0 {
        let h = pow_exec(base, e / 2);
        mul_mod(h, h)
    } else {
        let h = pow_exec(base, e - 1);
        mul_mod(base % FELT_MODULUS, h)
    }
}

impl Felt {
    /// The integer representative of the element.
    pub closed spec fn val(self) -> int {
        self.value as int
    }

    /// The element standing for `v`, reduced modulo the field prime.
    pub fn new(v: u64) -> (r: Felt)
        ensures
            r.val() == v as int % (FELT_MODULUS as int),
            r.val() < FELT_MODULUS,
    {
        Felt { value: v % FELT_MODULUS }
    }

    /// The additive identity, as a specification-level value.
    pub closed spec fn zero_spec() -> Felt {
        Felt { value: 0 }
    }

    /// The additive identity.
    pub fn zero() -> (r: Felt)
        ensures
            r.val() == 0,
            r == Felt::zero_spec(),
    {
        Felt { value: 0 }
    }

    /// The multiplicative identity.
    pub fn one() -> (r: Felt)
        ensures
            r.val() == 1,
    {
        Felt { value: 1 }
    }

    /// The reduced representative as a machine word.
    pub fn as_u64(self) -> (r: u64)
        ensures
            r as int == self.val(),
    {
        self.value
    }

    /// Field addition.
    pub fn add(self, other: Felt) -> (r: Felt)
        ensures
            r.val() == (self.val() + other.val()) % (FELT_MODULUS as int),
            r.val() < FELT_MODULUS,
    {
        let wide: u128 = self.value as u128 + other.value as u128;
        Felt { value: (wide % (FELT_MODULUS as u128)) as u64 }
    }

    /// Field multiplication.
    pub fn mul(self, other: Felt) -> (r: Felt)
        ensures
            r.val() == (self.val() * other.val()) % (FELT_MODULUS as int),
            r.val() < FELT_MODULUS,
    {
        Felt { value: mul_mod(self.value, other.value) }
    }

    /// Field negation.
    pub fn neg(self) -> (r: Felt)
        ensures
            r.val() == (FELT_MODULUS as int - self.val() % (FELT_MODULUS as int)) % (
            FELT_MODULUS as int),
            r.val() < FELT_MODULUS,
    {
        let v = self.value % FELT_MODULUS;
        if v == 0 {
            Felt { value: 0 }
        } else {
            Felt { value: FELT_MODULUS - v }
        }
    }

    /// The multiplicative inverse, computed as the `(p - 2)`-th power; maps
    /// zero to zero.
    pub fn inv(self) -> (r: Felt)
        ensures
            r.val() == pow_mod(self.val(), (FELT_MODULUS - 2) as nat),
            r.val() == vstd::arithmetic::power::pow(self.val(), (FELT_MODULUS - 2) as nat) % (
            FELT_MODULUS as int),
            r.val() < FELT_MODULUS,
    {
        proof {
            lemma_pow_mod_is_pow(self.val(), (FELT_MODULUS - 2) as nat);
        }
        Felt { value: pow_exec(self.value, FELT_MODULUS - 2) }
    }

    /// Whether the element is the additive identity.
    pub fn is_zero(self) -> (r: bool)
        ensures
            r == (self.val() == 0),
    {
        self.value == 0
    }

    /// Whether the element is the multiplicative identity.
    pub fn is_one(self) -> (r: bool)
        ensures
            r == (self.val() == 1),
    {
        self.value == 1
    }
}

/// Two elements are equal exactly when their integer representatives are.
pub proof fn lemma_felt_eq_val(a: Felt, b: Felt)
    ensures
        (a == b) <==> (a.val() == b.val()),
{
}

/// Copies a vector of field elements.
pub fn clone_felts(v: &Vec<Felt>) -> (r: Vec<Felt>)
    ensures
        r@ == v@,
{
    let mut r: Vec<Felt> = Vec::new();
    let mut i: usize = 0;
    while i < v.len()
        invariant
            i <= v.len(),
            r@ == v@.subrange(0, i as int),
        decreases v.len() - i,
    {
        r.push(v[i]);
        i = i + 1;
    }
    proof {
        assert(r@ =~= v@);
    }
    r
}

/// Appends `src[from .. to]` onto `dst`.
pub fn extend_range(dst: &mut Vec<Felt>, src: &Vec<Felt>, from: usize, to: usize)
    requires
        from <= to <= src@.len(),
    ensures
        final(dst)@ == old(dst)@ + src@.subrange(from as int, to as int),
{
    let mut i: usize = from;
    proof {
        assert(dst@ =~= old(dst)@ + src@.subrange(from as int, from as int));
    }
    while i < to
        invariant
            from <= i <= to <= src@.len(),
            dst@ == old(dst)@ + src@.subrange(from as int, i as int),
        decreases to - i,
    {
        let x = src[i];
        dst.push(x);
        proof {
            assert(dst@ =~= old(dst)@ + src@.subrange(from as int, i + 1));
        }
        i = i + 1;
    }
}

/// An ordered quadruple of field elements: the unit of memory addressing.
pub type Word = [Felt; 4];

} // verus!

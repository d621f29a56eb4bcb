//! Elements of the Pallas base field.
//!
//! An element is held as its canonical 32-byte little-endian encoding, and
//! its mathematical value is the number that encoding denotes. The arithmetic
//! itself is done by `pasta_curves`; the functions that reach it state what
//! they rely on. Each of them hands back the encoding that
//! `PrimeField::to_repr` gives, which is canonical.

use pasta_curves::arithmetic::FieldExt;
use pasta_curves::group::ff::PrimeField;
use vstd::prelude::*;

verus! {

/// The order of the field.
pub open spec fn modulus() -> nat {
    0x40000000000000000000000000000000224698fc094cf91b992d30ed00000001nat
}

/// The number that a little-endian byte string denotes.
pub open spec fn le_value(bytes: Seq<u8>) -> nat
    decreases bytes.len(),
{
    if bytes.len() == 0 {
        0
    } else {
        bytes[0] as nat + 256 * le_value(bytes.drop_first())
    }
}

/// Sum of two residues.
pub open spec fn field_add(a: nat, b: nat) -> nat {
    (a + b) % modulus()
}

/// Additive inverse of a residue.
pub open spec fn field_neg(a: nat) -> nat {
    ((modulus() - a) % (modulus() as int)) as nat
}

/// Product of two residues.
pub open spec fn field_mul(a: nat, b: nat) -> nat {
    (a * b) % modulus()
}

/// An element of the field.
#[derive(Clone, Copy, Debug, PartialEq, Eq)]
pub struct Fp {
    repr: [u8; 32],
}

impl View for Fp {
    type V = nat;

    closed spec fn view(&self) -> nat {
        le_value(self.repr@)
    }
}

/// Two byte strings of one length that denote the same number are the same.
proof fn lemma_le_value_injective(a: Seq<u8>, b: Seq<u8>)
    requires
        a.len() == b.len(),
        le_value(a) == le_value(b),
    ensures
        a == b,
    decreases a.len(),
{
    if a.len() > 0 {
        let ra = le_value(a.drop_first());
        let rb = le_value(b.drop_first());
        assert(a[0] as nat + 256 * ra == b[0] as nat + 256 * rb);
        assert(a[0] == b[0] && ra == rb) by (nonlinear_arith)
            requires
                a[0] as nat + 256 * ra == b[0] as nat + 256 * rb,
                a[0] < 256,
                b[0] < 256,
        ;
        lemma_le_value_injective(a.drop_first(), b.drop_first());
        assert(a =~= seq![a[0]] + a.drop_first());
        assert(b =~= seq![b[0]] + b.drop_first());
    } else {
        assert(a =~= b);
    }
}

/// `pasta_curves::Fp::zero`: the additive identity.
#[verifier::external_body]
fn pasta_zero() -> (r: Fp)
    ensures
        r@ == 0,
{
    Fp { repr: pasta_curves::Fp::zero().to_repr() }
}

/// `From<u64>` of `pasta_curves::Fp`: the element whose value is the integer,
/// which is below the modulus.
#[verifier::external_body]
fn pasta_from_u64(n: u64) -> (r: Fp)
    ensures
        r@ == n,
{
    Fp { repr: pasta_curves::Fp::from(n).to_repr() }
}

/// `FieldExt::from_u128` of `pasta_curves::Fp`: the element whose value is
/// the integer, which is below the modulus.
#[verifier::external_body]
fn pasta_from_u128(n: u128) -> (r: Fp)
    ensures
        r@ == n,
{
    Fp { repr: pasta_curves::Fp::from_u128(n).to_repr() }
}

/// `PrimeField::from_repr` of `pasta_curves::Fp`: accepts exactly the
/// encodings of numbers below the modulus, and keeps the number.
#[verifier::external_body]
fn pasta_from_repr(bytes: [u8; 32]) -> (r: Option<Fp>)
    ensures
        r is Some <==> le_value(bytes@) < modulus(),
        r matches Some(x) ==> x@ == le_value(bytes@),
{
    Option::<pasta_curves::Fp>::from(pasta_curves::Fp::from_repr(bytes)).map(
        |x: pasta_curves::Fp| Fp { repr: x.to_repr() },
    )
}

/// `Add` of `pasta_curves::Fp`: addition modulo the field order. The
/// operands are decoded with `PrimeField::from_repr`, which accepts them
/// because they are canonical.
#[verifier::external_body]
fn pasta_add(a: &Fp, b: &Fp) -> (r: Fp)
    requires
        a@ < modulus(),
        b@ < modulus(),
    ensures
        r@ == field_add(a@, b@),
{
    let x = pasta_curves::Fp::from_repr(a.repr).unwrap();
    let y = pasta_curves::Fp::from_repr(b.repr).unwrap();
    Fp { repr: (x + y).to_repr() }
}

/// `Neg` of `pasta_curves::Fp`: the additive inverse modulo the field
/// order. The operand is decoded with `PrimeField::from_repr`, which accepts
/// it because it is canonical.
#[verifier::external_body]
fn pasta_neg(a: &Fp) -> (r: Fp)
    requires
        a@ < modulus(),
    ensures
        r@ == field_neg(a@),
{
    let x = pasta_curves::Fp::from_repr(a.repr).unwrap();
    Fp { repr: (-x).to_repr() }
}

/// `Mul` of `pasta_curves::Fp`: multiplication modulo the field order. The
/// operands are decoded with `PrimeField::from_repr`, which accepts them
/// because they are canonical.
#[verifier::external_body]
fn pasta_mul(a: &Fp, b: &Fp) -> (r: Fp)
    requires
        a@ < modulus(),
        b@ < modulus(),
    ensures
        r@ == field_mul(a@, b@),
{
    let x = pasta_curves::Fp::from_repr(a.repr).unwrap();
    let y = pasta_curves::Fp::from_repr(b.repr).unwrap();
    Fp { repr: (x * y).to_repr() }
}

impl Fp {
    #[verifier::type_invariant]
    spec fn canonical(&self) -> bool {
        le_value(self.repr@) < modulus()
    }

    /// The additive identity.
    pub fn zero() -> (r: Fp)
        ensures
            r@ == 0,
    {
        pasta_zero()
    }

    /// The element with the value of a 64-bit integer.
    pub fn from_u64(n: u64) -> (r: Fp)
        ensures
            r@ == n,
    {
        pasta_from_u64(n)
    }

    /// The element with the value of a 128-bit integer.
    pub fn from_u128(n: u128) -> (r: Fp)
        ensures
            r@ == n,
    {
        pasta_from_u128(n)
    }

    /// Decodes a canonical little-endian encoding; an encoding of a number
    /// that is not below the modulus is refused.
    pub fn from_repr(bytes: [u8; 32]) -> (r: Option<Fp>)
        ensures
            r is Some <==> le_value(bytes@) < modulus(),
            r matches Some(x) ==> x@ == le_value(bytes@),
    {
        pasta_from_repr(bytes)
    }

    /// The canonical little-endian encoding.
    pub fn to_repr(&self) -> (r: [u8; 32])
        ensures
            le_value(r@) == self@,
            le_value(r@) < modulus(),
    {
        proof {
            use_type_invariant(self);
        }
        self.repr
    }

    /// Sum of two elements.
    pub fn add(&self, rhs: &Fp) -> (r: Fp)
        ensures
            r@ == field_add(self@, rhs@),
    {
        proof {
            use_type_invariant(self);
            use_type_invariant(rhs);
        }
        pasta_add(self, rhs)
    }

    /// Additive inverse.
    pub fn neg(&self) -> (r: Fp)
        ensures
            r@ == field_neg(self@),
    {
        proof {
            use_type_invariant(self);
        }
        pasta_neg(self)
    }

    /// Product of two elements.
    pub fn mul(&self, rhs: &Fp) -> (r: Fp)
        ensures
            r@ == field_mul(self@, rhs@),
    {
        proof {
            use_type_invariant(self);
            use_type_invariant(rhs);
        }
        pasta_mul(self, rhs)
    }

    /// Whether two elements have the same value.
    pub fn equals(&self, rhs: &Fp) -> (r: bool)
        ensures
            r == (self@ == rhs@),
    {
        let mut i: usize = 0;
        while i < 32
            invariant
                i <= 32,
                forall|k: int| 0 <= k < i ==> self.repr@[k] == rhs.repr@[k],
            decreases 32 - i,
        {
            if self.repr[i] != rhs.repr[i] {
                proof {
                    if self@ == rhs@ {
                        lemma_le_value_injective(self.repr@, rhs.repr@);
                    }
                }
                return false;
            }
            i += 1;
        }
        assert(self.repr@ =~= rhs.repr@);
        true
    }
}

} // verus!

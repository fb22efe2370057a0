use vstd::prelude::*;
use vstd::slice::slice_subrange;
use vstd::arithmetic::power2::pow2;
use ark_bn254::Fr;
use ark_r1cs_std::fields::fp::FpVar;
use ark_r1cs_std::fields::FieldVar;
use ark_r1cs_std::eq::EqGadget;
use ark_r1cs_std::alloc::AllocVar;
use ark_r1cs_std::boolean::Boolean;
use ark_r1cs_std::GR1CSVar;
use ark_relations::gr1cs::{ConstraintSystem, ConstraintSystemRef, SynthesisError};

verus! {

#[verifier::external_type_specification]
#[verifier::external_body]
pub struct ExSynthesisError(SynthesisError);

/// A field element of the 254-bit prime field the gadgets target.
/// Opaque to the verifier; produced and consumed through the trusted
/// conversions below.
#[verifier::external_body]
pub struct Felt {
    inner: Fr,
}

/// A field variable: a field element wired into the shared constraint
/// system. Opaque to the verifier.
#[verifier::external_body]
pub struct FVar {
    inner: FpVar<Fr>,
}

/// A boolean variable of the constraint system. Opaque to the
/// verifier.
#[verifier::external_body]
pub struct BVar {
    inner: Boolean<Fr>,
}

/// A handle on the shared, externally owned constraint system that
/// every gadget appends to. Opaque to the verifier.
#[verifier::external_body]
pub struct ConstraintSys {
    inner: ConstraintSystemRef<Fr>,
}

/// Relies on `ConstraintSystem::new_ref`: a fresh, empty constraint
/// system behind a shared handle.
#[verifier::external_body]
pub fn new_constraint_system() -> ConstraintSys {
    ConstraintSys { inner: ConstraintSystem::<Fr>::new_ref() }
}

/// Relies on `ConstraintSystemRef::is_satisfied`: whether the recorded
/// constraints hold of the recorded witness assignment.
#[verifier::external_body]
pub fn cs_is_satisfied(cs: &ConstraintSys) -> Result<bool, SynthesisError> {
    cs.inner.is_satisfied()
}

/// Relies on `Clone` for `ConstraintSystemRef`: another handle on the
/// same shared constraint system.
#[verifier::external_body]
pub fn cs_clone(cs: &ConstraintSys) -> ConstraintSys {
    ConstraintSys { inner: cs.inner.clone() }
}

/// The field's embedding of a `u64`: the canonical image of the
/// integer in the field, a function of the integer alone.
pub uninterp spec fn felt_of_u64(v: u64) -> Felt;

/// The field element a field variable carries: its assigned value,
/// fixed when the variable is created.
pub uninterp spec fn fvar_val(x: FVar) -> Felt;

/// The boolean a boolean variable carries: its assigned value, fixed
/// when the variable is created.
pub uninterp spec fn bvar_val(b: BVar) -> bool;

/// The canonical integer representation of a field element (the
/// reduced residue, as `into_bigint` returns it), a function of the
/// element alone.
pub uninterp spec fn felt_int(a: Felt) -> nat;

/// The prime modulus of the gadget field, the scalar field of the
/// targeted pairing curve.
pub open spec fn field_modulus() -> int {
    0x30644e72e131a029b85045b68181585d2833e84879b9709143e1f593f0000001int
}

/// The assigned values of a sequence of field variables, in order.
pub open spec fn fvar_vals(s: Seq<FVar>) -> Seq<Felt> {
    Seq::new(s.len(), |i: int| fvar_val(s[i]))
}

/// The field product, a function of its two arguments alone.
pub uninterp spec fn felt_mul_of(a: Felt, b: Felt) -> Felt;

/// The field sum, a function of its two arguments alone.
pub uninterp spec fn felt_add_of(a: Felt, b: Felt) -> Felt;

/// The field difference, a function of its two arguments alone.
pub uninterp spec fn felt_sub_of(a: Felt, b: Felt) -> Felt;

/// Relies on the field's embedding of a `u64`, which is `v` itself
/// since every `u64` is below the modulus.
#[verifier::external_body]
pub fn felt_from_u64(v: u64) -> (r: Felt)
    ensures
        r == felt_of_u64(v),
        felt_int(r) == v,
{
    Felt { inner: Fr::from(v) }
}

/// Relies on `AllocVar::new_witness`: allocates a witness variable
/// holding the field embedding of `v`, which is `v` itself since every
/// `u64` is below the modulus.
#[verifier::external_body]
pub fn fvar_witness(cs: &ConstraintSys, v: u64) -> (r: Result<FVar, SynthesisError>)
    ensures
        r matches Ok(w) ==> fvar_val(w) == felt_of_u64(v) && felt_int(fvar_val(w)) == v,
{
    let f = Fr::from(v);
    FpVar::new_witness(cs.inner.clone(), || Ok(f)).map(|inner| FVar { inner })
}

/// Relies on `FpVar::constant` over the field's embedding of a `u64`,
/// which is `v` itself since every `u64` is below the modulus.
#[verifier::external_body]
pub fn fvar_constant(v: u64) -> (r: FVar)
    ensures
        fvar_val(r) == felt_of_u64(v),
        felt_int(fvar_val(r)) == v,
{
    FVar { inner: FpVar::constant(Fr::from(v)) }
}

/// Relies on `GR1CSVar::value`: the field element assigned to the
/// variable, if an assignment is known.
#[verifier::external_body]
pub fn fvar_value(x: &FVar) -> (r: Result<Felt, SynthesisError>)
    ensures
        r matches Ok(f) ==> f == fvar_val(*x),
{
    x.inner.value().map(|inner| Felt { inner })
}

/// Relies on `Boolean::constant`.
#[verifier::external_body]
pub fn bvar_constant(b: bool) -> (r: BVar)
    ensures
        bvar_val(r) == b,
{
    BVar { inner: Boolean::constant(b) }
}

/// Relies on `GR1CSVar::value`: the boolean assigned to the variable,
/// if an assignment is known.
#[verifier::external_body]
pub fn bvar_value(b: &BVar) -> (r: Result<bool, SynthesisError>)
    ensures
        r matches Ok(v) ==> v == bvar_val(*b),
{
    b.inner.value()
}

/// Relies on `FieldVar::one`: the field-variable constant holding the
/// multiplicative identity, the embedding of 1.
#[verifier::external_body]
fn fvar_one() -> (r: FVar)
    ensures
        fvar_val(r) == felt_of_u64(1),
        felt_int(fvar_val(r)) == 1,
{
    FVar { inner: FpVar::one() }
}

/// Relies on `FieldVar::zero`: the field-variable constant holding the
/// additive identity, the embedding of 0.
#[verifier::external_body]
fn fvar_zero() -> (r: FVar)
    ensures
        fvar_val(r) == felt_of_u64(0),
        felt_int(fvar_val(r)) == 0,
{
    FVar { inner: FpVar::zero() }
}

/// Relies on `Clone` for `FpVar`: the same variable.
#[verifier::external_body]
fn fvar_clone(x: &FVar) -> (r: FVar)
    ensures
        r == *x,
{
    FVar { inner: x.inner.clone() }
}

/// Relies on `FieldVar::inner_product`. Its source returns `Ok` of the
/// sum of pairwise products whenever the two slices have equal length,
/// and `Err` otherwise; the result's assigned value is that sum over
/// the operands' values.
#[verifier::external_body]
fn fvar_inner_product(a: &[FVar], b: &[FVar]) -> (r: Result<FVar, SynthesisError>)
    ensures
        a@.len() == b@.len() ==> r matches Ok(_),
        r matches Ok(p) ==> (a@.len() == b@.len() && a@.len() >= 1 ==> fvar_val(p)
            == spec_inner_product(fvar_vals(a@), fvar_vals(b@), a@.len() as int)),
{
    let av: Vec<FpVar<Fr>> = a.iter().map(|x| x.inner.clone()).collect();
    let bv: Vec<FpVar<Fr>> = b.iter().map(|x| x.inner.clone()).collect();
    <FpVar<Fr> as FieldVar<Fr, Fr>>::inner_product(&av, &bv).map(|inner| FVar { inner })
}

/// Relies on `EqGadget::conditional_enforce_equal`: adds the equality
/// constraint to the shared system, gated by `cond`.
#[verifier::external_body]
fn fvar_cond_enforce_equal(l: &FVar, r: &FVar, cond: &BVar) -> Result<(), SynthesisError> {
    l.inner.conditional_enforce_equal(&r.inner, &cond.inner)
}

/// Relies on `Boolean::TRUE`: the constant-true boolean variable.
#[verifier::external_body]
fn bvar_true() -> (r: BVar)
    ensures
        bvar_val(r) == true,
{
    BVar { inner: Boolean::TRUE }
}

/// Relies on `Clone` for `Boolean`: the same variable.
#[verifier::external_body]
fn bvar_clone(b: &BVar) -> (r: BVar)
    ensures
        r == *b,
{
    BVar { inner: b.inner.clone() }
}

/// Relies on `Sub` for field variables: the result's assigned value is
/// the field difference of the operands' values, whose canonical
/// integer is the integer difference, brought back below the modulus.
#[verifier::external_body]
fn fvar_sub(a: &FVar, b: &FVar) -> (r: FVar)
    ensures
        fvar_val(r) == felt_sub_of(fvar_val(*a), fvar_val(*b)),
        felt_int(fvar_val(r)) as int == if felt_int(fvar_val(*a)) >= felt_int(fvar_val(*b)) {
            felt_int(fvar_val(*a)) - felt_int(fvar_val(*b))
        } else {
            felt_int(fvar_val(*a)) + field_modulus() - felt_int(fvar_val(*b))
        },
        felt_int(fvar_val(r)) < field_modulus(),
{
    FVar { inner: &a.inner - &b.inner }
}

/// Relies on `Add` for field variables: the result's assigned value is
/// the field sum of the operands' values, which is commutative, and
/// whose canonical integer is the integer sum, brought back below the
/// modulus.
#[verifier::external_body]
fn fvar_add(a: &FVar, b: &FVar) -> (r: FVar)
    ensures
        fvar_val(r) == felt_add_of(fvar_val(*a), fvar_val(*b)),
        fvar_val(r) == felt_add_of(fvar_val(*b), fvar_val(*a)),
        felt_int(fvar_val(r)) as int == if felt_int(fvar_val(*a)) + felt_int(fvar_val(*b))
            < field_modulus() {
            (felt_int(fvar_val(*a)) + felt_int(fvar_val(*b))) as int
        } else {
            felt_int(fvar_val(*a)) + felt_int(fvar_val(*b)) - field_modulus()
        },
        felt_int(fvar_val(r)) as int == ((felt_int(fvar_val(*a)) + felt_int(
            fvar_val(*b),
        )) as int) % field_modulus(),
        felt_int(fvar_val(r)) < field_modulus(),
{
    FVar { inner: &a.inner + &b.inner }
}

/// Relies on `Mul` for field variables: the result's assigned value is
/// the field product of the operands' values, which is commutative,
/// and whose canonical integer is the integer product reduced by the
/// modulus.
#[verifier::external_body]
fn fvar_mul(a: &FVar, b: &FVar) -> (r: FVar)
    ensures
        fvar_val(r) == felt_mul_of(fvar_val(*a), fvar_val(*b)),
        fvar_val(r) == felt_mul_of(fvar_val(*b), fvar_val(*a)),
        felt_int(fvar_val(r)) as int == ((felt_int(fvar_val(*a)) * felt_int(
            fvar_val(*b),
        )) as int) % field_modulus(),
        felt_int(fvar_val(r)) < field_modulus(),
{
    FVar { inner: &a.inner * &b.inner }
}

/// Relies on `AllocVar::new_constant` over the field's embedding of a
/// `u64`, which is `v` itself since every `u64` is below the modulus;
/// its source builds the constant without touching the system and
/// always succeeds.
#[verifier::external_body]
fn fvar_new_constant(cs: ConstraintSys, v: u64) -> (r: Result<FVar, SynthesisError>)
    ensures
        r matches Ok(_),
        r matches Ok(w) ==> fvar_val(w) == felt_of_u64(v) && felt_int(fvar_val(w)) == v,
{
    FpVar::new_constant(cs.inner, Fr::from(v)).map(|inner| FVar { inner })
}

/// Relies on `FpVar::to_bits_le_with_top_bits_zero`: decomposes the
/// variable into `size` little-endian bits plus a remainder enforced
/// to be zero; its source collects exactly `size` bits, each holding
/// the matching bit of the operand's canonical integer, and asserts
/// `size < MODULUS_BIT_SIZE`, which is 254 for this field.
#[verifier::external_body]
fn fvar_to_bits_le_top_zero(x: &FVar, size: usize) -> (r: Result<Vec<BVar>, SynthesisError>)
    requires
        size < 254,
    ensures
        r matches Ok(bits) ==> bits@.len() == size && (forall|i: int|
            0 <= i < size ==> bvar_val(bits@[i]) == ((felt_int(fvar_val(*x)) / pow2(i as nat))
                % 2 == 1)),
{
    x.inner.to_bits_le_with_top_bits_zero(size).map(|(bits, _)| bits.into_iter().map(
        |inner| BVar { inner },
    ).collect())
}

/// Relies on `PartialEq` for raw field elements: equality in the
/// field.
#[verifier::external_body]
pub fn felt_eq(a: &Felt, b: &Felt) -> (r: bool)
    ensures
        r == (a == b),
{
    a.inner == b.inner
}

/// Relies on `Clone` for raw field elements: the same element.
#[verifier::external_body]
fn felt_clone(a: &Felt) -> (r: Felt)
    ensures
        r == *a,
{
    Felt { inner: a.inner }
}

/// Relies on `Mul` for raw field elements: the field product, which
/// is commutative and has the embedding of 1 as its identity.
#[verifier::external_body]
fn felt_mul(a: &Felt, b: &Felt) -> (r: Felt)
    ensures
        r == felt_mul_of(*a, *b),
        r == felt_mul_of(*b, *a),
        *a == felt_of_u64(1) ==> r == *b,
        *b == felt_of_u64(1) ==> r == *a,
{
    Felt { inner: a.inner * b.inner }
}

/// Relies on `Sub` for raw field elements: the field difference.
#[verifier::external_body]
fn felt_sub(a: &Felt, b: &Felt) -> (r: Felt)
    ensures
        r == felt_sub_of(*a, *b),
{
    Felt { inner: a.inner - b.inner }
}

/// Relies on `Add` for raw field elements: the field sum, which is
/// commutative.
#[verifier::external_body]
fn felt_add(a: &Felt, b: &Felt) -> (r: Felt)
    ensures
        r == felt_add_of(*a, *b),
        r == felt_add_of(*b, *a),
{
    Felt { inner: a.inner + b.inner }
}

/// Relies on `One::one` for raw field elements: the multiplicative
/// identity, which is the embedding of 1.
#[verifier::external_body]
fn felt_one() -> (r: Felt)
    ensures
        r == felt_of_u64(1),
{
    Felt { inner: <Fr as ark_ff::One>::one() }
}

/// The number of chunk slots: how many base-`2^bits` digits fit in the
/// 254 usable bits of the field.
pub open spec fn spec_chunk_len(bits: usize) -> int {
    254int / (bits as int)
}

/// `base` raised to the power `i` in the field, written over the named
/// product, with the embedding of 1 as the zeroth power.
pub open spec fn spec_power_of(base: Felt, i: nat) -> Felt
    decreases i,
{
    if i == 0 {
        felt_of_u64(1)
    } else if i == 1 {
        base
    } else {
        felt_mul_of(spec_power_of(base, (i - 1) as nat), base)
    }
}

/// Table of powers of `2^bits` as field-variable constants: entry 0 is
/// the multiplicative identity and entry `i` is `(2^bits)^i`, one
/// entry per chunk slot.
fn get_shift_powers(bits: usize) -> (r: Vec<FVar>)
    requires
        1 <= bits < 64,
    ensures
        r@.len() == spec_chunk_len(bits),
        forall|i: int|
            0 <= i < r@.len() ==> fvar_val(#[trigger] r@[i]) == spec_power_of(
                felt_of_u64(1u64 << bits),
                i as nat,
            ),
{
    let n: usize = 254 / bits;
    proof {
        assert(254int / (bits as int) >= 1) by (nonlinear_arith)
            requires
                1 <= bits < 64,
        ;
    }
    let mut powers: Vec<FVar> = Vec::new();
    powers.push(fvar_one());
    let base = fvar_constant(1u64 << bits);
    let mut power = fvar_clone(&base);
    let mut i: usize = 1;
    while i < n
        invariant
            1 <= i <= n,
            1 <= bits < 64,
            powers@.len() == i,
            fvar_val(base) == felt_of_u64(1u64 << bits),
            fvar_val(power) == spec_power_of(felt_of_u64(1u64 << bits), i as nat),
            forall|k: int|
                0 <= k < i ==> fvar_val(#[trigger] powers@[k]) == spec_power_of(
                    felt_of_u64(1u64 << bits),
                    k as nat,
                ),
        decreases n - i,
    {
        powers.push(fvar_clone(&power));
        power = fvar_mul(&power, &base);
        i = i + 1;
    }
    powers
}

/// Chunked conditional equality: splits the two equal-length sequences
/// into chunks of the shift-power table's length, packs each chunk
/// into one field variable by an inner product with the table
/// (positional base-`2^bits` encoding), and enforces equality of the
/// packed pairs, gated by `cond`. Sound only if every value is
/// externally constrained below `2^bits`, so that packing is
/// injective.
pub fn chunk_cee(cond: &BVar, l_vals: &[FVar], r_vals: &[FVar], bits: usize) -> (r: Result<
    (),
    SynthesisError,
>)
    requires
        l_vals@.len() == r_vals@.len(),
        1 <= bits < 64,
    ensures
        l_vals@.len() == 0 ==> r matches Ok(_),
{
    let shift_powers = get_shift_powers(bits);
    let n: usize = 254 / bits;
    proof {
        assert(254int / (bits as int) >= 1) by (nonlinear_arith)
            requires
                1 <= bits < 64,
        ;
    }
    let len = l_vals.len();
    let mut start: usize = 0;
    while start < len
        invariant
            start <= len,
            len == l_vals@.len(),
            len == r_vals@.len(),
            n >= 1,
            shift_powers@.len() == n,
        decreases len - start,
    {
        let rem = len - start;
        let csize = if rem < n {
            rem
        } else {
            n
        };
        let end = start + csize;
        let l_chunk = slice_subrange(l_vals, start, end);
        let r_chunk = slice_subrange(r_vals, start, end);
        let sp = slice_subrange(shift_powers.as_slice(), 0, csize);
        let l_pack = match fvar_inner_product(l_chunk, sp) {
            Ok(x) => x,
            Err(e) => {
                return Err(e);
            },
        };
        let r_pack = match fvar_inner_product(r_chunk, sp) {
            Ok(x) => x,
            Err(e) => {
                return Err(e);
            },
        };
        match fvar_cond_enforce_equal(&l_pack, &r_pack, cond) {
            Ok(()) => (),
            Err(e) => {
                return Err(e);
            },
        }
        start = end;
    }
    Ok(())
}

/// Chunked unconditional equality: `chunk_cee` gated by the
/// constant-true condition.
pub fn chunk_ee(l_vals: &[FVar], r_vals: &[FVar], bits: usize) -> (r: Result<(), SynthesisError>)
    requires
        l_vals@.len() == r_vals@.len(),
        1 <= bits < 64,
    ensures
        l_vals@.len() == 0 ==> r matches Ok(_),
{
    let t = bvar_true();
    chunk_cee(&t, l_vals, r_vals, bits)
}

/// Chunked conditional zero check: packs each chunk as `chunk_cee`
/// does and enforces the packed value equal to the additive identity,
/// gated by `cond`.
pub fn chunk_cee_zero(cond: &BVar, l_vals: &[FVar], bits: usize) -> (r: Result<
    (),
    SynthesisError,
>)
    requires
        1 <= bits < 64,
    ensures
        l_vals@.len() == 0 ==> r matches Ok(_),
{
    let shift_powers = get_shift_powers(bits);
    let n: usize = 254 / bits;
    proof {
        assert(254int / (bits as int) >= 1) by (nonlinear_arith)
            requires
                1 <= bits < 64,
        ;
    }
    let len = l_vals.len();
    let zero = fvar_zero();
    let mut start: usize = 0;
    while start < len
        invariant
            start <= len,
            len == l_vals@.len(),
            n >= 1,
            shift_powers@.len() == n,
        decreases len - start,
    {
        let rem = len - start;
        let csize = if rem < n {
            rem
        } else {
            n
        };
        let end = start + csize;
        let l_chunk = slice_subrange(l_vals, start, end);
        let sp = slice_subrange(shift_powers.as_slice(), 0, csize);
        let l_pack = match fvar_inner_product(l_chunk, sp) {
            Ok(x) => x,
            Err(e) => {
                return Err(e);
            },
        };
        match fvar_cond_enforce_equal(&l_pack, &zero, cond) {
            Ok(()) => (),
            Err(e) => {
                return Err(e);
            },
        }
        start = end;
    }
    Ok(())
}

/// Chunked unconditional zero check: `chunk_cee_zero` gated by the
/// constant-true condition.
pub fn chunk_ee_zero(l_vals: &[FVar], bits: usize) -> (r: Result<(), SynthesisError>)
    requires
        1 <= bits < 64,
    ensures
        l_vals@.len() == 0 ==> r matches Ok(_),
{
    let t = bvar_true();
    chunk_cee_zero(&t, l_vals, bits)
}

/// One chi-construction round: coefficient `c` becomes the pair
/// `(c - c*r, c*r)`, the left components first, doubling the vector.
pub open spec fn spec_chi_step(prev: Seq<Felt>, r: Felt) -> Seq<Felt> {
    Seq::new(prev.len(), |j: int| felt_sub_of(prev[j], felt_mul_of(prev[j], r))) + Seq::new(
        prev.len(),
        |j: int| felt_mul_of(prev[j], r),
    )
}

/// The equality-indicator (chi) coefficients of the multilinear
/// extension at point `x`: the single coefficient 1 for an empty
/// point, and one chi-construction round per coordinate, applied from
/// the last coordinate to the first.
pub open spec fn spec_chis(x: Seq<Felt>) -> Seq<Felt>
    decreases x.len(),
{
    if x.len() == 0 {
        seq![felt_of_u64(1)]
    } else {
        spec_chi_step(spec_chis(x.subrange(1, x.len() as int)), x[0])
    }
}

/// The inner product of the first `k` entries of `a` and `b`, summed
/// from the front.
pub open spec fn spec_inner_product(a: Seq<Felt>, b: Seq<Felt>, k: int) -> Felt
    recommends
        1 <= k <= a.len(),
        k <= b.len(),
    decreases k,
{
    if k <= 1 {
        felt_mul_of(a[0], b[0])
    } else {
        felt_add_of(spec_inner_product(a, b, k - 1), felt_mul_of(a[k - 1], b[k - 1]))
    }
}

/// The equality-indicator (chi) coefficients of the multilinear
/// extension at point `x`: starting from the single coefficient 1,
/// each coordinate, processed from last to first, replaces every
/// coefficient `c` by the pair `(c - c*r, c*r)`, doubling the vector.
fn evals(x: &[Felt]) -> (r: Vec<Felt>)
    ensures
        r@.len() == pow2(x@.len()),
        r@ == spec_chis(x@),
        x@.len() == 1 ==> r@ == seq![
            felt_sub_of(felt_of_u64(1), x@[0]),
            x@[0],
        ],
{
    let ell = x.len();
    let mut table: Vec<Felt> = Vec::new();
    table.push(felt_one());
    let mut idx = ell;
    proof {
        vstd::arithmetic::power2::lemma2_to64();
        assert(table@ =~= seq![felt_of_u64(1)]);
        assert(x@.subrange(ell as int, ell as int).len() == 0);
    }
    while idx > 0
        invariant
            idx <= ell,
            ell == x@.len(),
            table@.len() == pow2((ell - idx) as nat),
            table@ == spec_chis(x@.subrange(idx as int, ell as int)),
            ell == 1 && idx == 1 ==> table@ == seq![felt_of_u64(1)],
            ell == 1 && idx == 0 ==> table@ == seq![
                felt_sub_of(felt_of_u64(1), x@[0]),
                x@[0],
            ],
        decreases idx,
    {
        idx = idx - 1;
        let size = table.len();
        let mut next: Vec<Felt> = Vec::new();
        let mut right: Vec<Felt> = Vec::new();
        let mut j: usize = 0;
        while j < size
            invariant
                j <= size,
                size == table@.len(),
                next@.len() == j,
                right@.len() == j,
                idx < ell,
                ell == x@.len(),
                forall|k: int|
                    0 <= k < j ==> next@[k] == felt_sub_of(
                        table@[k],
                        felt_mul_of(table@[k], x@[idx as int]),
                    ) && right@[k] == felt_mul_of(table@[k], x@[idx as int]),
                ell == 1 ==> idx == 0 && size == 1 && table@ == seq![felt_of_u64(1)],
                ell == 1 && j == 1 ==> next@ == seq![felt_sub_of(felt_of_u64(1), x@[0])]
                    && right@ == seq![x@[0]],
            decreases size - j,
        {
            let y = felt_mul(&table[j], &x[idx]);
            next.push(felt_sub(&table[j], &y));
            right.push(y);
            proof {
                if ell == 1 {
                    assert(next@ =~= seq![felt_sub_of(felt_of_u64(1), x@[0])]);
                    assert(right@ =~= seq![x@[0]]);
                }
            }
            j = j + 1;
        }
        let mut j2: usize = 0;
        while j2 < size
            invariant
                j2 <= size,
                right@.len() == size,
                next@.len() == size + j2,
                size == table@.len(),
                idx < ell,
                ell == x@.len(),
                forall|k: int|
                    0 <= k < size ==> next@[k] == felt_sub_of(
                        table@[k],
                        felt_mul_of(table@[k], x@[idx as int]),
                    ) && right@[k] == felt_mul_of(table@[k], x@[idx as int]),
                forall|k: int| size <= k < size + j2 ==> next@[k] == right@[k - size],
                ell == 1 ==> idx == 0 && size == 1
                    && next@.take(1) == seq![felt_sub_of(felt_of_u64(1), x@[0])]
                    && right@ == seq![x@[0]],
                ell == 1 && j2 == 1 ==> next@ == seq![
                    felt_sub_of(felt_of_u64(1), x@[0]),
                    x@[0],
                ],
            decreases size - j2,
        {
            proof {
                if ell == 1 {
                    assert(next@ =~= next@.take(1));
                }
            }
            next.push(felt_clone(&right[j2]));
            proof {
                if ell == 1 {
                    assert(next@ =~= seq![felt_sub_of(felt_of_u64(1), x@[0]), x@[0]]);
                }
            }
            j2 = j2 + 1;
        }
        proof {
            let whole = x@.subrange(idx as int, ell as int);
            assert(whole.subrange(1, whole.len() as int) =~= x@.subrange(idx + 1, ell as int));
            let stepped = spec_chi_step(table@, x@[idx as int]);
            assert forall|k: int| 0 <= k < next@.len() implies next@[k] == stepped[k] by {
                if k < size {
                    assert(next@[k] == felt_sub_of(
                        table@[k],
                        felt_mul_of(table@[k], x@[idx as int]),
                    ));
                } else {
                    assert(next@[k] == right@[k - size]);
                    assert(right@[k - size] == felt_mul_of(table@[k - size], x@[idx as int]));
                }
            }
            assert(next@ =~= stepped);
        }
        table = next;
        proof {
            vstd::arithmetic::power2::lemma_pow2_adds((ell - idx - 1) as nat, 1);
            vstd::arithmetic::power2::lemma2_to64();
        }
    }
    proof {
        assert(x@.subrange(0, ell as int) =~= x@);
    }
    table
}

/// Multilinear-extension evaluation: the value at `x` of the unique
/// multilinear polynomial agreeing with `table` on the Boolean
/// hypercube, computed as the inner product of the chi vector of `x`
/// with the table. The table must hold exactly `2^(x.len())` values.
/// For a two-entry table `[a, b]` and a single coordinate `r`, the
/// result is pinned exactly: `a * (1 - r) + b * r`.
pub fn mle_eval(table: &[Felt], x: &[Felt]) -> (res: Felt)
    requires
        table@.len() == pow2(x@.len()),
    ensures
        res == spec_inner_product(spec_chis(x@), table@, table@.len() as int),
        x@.len() == 1 ==> res == felt_add_of(
            felt_mul_of(table@[0], felt_sub_of(felt_of_u64(1), x@[0])),
            felt_mul_of(table@[1], x@[0]),
        ),
{
    let chis = evals(x);
    proof {
        vstd::arithmetic::power2::lemma_pow2_pos(x@.len());
        vstd::arithmetic::power2::lemma2_to64();
    }
    let len = table.len();
    let mut acc = felt_mul(&chis[0], &table[0]);
    let mut i: usize = 1;
    while i < len
        invariant
            1 <= i <= len,
            len == table@.len(),
            chis@.len() == len,
            chis@ == spec_chis(x@),
            acc == spec_inner_product(chis@, table@, i as int),
            x@.len() == 1 ==> len == 2 && chis@ == seq![
                felt_sub_of(felt_of_u64(1), x@[0]),
                x@[0],
            ],
            x@.len() == 1 && i == 1 ==> acc == felt_mul_of(
                table@[0],
                felt_sub_of(felt_of_u64(1), x@[0]),
            ),
            x@.len() == 1 && i == 2 ==> acc == felt_add_of(
                felt_mul_of(table@[0], felt_sub_of(felt_of_u64(1), x@[0])),
                felt_mul_of(table@[1], x@[0]),
            ),
        decreases len - i,
    {
        let term = felt_mul(&chis[i], &table[i]);
        acc = felt_add(&acc, &term);
        i = i + 1;
    }
    acc
}

/// The integer Horner evaluation of the coefficients from index `i`
/// up (constant term first) at the point, over canonical integers,
/// before any reduction by the modulus.
pub open spec fn spec_horner_int(coeffs: Seq<Felt>, x: Felt, i: int) -> int
    decreases coeffs.len() - i,
{
    if i < 0 || i >= coeffs.len() {
        0
    } else {
        felt_int(coeffs[i]) + felt_int(x) * spec_horner_int(coeffs, x, i + 1)
    }
}

/// The integer power sum of the first `k` monomials,
/// `sum of coeffs[j] * x^j for j < k`, over canonical integers,
/// before any reduction by the modulus.
pub open spec fn spec_poly_int(coeffs: Seq<Felt>, x: Felt, k: int) -> int
    decreases k,
{
    if k <= 0 {
        0
    } else {
        spec_poly_int(coeffs, x, k - 1) + felt_int(coeffs[k - 1]) * vstd::arithmetic::power::pow(
            felt_int(x) as int,
            (k - 1) as nat,
        )
    }
}

/// The integer Horner evaluation from index `i`, weighted by `x^i`, is
/// the tail of the power sum: Horner's recurrence and the monomial sum
/// agree over the integers.
pub proof fn lemma_horner_int_is_poly_int(coeffs: Seq<Felt>, x: Felt, i: int)
    requires
        0 <= i <= coeffs.len(),
    ensures
        spec_horner_int(coeffs, x, i) * vstd::arithmetic::power::pow(felt_int(x) as int, i as nat)
            == spec_poly_int(coeffs, x, coeffs.len() as int) - spec_poly_int(coeffs, x, i),
    decreases coeffs.len() - i,
{
    let ix = felt_int(x) as int;
    let n = coeffs.len() as int;
    if i < n {
        lemma_horner_int_is_poly_int(coeffs, x, i + 1);
        let h1 = spec_horner_int(coeffs, x, i + 1);
        let ci = felt_int(coeffs[i]) as int;
        let pi = vstd::arithmetic::power::pow(ix, i as nat);
        assert(vstd::arithmetic::power::pow(ix, (i + 1) as nat) == ix * pi) by {
            assert((i + 1) as nat == (i as nat) + 1);
            vstd::arithmetic::power::lemma_pow_adds(ix, i as nat, 1);
            vstd::arithmetic::power::lemma_pow1(ix);
            assert(vstd::arithmetic::power::pow(ix, (i as nat) + 1) == pi * ix);
        }
        assert((ci + ix * h1) * pi == ci * pi + h1 * (ix * pi)) by (nonlinear_arith);
        assert(spec_poly_int(coeffs, x, i + 1) == spec_poly_int(coeffs, x, i) + ci * pi);
    }
}

/// The Horner accumulator after folding from the highest-degree
/// coefficient down to index `i`: the last coefficient enters as
/// `x * coeff`, every earlier one as `acc = x * (coeff + acc)`.
pub open spec fn spec_horner_acc(coeffs: Seq<Felt>, x: Felt, i: int) -> Felt
    recommends
        1 <= i <= coeffs.len() - 1,
    decreases coeffs.len() - i,
{
    if i >= coeffs.len() - 1 {
        felt_mul_of(x, coeffs[coeffs.len() - 1])
    } else {
        felt_mul_of(x, felt_add_of(coeffs[i], spec_horner_acc(coeffs, x, i + 1)))
    }
}

/// Polynomial evaluation by Horner's recurrence over field variables:
/// coefficients are ordered from the constant term up, the fold runs
/// from the highest degree down as `acc = x * (coeff + acc)`, and the
/// constant term is added last; the result's assigned value is pinned
/// to that recurrence over the coefficients' and point's values, and
/// its canonical integer to the power sum
/// `sum of coeffs[j] * x^j` reduced by the modulus. A single
/// coefficient names a constant polynomial and is returned as is.
pub fn horners(coeffs: &[FVar], x: &FVar) -> (r: FVar)
    requires
        coeffs@.len() >= 1,
    ensures
        coeffs@.len() == 1 ==> r == coeffs@[0],
        coeffs@.len() >= 2 ==> fvar_val(r) == felt_add_of(
            spec_horner_acc(fvar_vals(coeffs@), fvar_val(*x), 1),
            fvar_val(coeffs@[0]),
        ),
        coeffs@.len() >= 2 ==> felt_int(fvar_val(r)) as int == spec_poly_int(
            fvar_vals(coeffs@),
            fvar_val(*x),
            coeffs@.len() as int,
        ) % field_modulus(),
{
    let num_c = coeffs.len();
    if num_c == 1 {
        return fvar_clone(&coeffs[0]);
    }
    let mut acc = fvar_mul(x, &coeffs[num_c - 1]);
    proof {
        let vals = fvar_vals(coeffs@);
        let xv = fvar_val(*x);
        assert(vals[num_c - 1] == fvar_val(coeffs@[num_c - 1]));
        assert(spec_horner_int(vals, xv, num_c as int) == 0);
        assert(spec_horner_int(vals, xv, num_c - 1) == felt_int(vals[num_c - 1]) + felt_int(
            xv,
        ) * 0);
    }
    let mut i = num_c - 1;
    while i > 1
        invariant
            1 <= i <= num_c - 1,
            num_c == coeffs@.len(),
            fvar_val(acc) == spec_horner_acc(fvar_vals(coeffs@), fvar_val(*x), i as int),
            felt_int(fvar_val(acc)) as int == (felt_int(fvar_val(*x)) as int * spec_horner_int(
                fvar_vals(coeffs@),
                fvar_val(*x),
                i as int,
            )) % field_modulus(),
        decreases i,
    {
        i = i - 1;
        let s = fvar_add(&coeffs[i], &acc);
        acc = fvar_mul(x, &s);
        proof {
            let vals = fvar_vals(coeffs@);
            let xv = fvar_val(*x);
            let p = field_modulus();
            let ix = felt_int(xv) as int;
            let hi1 = spec_horner_int(vals, xv, i + 1);
            let ici = felt_int(vals[i as int]) as int;
            assert(vals[i as int] == fvar_val(coeffs@[i as int]));
            vstd::arithmetic::div_mod::lemma_add_mod_noop_right(ici, ix * hi1, p);
            assert(spec_horner_int(vals, xv, i as int) == ici + ix * hi1);
            vstd::arithmetic::div_mod::lemma_mul_mod_noop_right(
                ix,
                spec_horner_int(vals, xv, i as int),
                p,
            );
        }
    }
    let r = fvar_add(&acc, &coeffs[0]);
    proof {
        let vals = fvar_vals(coeffs@);
        let xv = fvar_val(*x);
        let p = field_modulus();
        let ix = felt_int(xv) as int;
        let h1 = spec_horner_int(vals, xv, 1);
        assert(vals[0] == fvar_val(coeffs@[0]));
        let ic0 = felt_int(vals[0]) as int;
        vstd::arithmetic::div_mod::lemma_add_mod_noop_right(ic0, ix * h1, p);
        assert(spec_horner_int(vals, xv, 0) == ic0 + ix * h1);
        lemma_horner_int_is_poly_int(vals, xv, 0);
        vstd::arithmetic::power::lemma_pow0(ix);
        assert(spec_poly_int(vals, xv, 0) == 0);
    }
    r
}

/// Bounded comparison: proves `g >= l` for field variables already
/// range-bounded to `max_bits` bits by the caller. Computes
/// `d = g - l + 2^max_bits`, decomposes `d` into `max_bits + 1`
/// little-endian bits with all higher bits enforced zero, and returns
/// the top bit: `d` reaches `2^max_bits` exactly when the subtraction
/// does not borrow, so under the caller's range bound the returned
/// bit's value is exactly `g >= l`.
pub fn custom_ge(l: &FVar, g: &FVar, max_bits: usize, cs: ConstraintSys) -> (r: Result<
    BVar,
    SynthesisError,
>)
    requires
        max_bits < 64,
    ensures
        r matches Ok(b) ==> ((felt_int(fvar_val(*g)) < pow2(max_bits as nat) && felt_int(
            fvar_val(*l),
        ) < pow2(max_bits as nat)) ==> bvar_val(b) == (felt_int(fvar_val(*g)) >= felt_int(
            fvar_val(*l),
        ))),
{
    let base: u64 = 1u64 << max_bits;
    proof {
        vstd::arithmetic::power2::lemma2_to64();
        vstd::arithmetic::power2::lemma2_to64_rest();
        if (max_bits as nat) < 63 {
            vstd::arithmetic::power2::lemma_pow2_strictly_increases(max_bits as nat, 63);
        }
        vstd::bits::lemma_u64_shl_is_mul(1u64, max_bits as u64);
    }
    let max_val = match fvar_new_constant(cs, base) {
        Ok(v) => v,
        Err(e) => {
            return Err(e);
        },
    };
    let d = fvar_sub(g, l);
    let d = fvar_add(&d, &max_val);
    let bits = match fvar_to_bits_le_top_zero(&d, max_bits + 1) {
        Ok(p) => p,
        Err(e) => {
            return Err(e);
        },
    };
    let top = bvar_clone(&bits[max_bits]);
    proof {
        let gv = felt_int(fvar_val(*g)) as int;
        let lv = felt_int(fvar_val(*l)) as int;
        let p2 = pow2(max_bits as nat) as int;
        let dv = felt_int(fvar_val(d)) as int;
        if gv < p2 && lv < p2 {
            vstd::arithmetic::power2::lemma_pow2_adds(max_bits as nat, 1);
            vstd::arithmetic::power2::lemma2_to64();
            vstd::arithmetic::power2::lemma2_to64_rest();
            if ((max_bits + 1) as nat) < 64 {
                vstd::arithmetic::power2::lemma_pow2_strictly_increases(
                    (max_bits + 1) as nat,
                    64,
                );
            }
            assert(dv == gv - lv + p2);
            if gv >= lv {
                assert(dv / p2 == 1) by (nonlinear_arith)
                    requires
                        p2 >= 1,
                        p2 <= dv,
                        dv < 2 * p2,
                ;
            } else {
                assert(dv / p2 == 0) by (nonlinear_arith)
                    requires
                        p2 >= 1,
                        0 <= dv,
                        dv < p2,
                ;
            }
        }
    }
    Ok(top)
}

} // verus!

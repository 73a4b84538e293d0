//! Big integers as vectors of 120-bit limbs, the only form of them that a circuit takes.

use crate::error::PipelineError;
use vstd::arithmetic::div_mod::{lemma_div_denominator, lemma_mod_breakdown, lemma_small_mod};
use vstd::arithmetic::power2::{
    lemma2_to64, lemma_pow2_adds, lemma_pow2_pos, lemma_pow2_strictly_increases,
    lemma_pow2_unfold, pow2,
};
use vstd::prelude::*;

verus! {

/// The number of bits of a limb. The big-number library of the circuit fixes it.
pub const LIMB_BITS: usize = 120;

/// The number that the bytes write in base 256, the most significant byte first.
pub open spec fn be_value(bytes: Seq<u8>) -> nat
    decreases bytes.len(),
{
    if bytes.len() == 0 {
        0
    } else {
        be_value(bytes.drop_last()) * 256 + bytes.last() as nat
    }
}

/// The fewest bits that can write `v`: none for zero.
pub open spec fn bit_length(v: nat) -> nat
    decreases v,
{
    if v == 0 {
        0
    } else {
        1 + bit_length(v / 2)
    }
}

/// The number of limbs of an integer of `bits` bits: `bits / 120`, rounded up.
pub open spec fn limb_count(bits: nat) -> nat {
    (bits + 119) / 120
}

/// Limb number `i` of `v`, the least significant limb being number 0.
pub open spec fn limb(v: nat, i: nat) -> nat {
    (v / pow2(120 * i)) % pow2(120)
}

/// The limbs of `v` for a width of `bits` bits, the least significant limb first.
pub open spec fn limbs_of(v: nat, bits: nat) -> Seq<nat> {
    Seq::new(limb_count(bits), |i: int| limb(v, i as nat))
}

/// The number that the limbs write in base `2^120`, the least significant limb first.
pub open spec fn limbs_value(limbs: Seq<nat>) -> nat
    decreases limbs.len(),
{
    if limbs.len() == 0 {
        0
    } else {
        limbs[0] + pow2(120) * limbs_value(limbs.drop_first())
    }
}

/// The constant of Barrett reduction for a modulus: `2^(2k + 4) / modulus`, rounded
/// down, where `k` is the number of bits of the modulus.
pub open spec fn reduction_parameter(modulus: nat) -> nat {
    pow2(2 * bit_length(modulus) + 4) / modulus
}

/// `v` is below `2^w` exactly where it has at most `w` bits.
pub proof fn lemma_bit_length_bound(v: nat, w: nat)
    ensures
        v < pow2(w) <==> bit_length(v) <= w,
    decreases w,
{
    lemma_pow2_pos(w);
    if w == 0 {
        lemma2_to64();
    } else if v > 0 {
        lemma_pow2_unfold(w);
        lemma_bit_length_bound(v / 2, (w - 1) as nat);
    }
}

/// Shifting a positive number left by `k` bits and filling them adds `k` bits.
pub proof fn lemma_bit_length_shift(v: nat, k: nat, c: nat)
    requires
        v > 0,
        c < pow2(k),
    ensures
        bit_length(v * pow2(k) + c) == bit_length(v) + k,
    decreases k,
{
    if k == 0 {
        lemma2_to64();
        assert(v * pow2(0) + c == v) by (nonlinear_arith)
            requires
                pow2(0) == 1,
                c == 0,
        ;
    } else {
        lemma_pow2_unfold(k);
        lemma_pow2_pos((k - 1) as nat);
        let half = pow2((k - 1) as nat);
        let x = v * pow2(k) + c;
        assert(v * pow2(k) == 2 * (v * half)) by (nonlinear_arith)
            requires
                pow2(k) == 2 * half,
        ;
        assert(v * half > 0) by (nonlinear_arith)
            requires
                v > 0,
                half > 0,
        ;
        assert(x / 2 == v * half + c / 2);
        lemma_bit_length_shift(v, (k - 1) as nat, c / 2);
    }
}

proof fn lemma_limbs_value_is_remainder(v: nat, n: nat)
    ensures
        limbs_value(Seq::new(n, |i: int| limb(v, i as nat))) == v % pow2(120 * n),
    decreases n,
{
    let base = pow2(120);
    lemma_pow2_pos(120);
    let s = Seq::new(n, |i: int| limb(v, i as nat));
    if n == 0 {
        lemma2_to64();
        assert(120 * n == 0);
    } else {
        let m = (n - 1) as nat;
        let rest = Seq::new(m, |i: int| limb(v / base, i as nat));
        assert(s.drop_first() =~= rest) by {
            assert forall|i: int| 0 <= i < m implies s.drop_first()[i] == rest[i] by {
                lemma_pow2_adds(120, 120 * (i as nat));
                lemma_pow2_pos(120 * (i as nat));
                assert(120 * ((i + 1) as nat) == 120 + 120 * (i as nat));
                lemma_div_denominator(v as int, base as int, pow2(120 * (i as nat)) as int);
            }
        }
        lemma_limbs_value_is_remainder(v / base, m);
        lemma_pow2_adds(120, 120 * m);
        lemma_pow2_pos(120 * m);
        assert(120 * n == 120 + 120 * m);
        lemma_mod_breakdown(v as int, base as int, pow2(120 * m) as int);
        assert(s[0] == v % base) by {
            lemma2_to64();
            assert(120 * 0 == 0);
        }
    }
}

/// Decoding the limbs of an integer that the limbs of a width can hold gives the
/// integer back.
pub proof fn lemma_limbs_hold(v: nat, bits: nat)
    requires
        v < pow2(120 * limb_count(bits)),
    ensures
        limbs_value(limbs_of(v, bits)) == v,
{
    let n = limb_count(bits);
    lemma_limbs_value_is_remainder(v, n);
    lemma_small_mod(v, pow2(120 * n));
}

/// Decoding the limbs of an integer below `2^bits` gives the integer back.
pub proof fn lemma_limb_round_trip(v: nat, bits: nat)
    requires
        v < pow2(bits),
    ensures
        limbs_value(limbs_of(v, bits)) == v,
{
    let n = limb_count(bits);
    if bits < 120 * n {
        lemma_pow2_strictly_increases(bits, 120 * n);
    }
    lemma_limbs_hold(v, bits);
}

/// There are as many limbs as the width asks for, whatever the integer, and each is
/// below `2^120`.
pub proof fn lemma_limbs_shape(v: nat, bits: nat)
    ensures
        limbs_of(v, bits).len() == limb_count(bits),
        forall|i: int|
            0 <= i < limb_count(bits) ==> #[trigger] limbs_of(v, bits)[i] == limb(v, i as nat)
                && limbs_of(v, bits)[i] < pow2(120),
{
    lemma_pow2_pos(120);
    assert forall|i: int| 0 <= i < limb_count(bits) implies #[trigger] limbs_of(v, bits)[i]
        == limb(v, i as nat) && limbs_of(v, bits)[i] < pow2(120) by {
        vstd::arithmetic::div_mod::lemma_mod_bound(
            (v / pow2(120 * (i as nat))) as int,
            pow2(120) as int,
        );
    }
}

proof fn lemma_be_value_prefix(bytes: Seq<u8>, i: int)
    requires
        0 <= i <= bytes.len(),
    ensures
        be_value(bytes.take(i)) <= be_value(bytes),
    decreases bytes.len(),
{
    if i == bytes.len() {
        assert(bytes.take(i) == bytes);
    } else {
        let init = bytes.drop_last();
        lemma_be_value_prefix(init, i);
        assert(init.take(i) == bytes.take(i));
        assert(be_value(init) * 256 >= be_value(init)) by (nonlinear_arith);
    }
}

/// The fewest bits that can write a byte.
pub fn byte_bits(b: u8) -> (bits: u8)
    ensures
        bits == bit_length(b as nat),
        bits <= 8,
{
    let mut x: u8 = b;
    let mut k: u8 = 0;
    proof {
        lemma2_to64();
    }
    while x > 0
        invariant
            bit_length(b as nat) == k + bit_length(x as nat),
            k <= 8,
            x < pow2((8 - k) as nat),
        decreases x,
    {
        proof {
            if k < 8 {
                lemma_pow2_unfold((8 - k) as nat);
            }
            lemma2_to64();
        }
        x = x / 2;
        k += 1;
    }
    k
}

/// The fewest bits that can write the number that the bytes write, the most
/// significant byte first.
pub fn bit_length_of(bytes: &Vec<u8>) -> (bits: u128)
    ensures
        bits == bit_length(be_value(bytes@)),
        bits <= 8 * bytes@.len(),
{
    let n: usize = bytes.len();
    let mut bits: u128 = 0;
    let mut i: usize = 0;
    while i < n
        invariant
            n == bytes.len(),
            i <= n,
            bits == bit_length(be_value(bytes@.take(i as int))),
            bits <= 8 * i,
        decreases n - i,
    {
        let ghost done = be_value(bytes@.take(i as int));
        proof {
            assert(bytes@.take(i + 1).drop_last() == bytes@.take(i as int));
            assert(bytes@.take(i + 1).last() == bytes@[i as int]);
            lemma2_to64();
            if done > 0 {
                lemma_bit_length_shift(done, 8, bytes@[i as int] as nat);
            } else {
                assert(done * 256 == 0);
            }
        }
        if bits > 0 {
            bits = bits + 8;
        } else {
            bits = byte_bits(bytes[i]) as u128;
        }
        i += 1;
    }
    assert(bytes@.take(n as int) == bytes@);
    bits
}

/// The number below `2^120` that the bytes write, the most significant byte first.
pub fn limb_from_bytes(bytes: &Vec<u8>) -> (value: u128)
    requires
        be_value(bytes@) < pow2(120),
    ensures
        value == be_value(bytes@),
{
    let n: usize = bytes.len();
    let mut value: u128 = 0;
    let mut i: usize = 0;
    proof {
        vstd::arithmetic::power2::lemma2_to64_rest();
        lemma_pow2_adds(60, 60);
        assert(pow2(120) == 0x1000000000000000 * 0x1000000000000000);
    }
    while i < n
        invariant
            n == bytes.len(),
            i <= n,
            value == be_value(bytes@.take(i as int)),
            be_value(bytes@) < pow2(120),
            pow2(120) == 0x1000000000000000 * 0x1000000000000000,
        decreases n - i,
    {
        proof {
            assert(bytes@.take(i + 1).drop_last() == bytes@.take(i as int));
            assert(bytes@.take(i + 1).last() == bytes@[i as int]);
            lemma_be_value_prefix(bytes@, i + 1);
        }
        value = value * 256 + bytes[i] as u128;
        i += 1;
    }
    assert(bytes@.take(n as int) == bytes@);
    value
}

/// A big integer as limbs for a circuit of a given width, the least significant limb
/// first. The number of limbs goes by the width, not by the size of the integer.
#[derive(Clone, Debug)]
pub struct LimbVector {
    pub bit_width: usize,
    pub limb_count: usize,
    pub limbs: Vec<u128>,
}

impl View for LimbVector {
    type V = Seq<nat>;

    open spec fn view(&self) -> Seq<nat> {
        Seq::new(self.limbs@.len(), |i: int| self.limbs@[i] as nat)
    }
}

impl LimbVector {
    /// Whether the limbs are as many as the width asks for, each below `2^120`.
    pub open spec fn wf(&self) -> bool {
        &&& self.limb_count == self.limbs@.len()
        &&& self.limbs@.len() == limb_count(self.bit_width as nat)
        &&& forall|i: int| 0 <= i < self.limbs@.len() ==> (#[trigger] self.limbs@[i]) < pow2(120)
    }

    /// The integer that the limbs write.
    pub open spec fn value(&self) -> nat {
        limbs_value(self@)
    }
}

/// `split_into_120_bit_limbs` of `noir_bignum_paramgen`, on the number that `value`
/// writes (`BigUint::from_bytes_be`), each limb handed out as its big-endian bytes
/// (`BigUint::to_bytes_be`): `bits / 120` limbs, rounded up, limb `i` holding bits
/// `120 * i` to `120 * i + 119` of the number.
#[verifier::external_body]
fn split_limbs(value: &Vec<u8>, bits: usize) -> (limbs: Vec<Vec<u8>>)
    ensures
        limbs@.len() == limb_count(bits as nat),
        forall|i: int|
            0 <= i < limbs@.len() ==> be_value(#[trigger] limbs@[i]@) == limb(
                be_value(value@),
                i as nat,
            ),
{
    let number = num_bigint_dig::BigUint::from_bytes_be(value);
    let limbs = noir_bignum_paramgen::split_into_120_bit_limbs(&number, bits);
    limbs.iter().map(|limb| limb.to_bytes_be()).collect()
}

/// `compute_barrett_reduction_parameter` of `noir_bignum_paramgen`, on the number that
/// `modulus` writes, handed out as big-endian bytes: `2^(2k + 4) / modulus`, rounded
/// down, where `k` is the number of bits of the modulus. The crate divides by the
/// modulus, so it must not be zero.
#[verifier::external_body]
fn barrett_parameter(modulus: &Vec<u8>) -> (parameter: Vec<u8>)
    requires
        be_value(modulus@) > 0,
    ensures
        be_value(parameter@) == reduction_parameter(be_value(modulus@)),
{
    let number = num_bigint_dig::BigUint::from_bytes_be(modulus);
    noir_bignum_paramgen::compute_barrett_reduction_parameter(&number).to_bytes_be()
}

/// The limbs that the byte strings write, one limb each.
fn limbs_from_bytes(raw: &Vec<Vec<u8>>) -> (limbs: Vec<u128>)
    requires
        forall|i: int| 0 <= i < raw@.len() ==> be_value(#[trigger] raw@[i]@) < pow2(120),
    ensures
        limbs@.len() == raw@.len(),
        forall|i: int| 0 <= i < raw@.len() ==> #[trigger] limbs@[i] == be_value(raw@[i]@),
{
    let mut limbs: Vec<u128> = Vec::new();
    let mut i: usize = 0;
    while i < raw.len()
        invariant
            i <= raw.len(),
            limbs@.len() == i,
            forall|j: int| 0 <= j < raw@.len() ==> be_value(#[trigger] raw@[j]@) < pow2(120),
            forall|j: int| 0 <= j < i ==> #[trigger] limbs@[j] == be_value(raw@[j]@),
        decreases raw.len() - i,
    {
        let value: u128 = limb_from_bytes(&raw[i]);
        limbs.push(value);
        i += 1;
    }
    limbs
}

/// The limbs of the integer that `value` writes, for a circuit of width `bit_width`;
/// the integer must fit the limbs of that width.
fn split_to_vector(value: &Vec<u8>, bit_width: usize) -> (r: LimbVector)
    ensures
        r.wf(),
        r.bit_width == bit_width,
        r@ == limbs_of(be_value(value@), bit_width as nat),
{
    let raw = split_limbs(value, bit_width);
    proof {
        lemma_limbs_shape(be_value(value@), bit_width as nat);
        assert forall|i: int| 0 <= i < raw@.len() implies be_value(#[trigger] raw@[i]@) < pow2(
            120,
        ) by {
            assert(limbs_of(be_value(value@), bit_width as nat)[i] < pow2(120));
        }
    }
    let limbs = limbs_from_bytes(&raw);
    let r = LimbVector { bit_width, limb_count: limbs.len(), limbs };
    proof {
        assert(r@ =~= limbs_of(be_value(value@), bit_width as nat));
        assert forall|i: int| 0 <= i < r.limbs@.len() implies (#[trigger] r.limbs@[i]) < pow2(
            120,
        ) by {
            assert(limbs_of(be_value(value@), bit_width as nat)[i] < pow2(120));
        }
    }
    r
}

/// Whether `r` is what encoding the integer that `value` writes gives for a width of
/// `bits` bits: its limbs where it has at most `bits` bits, a failure where it has more.
pub open spec fn encodes(value: Seq<u8>, bits: nat, r: Result<LimbVector, PipelineError>) -> bool {
    match r {
        Ok(limbs) => {
            &&& be_value(value) < pow2(bits)
            &&& limbs.wf()
            &&& limbs.bit_width == bits
            &&& limbs@ == limbs_of(be_value(value), bits)
            &&& limbs.value() == be_value(value)
        },
        Err(e) => e == PipelineError::ValueExceedsBitWidth && be_value(value) >= pow2(bits),
    }
}

/// Encodes the integer that `value` writes, the most significant byte first, as limbs
/// for a circuit of width `bit_width`.
///
/// It fails where the integer needs more than `bit_width` bits.
pub fn encode_limbs(value: &Vec<u8>, bit_width: usize) -> (r: Result<LimbVector, PipelineError>)
    ensures
        encodes(value@, bit_width as nat, r),
{
    proof {
        lemma_bit_length_bound(be_value(value@), bit_width as nat);
    }
    if bit_length_of(value) > bit_width as u128 {
        return Err(PipelineError::ValueExceedsBitWidth);
    }
    proof {
        lemma_limb_round_trip(be_value(value@), bit_width as nat);
    }
    Ok(split_to_vector(value, bit_width))
}

/// Whether two outcomes of an encoding are the same: the same width, number of limbs
/// and limbs, or the same failure.
pub open spec fn same_outcome(
    first: Result<LimbVector, PipelineError>,
    second: Result<LimbVector, PipelineError>,
) -> bool {
    match (first, second) {
        (Ok(a), Ok(b)) => a.bit_width == b.bit_width && a.limb_count == b.limb_count
            && a.limbs@ == b.limbs@,
        (Err(e), Err(f)) => e == f,
        _ => false,
    }
}

/// Two limb vectors of one width that write the same limbs hold the same limbs.
pub proof fn lemma_same_limbs(a: LimbVector, b: LimbVector)
    requires
        a.wf(),
        b.wf(),
        a.bit_width == b.bit_width,
        a@ == b@,
    ensures
        a.limb_count == b.limb_count,
        a.limbs@ == b.limbs@,
{
    assert(a.limbs@.len() == a@.len());
    assert(b.limbs@.len() == b@.len());
    assert forall|i: int| 0 <= i < a.limbs@.len() implies a.limbs@[i] == b.limbs@[i] by {
        assert(a@[i] == a.limbs@[i] as nat);
        assert(b@[i] == b.limbs@[i] as nat);
    }
    assert(a.limbs@ =~= b.limbs@);
}

/// Encoding one integer for one width twice gives the same outcome both times: the
/// same limbs, or the same failure.
pub proof fn lemma_encoding_deterministic(
    value: Seq<u8>,
    bits: nat,
    first: Result<LimbVector, PipelineError>,
    second: Result<LimbVector, PipelineError>,
)
    requires
        encodes(value, bits, first),
        encodes(value, bits, second),
    ensures
        same_outcome(first, second),
{
    if first is Ok {
        lemma_same_limbs(first->Ok_0, second->Ok_0);
    }
}

/// What `encode_reduction_parameter` gives for a modulus and a width: the limbs of the
/// reduction parameter, where the modulus is not zero, has at most `bits` bits, and
/// its parameter fits the limbs of that width.
pub open spec fn reduction_limbs(modulus: nat, bits: nat) -> Result<Seq<nat>, PipelineError> {
    if modulus == 0 {
        Err(PipelineError::KeyDecodeError)
    } else if modulus >= pow2(bits) || reduction_parameter(modulus) >= pow2(
        120 * limb_count(bits),
    ) {
        Err(PipelineError::ValueExceedsBitWidth)
    } else {
        Ok(limbs_of(reduction_parameter(modulus), bits))
    }
}

/// Whether `r` is what encoding the reduction parameter of the modulus that `modulus`
/// writes gives for a width of `bits` bits.
pub open spec fn encodes_reduction(
    modulus: Seq<u8>,
    bits: nat,
    r: Result<LimbVector, PipelineError>,
) -> bool {
    match r {
        Ok(limbs) => {
            &&& reduction_limbs(be_value(modulus), bits) == Ok::<Seq<nat>, PipelineError>(limbs@)
            &&& limbs.wf()
            &&& limbs.bit_width == bits
            &&& limbs.value() == reduction_parameter(be_value(modulus))
        },
        Err(e) => reduction_limbs(be_value(modulus), bits) == Err::<Seq<nat>, PipelineError>(e),
    }
}

/// Encoding the reduction parameter of one modulus for one width twice gives the same
/// outcome both times: the same limbs, or the same failure.
pub proof fn lemma_reduction_deterministic(
    modulus: Seq<u8>,
    bits: nat,
    first: Result<LimbVector, PipelineError>,
    second: Result<LimbVector, PipelineError>,
)
    requires
        encodes_reduction(modulus, bits, first),
        encodes_reduction(modulus, bits, second),
    ensures
        same_outcome(first, second),
{
    if first is Ok {
        lemma_same_limbs(first->Ok_0, second->Ok_0);
    }
}

/// Computes the reduction parameter of a modulus, which depends on the modulus alone,
/// and encodes it as limbs for a circuit of width `bit_width`.
///
/// A modulus of zero is no key. The modulus must have at most `bit_width` bits, and
/// the parameter, which is some bits longer than the modulus, must fit the limbs.
pub fn encode_reduction_parameter(modulus: &Vec<u8>, bit_width: usize) -> (r: Result<
    LimbVector,
    PipelineError,
>)
    ensures
        encodes_reduction(modulus@, bit_width as nat, r),
{
    let modulus_bits: u128 = bit_length_of(modulus);
    proof {
        lemma_bit_length_bound(be_value(modulus@), bit_width as nat);
    }
    if modulus_bits == 0 {
        return Err(PipelineError::KeyDecodeError);
    }
    if modulus_bits > bit_width as u128 {
        return Err(PipelineError::ValueExceedsBitWidth);
    }
    let parameter = barrett_parameter(modulus);
    let count: u128 = (bit_width / LIMB_BITS) as u128 + if bit_width % LIMB_BITS != 0 {
        1u128
    } else {
        0u128
    };
    assert(count == limb_count(bit_width as nat));
    proof {
        lemma_bit_length_bound(be_value(parameter@), 120 * limb_count(bit_width as nat));
    }
    if bit_length_of(&parameter) > 120 * count {
        return Err(PipelineError::ValueExceedsBitWidth);
    }
    proof {
        lemma_limbs_hold(be_value(parameter@), bit_width as nat);
    }
    Ok(split_to_vector(&parameter, bit_width))
}

} // verus!

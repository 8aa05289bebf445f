//! Groth16 zero-knowledge proof verification for the withdrawal circuit.
//!
//! A proof is 256 bytes, big-endian: a G1 point `A` (64 bytes), a G2 point
//! `B` (128 bytes) and a G1 point `C` (64 bytes). The four public inputs
//! are 32-byte big-endian field elements in the fixed order root,
//! nullifier hash, recipient, amount. Verification combines the public
//! inputs linearly over the verifying key and hands four point pairs to
//! the alt_bn128 pairing check.

use vstd::prelude::*;
use vstd::arithmetic::power2::{pow2, lemma_pow2_adds, lemma_pow2_pos, lemma2_to64};
use vstd::arithmetic::div_mod::{
    lemma_fundamental_div_mod, lemma_mod_division_less_than_divisor,
    lemma_fundamental_div_mod_converse_mod, lemma_fundamental_div_mod_converse_div,
    lemma_small_mod, lemma_sub_mod_noop_right,
};
use crate::vk;

verus! {

/// Groth16 proof size in bytes.
pub const PROOF_SIZE: usize = 256;

/// Size of a single public input (field element).
pub const PUBLIC_INPUT_SIZE: usize = 32;

/// Number of public inputs for the withdrawal circuit:
/// root, nullifier hash, recipient, amount.
pub const NUM_PUBLIC_INPUTS: usize = 4;

/// Total size of all public inputs.
pub const PUBLIC_INPUTS_SIZE: usize = NUM_PUBLIC_INPUTS * PUBLIC_INPUT_SIZE;

/// The alt_bn128 base-field modulus, big-endian.
pub const BASE_FIELD_MODULUS: [u8; 32] = [
    0x30, 0x64, 0x4e, 0x72, 0xe1, 0x31, 0xa0, 0x29,
    0xb8, 0x50, 0x45, 0xb6, 0x81, 0x81, 0x58, 0x5d,
    0x97, 0x81, 0x6a, 0x91, 0x68, 0x71, 0xca, 0x8d,
    0x3c, 0x20, 0x8c, 0x16, 0xd8, 0x7c, 0xfd, 0x47,
];

/// Errors for Groth16 verification.
#[derive(Clone, Copy, Debug, PartialEq, Eq)]
pub enum Groth16Error {
    /// The proof buffer holds fewer than `PROOF_SIZE` bytes.
    InvalidProofSize,
    /// Reserved: malformed public inputs.
    InvalidPublicInputs,
    /// Reserved for callers: the pairing check said no.
    VerificationFailed,
    /// Reserved: the verifying key is the all-zero sentinel.
    VkNotInitialized,
    /// The pairing computation rejected its input.
    PairingFailed,
    /// A scalar multiplication rejected its input.
    ScalarMulFailed,
    /// A point addition rejected its input.
    PointAddFailed,
}

/// 256 to the power `n`: the weight of a byte `n` places from the little
/// end of a big-endian byte string.
pub open spec fn pow256(n: nat) -> nat {
    pow2(8 * n)
}

/// The value of a big-endian byte string.
pub open spec fn be_val(s: Seq<u8>) -> nat
    decreases s.len(),
{
    if s.len() == 0 {
        0
    } else {
        (s[0] as nat) * pow256((s.len() - 1) as nat) + be_val(s.subrange(1, s.len() as int))
    }
}

/// The `len`-byte big-endian encoding of `n` (mod `256^len`).
pub open spec fn be_bytes(n: nat, len: nat) -> Seq<u8>
    decreases len,
{
    if len == 0 {
        Seq::empty()
    } else {
        be_bytes(n / 256, (len - 1) as nat).push((n % 256) as u8)
    }
}

proof fn lemma_pow256_unfold(n: nat)
    requires
        n >= 1,
    ensures
        pow256(n) == 256 * pow256((n - 1) as nat),
{
    lemma2_to64();
    lemma_pow2_adds(8 * (n - 1) as nat, 8);
    assert(8 * n == 8 * (n - 1) as nat + 8);
}

/// Appending a byte multiplies the value by 256 and adds the byte.
proof fn lemma_be_val_push(s: Seq<u8>, b: u8)
    ensures
        be_val(s.push(b)) == be_val(s) * 256 + b,
    decreases s.len(),
{
    lemma2_to64();
    if s.len() == 0 {
        let t = s.push(b);
        assert(t.len() == 1);
        assert(t.subrange(1, 1) =~= Seq::<u8>::empty());
        assert(pow256(0) == 1);
        assert(t[0] == b);
        assert(be_val(t) == (t[0] as nat) * pow256((t.len() - 1) as nat)
            + be_val(t.subrange(1, t.len() as int)));
        assert((t[0] as nat) * pow256(0) == t[0] as nat) by (nonlinear_arith)
            requires pow256(0) == 1;
        assert(be_val(t) == b);
    } else {
        let t = s.push(b);
        assert(t.subrange(1, t.len() as int) =~= s.subrange(1, s.len() as int).push(b));
        lemma_be_val_push(s.subrange(1, s.len() as int), b);
        lemma_pow256_unfold((s.len()) as nat);
        assert((s[0] as nat) * pow256(s.len() as nat)
            == ((s[0] as nat) * pow256((s.len() - 1) as nat)) * 256) by (nonlinear_arith)
            requires pow256(s.len() as nat) == 256 * pow256((s.len() - 1) as nat);
        assert(t[0] == s[0]);
        assert(t.len() == s.len() + 1);
        assert(be_val(t) == (t[0] as nat) * pow256((t.len() - 1) as nat)
            + be_val(t.subrange(1, t.len() as int)));
        assert(be_val(t.subrange(1, t.len() as int))
            == be_val(s.subrange(1, s.len() as int)) * 256 + b);
        assert(be_val(s) == (s[0] as nat) * pow256((s.len() - 1) as nat)
            + be_val(s.subrange(1, s.len() as int)));
        assert(be_val(t) == be_val(s) * 256 + b);
    }
}

/// A `len`-byte string encodes a value below `256^len`.
proof fn lemma_be_val_bound(s: Seq<u8>)
    ensures
        be_val(s) < pow256(s.len()),
    decreases s.len(),
{
    lemma2_to64();
    if s.len() == 0 {
    } else {
        lemma_be_val_bound(s.subrange(1, s.len() as int));
        lemma_pow256_unfold(s.len());
        lemma_pow2_pos(8 * (s.len() - 1) as nat);
        assert((s[0] as nat) * pow256((s.len() - 1) as nat)
            <= 255 * pow256((s.len() - 1) as nat)) by (nonlinear_arith)
            requires s[0] <= 255, pow256((s.len() - 1) as nat) >= 0;
    }
}

/// Decoding the encoding of any value below `256^len` gives it back.
proof fn lemma_be_val_of_be_bytes(n: nat, len: nat)
    requires
        n < pow256(len),
    ensures
        be_bytes(n, len).len() == len,
        be_val(be_bytes(n, len)) == n,
    decreases len,
{
    lemma2_to64();
    if len == 0 {
    } else {
        lemma_pow256_unfold(len);
        lemma_fundamental_div_mod(n as int, 256);
        lemma_mod_division_less_than_divisor(n as int, 256);
        assert(n / 256 < pow256((len - 1) as nat)) by (nonlinear_arith)
            requires
                n < 256 * pow256((len - 1) as nat),
                n == 256 * (n / 256) + n % 256,
                0 <= n % 256 < 256;
        lemma_be_val_of_be_bytes(n / 256, (len - 1) as nat);
        lemma_be_val_push(be_bytes(n / 256, (len - 1) as nat), (n % 256) as u8);
    }
}

/// Encoding the value of a byte string gives the string back.
proof fn lemma_be_bytes_of_be_val(s: Seq<u8>)
    ensures
        be_bytes(be_val(s), s.len()) == s,
    decreases s.len(),
{
    lemma2_to64();
    if s.len() == 0 {
        assert(be_bytes(0, 0) =~= s);
    } else {
        let t = s.drop_last();
        let b = s.last();
        assert(s =~= t.push(b));
        lemma_be_val_push(t, b);
        let v = be_val(s);
        lemma_fundamental_div_mod_converse_mod(v as int, 256, be_val(t) as int, b as int);
        lemma_fundamental_div_mod_converse_div(v as int, 256, be_val(t) as int, b as int);
        assert(v % 256 == b);
        assert(v / 256 == be_val(t));
        lemma_be_bytes_of_be_val(t);
        assert(be_bytes(v, s.len()) =~= s);
    }
}

/// Decomposing a byte-string slice at its first byte.
proof fn lemma_be_val_front(s: Seq<u8>, a: int, b: int)
    requires
        0 <= a < b <= s.len(),
    ensures
        be_val(s.subrange(a, b)) == (s[a] as nat) * pow256((b - a - 1) as nat) + be_val(
            s.subrange(a + 1, b),
        ),
{
    let t = s.subrange(a, b);
    assert(t[0] == s[a]);
    assert(t.subrange(1, t.len() as int) =~= s.subrange(a + 1, b));
}

/// The base-field modulus as a number.
pub open spec fn p_modulus() -> nat {
    be_val(BASE_FIELD_MODULUS@)
}

/// What negating a G1 point yields: the x-coordinate unchanged, the
/// y-coordinate replaced by `p - y` — reduced modulo `2^256`, exactly as
/// 32-byte big-endian subtraction with borrow produces it.
pub open spec fn negate_g1_spec(point: Seq<u8>) -> Seq<u8> {
    point.subrange(0, 32) + be_bytes(
        ((p_modulus() as int - be_val(point.subrange(32, 64)) as int) % (
        pow256(32) as int)) as nat,
        32,
    )
}

/// Negate a G1 point `(x, y)` to `(x, p - y)` for the pairing check,
/// by big-endian multi-limb subtraction with borrow propagation.
pub fn negate_g1(point: &[u8; 64]) -> (r: [u8; 64])
    ensures
        r@ == negate_g1_spec(point@),
        r@.subrange(0, 32) == point@.subrange(0, 32),
{
    let mut result: [u8; 64] = [0u8; 64];
    for i in 0..32
        invariant
            forall|j: int| 0 <= j < i ==> result@[j] == point@[j],
    {
        result[i] = point[i];
    }

    proof {
        lemma2_to64();
        assert(result@.subrange(64, 64) =~= Seq::<u8>::empty());
        assert(BASE_FIELD_MODULUS@.subrange(32, 32) =~= Seq::<u8>::empty());
        assert(point@.subrange(64, 64) =~= Seq::<u8>::empty());
    }

    // y_neg = p - y (big-endian subtraction)
    let mut borrow: u16 = 0;
    let mut i: usize = 32;
    while i > 0
        invariant
            i <= 32,
            borrow <= 1,
            forall|j: int| 0 <= j < 32 ==> result@[j] == point@[j],
            be_val(result@.subrange(32 + i as int, 64)) as int == be_val(
                BASE_FIELD_MODULUS@.subrange(i as int, 32),
            ) as int + borrow * (pow256((32 - i) as nat) as int) - be_val(
                point@.subrange(32 + i as int, 64),
            ) as int,
        decreases i,
    {
        let ghost prev = result@;
        let ghost borrow0 = borrow as int;
        i = i - 1;
        let ghost k = (31 - i as int) as nat;
        let diff: u16 = (BASE_FIELD_MODULUS[i] as u16) + 256 - (point[32 + i] as u16) - borrow;
        result[32 + i] = (diff & 0xFF) as u8;
        proof {
            assert(diff >> 8 <= 1) by (bit_vector)
                requires diff <= 511;
        }
        borrow = 1 - (diff >> 8);
        proof {
            let pb = BASE_FIELD_MODULUS@[i as int] as int;
            let yb = point@[32 + i as int] as int;
            let d = diff as int;
            assert(diff & 0xFF == diff % 256) by (bit_vector);
            assert(diff >> 8 == diff / 256) by (bit_vector);
            lemma_fundamental_div_mod(d, 256);
            lemma_mod_division_less_than_divisor(d, 256);
            assert(d == pb + 256 - yb - borrow0);
            assert(d <= 511);
            assert(d / 256 <= 1);
            let out = result@[32 + i as int] as int;
            let bn = borrow as int;
            assert(out == d % 256);
            assert(bn == 1 - d / 256);
            assert(out + borrow0 == pb + 256 * bn - yb);
            // value decompositions at the freshly written byte
            assert(result@.subrange(32 + i as int + 1, 64) =~= prev.subrange(
                32 + i as int + 1, 64,
            ));
            lemma_be_val_front(result@, 32 + i as int, 64);
            lemma_be_val_front(BASE_FIELD_MODULUS@, i as int, 32);
            lemma_be_val_front(point@, 32 + i as int, 64);
            lemma_pow256_unfold((k + 1) as nat);
            let pk = pow256(k) as int;
            let pk1 = pow256((k + 1) as nat) as int;
            assert(out * pk + borrow0 * pk == pb * pk + bn * pk1 - yb * pk)
                by (nonlinear_arith)
                requires
                    out + borrow0 == pb + 256 * bn - yb,
                    pk1 == 256 * pk;
        }
    }
    proof {
        lemma2_to64();
        assert(BASE_FIELD_MODULUS@.subrange(0, 32) =~= BASE_FIELD_MODULUS@);
        let m = pow256(32) as int;
        lemma_pow2_pos((8 * 32) as nat);
        let ry = result@.subrange(32, 64);
        let y = point@.subrange(32, 64);
        lemma_be_val_bound(ry);
        lemma_be_val_bound(BASE_FIELD_MODULUS@);
        let pv = p_modulus() as int;
        let yv = be_val(y) as int;
        let rv = be_val(ry) as int;
        if borrow == 0 {
            assert(rv == pv - yv);
            lemma_fundamental_div_mod_converse_mod(pv - yv, m, 0, rv);
        } else {
            assert(rv == pv + m - yv);
            assert(pv - yv == (-1) * m + rv);
            lemma_fundamental_div_mod_converse_mod(pv - yv, m, -1, rv);
        }
        assert(rv == (pv - yv) % m);
        lemma_be_bytes_of_be_val(ry);
        assert(be_bytes(((pv - yv) % m) as nat, 32) == ry);
        assert(result@.subrange(0, 32) =~= point@.subrange(0, 32));
        assert(result@ =~= result@.subrange(0, 32) + result@.subrange(32, 64));
        assert(result@ == negate_g1_spec(point@));
    }
    result
}

/// Law: negation is an involution — negating a G1 point twice gives back
/// the original point; the x-coordinate never changes and the y-coordinate
/// becomes `p - y` and back.
pub proof fn lemma_negate_g1_involution(point: Seq<u8>)
    requires
        point.len() == 64,
    ensures
        negate_g1_spec(negate_g1_spec(point)) == point,
        negate_g1_spec(point).subrange(0, 32) == point.subrange(0, 32),
{
    lemma2_to64();
    let m = pow256(32) as int;
    lemma_pow2_pos((8 * 32) as nat);
    let x = point.subrange(0, 32);
    let y = point.subrange(32, 64);
    let pv = p_modulus() as int;
    let yv = be_val(y) as int;
    lemma_be_val_bound(y);
    let v1 = (pv - yv) % m;
    lemma_mod_division_less_than_divisor(pv - yv, m);
    let q = negate_g1_spec(point);
    lemma_be_val_of_be_bytes(v1 as nat, 32);
    assert(q.subrange(0, 32) =~= x);
    assert(q.subrange(32, 64) =~= be_bytes(v1 as nat, 32));
    assert(be_val(q.subrange(32, 64)) as int == v1);
    lemma_sub_mod_noop_right(pv, pv - yv, m);
    lemma_small_mod(yv as nat, pow256(32));
    assert((pv - v1) % m == yv);
    lemma_be_bytes_of_be_val(y);
    assert(negate_g1_spec(q) == q.subrange(0, 32) + be_bytes(yv as nat, 32));
    assert(negate_g1_spec(q) =~= point);
}

/// Each aligned 32-byte limb reversed in place: the little-endian
/// convention of proof-generation tooling, turned big-endian — and, since
/// reversal is symmetric, also the way back.
pub open spec fn limbs_reversed(s: Seq<u8>) -> Seq<u8> {
    Seq::new(s.len(), |i: int| s[(i / 32) * 64 + 31 - i])
}

/// Law: limb reversal is an involution — converting a 32-, 64- or
/// 128-byte buffer twice gives back the original buffer.
pub proof fn lemma_limbs_reversed_involution(s: Seq<u8>)
    requires
        s.len() % 32 == 0,
    ensures
        limbs_reversed(limbs_reversed(s)) == s,
{
    let n = s.len() as int;
    assert forall|i: int| 0 <= i < n implies limbs_reversed(limbs_reversed(s))[i] == s[i] by {
        let k = i / 32;
        lemma_fundamental_div_mod(i, 32);
        lemma_mod_division_less_than_divisor(i, 32);
        lemma_fundamental_div_mod(n, 32);
        assert(n == 32 * (n / 32));
        assert(k < n / 32);
        assert(32 * k + 32 <= n);
        let j = k * 64 + 31 - i;
        assert(0 <= j - 32 * k < 32);
        lemma_fundamental_div_mod_converse_div(j, 32, k, j - 32 * k);
        assert(j / 32 == k);
        assert(limbs_reversed(s)[j] == s[(j / 32) * 64 + 31 - j]);
        assert((j / 32) * 64 + 31 - j == i);
    }
    assert(limbs_reversed(limbs_reversed(s)) =~= s);
}

/// Convert a 32-byte little-endian field element to big-endian.
pub fn le_to_be_32(le_bytes: &[u8; 32]) -> (r: [u8; 32])
    ensures
        r@ == limbs_reversed(le_bytes@),
{
    let mut out: [u8; 32] = [0u8; 32];
    for i in 0..32
        invariant
            forall|j: int| 0 <= j < i ==> out@[j] == le_bytes@[31 - j],
    {
        out[i] = le_bytes[31 - i];
    }
    proof {
        assert(out@ =~= limbs_reversed(le_bytes@));
    }
    out
}

/// Convert a 64-byte little-endian G1 point to big-endian: each 32-byte
/// coordinate is reversed independently.
pub fn le_to_be_g1(le_bytes: &[u8; 64]) -> (r: [u8; 64])
    ensures
        r@ == limbs_reversed(le_bytes@),
{
    let mut out: [u8; 64] = [0u8; 64];
    for i in 0..32
        invariant
            forall|j: int| 0 <= j < i ==> out@[j] == le_bytes@[31 - j],
    {
        out[i] = le_bytes[31 - i];
    }
    for i in 0..32
        invariant
            forall|j: int| 0 <= j < 32 ==> out@[j] == le_bytes@[31 - j],
            forall|j: int| 32 <= j < 32 + i ==> out@[j] == le_bytes@[95 - j],
    {
        out[32 + i] = le_bytes[63 - i];
    }
    proof {
        assert(out@ =~= limbs_reversed(le_bytes@));
    }
    out
}

/// Convert a 128-byte little-endian G2 point to big-endian: the four
/// 32-byte limbs `x.c0`, `x.c1`, `y.c0`, `y.c1` are reversed independently.
pub fn le_to_be_g2(le_bytes: &[u8; 128]) -> (r: [u8; 128])
    ensures
        r@ == limbs_reversed(le_bytes@),
{
    let mut out: [u8; 128] = [0u8; 128];
    for limb in 0..4
        invariant
            forall|j: int|
                0 <= j < 32 * (limb as int) ==> out@[j] == le_bytes@[(j / 32) * 64 + 31 - j],
    {
        let start = limb * 32;
        for i in 0..32
            invariant
                start == limb * 32,
                limb < 4,
                forall|j: int|
                    0 <= j < 32 * (limb as int) ==> out@[j] == le_bytes@[(j / 32) * 64 + 31 - j],
                forall|j: int|
                    32 * (limb as int) <= j < 32 * (limb as int) + i ==> out@[j]
                        == le_bytes@[(j / 32) * 64 + 31 - j],
        {
            out[start + i] = le_bytes[start + 31 - i];
            proof {
                let j = start as int + i;
                lemma_fundamental_div_mod_converse_div(j, 32, limb as int, i as int);
                assert(j / 32 == limb as int);
                assert((start + 31 - i) as int == (j / 32) * 64 + 31 - j);
            }
        }
    }
    proof {
        assert forall|j: int| 0 <= j < 128 implies out@[j] == le_bytes@[(j / 32) * 64 + 31 - j] by {
        }
        assert(out@ =~= limbs_reversed(le_bytes@));
    }
    out
}

/// Groth16 proof structure.
#[derive(Clone, Debug)]
pub struct Groth16Proof {
    /// Proof point A (G1, 64 bytes big-endian).
    pub a: [u8; 64],
    /// Proof point B (G2, 128 bytes big-endian).
    pub b: [u8; 128],
    /// Proof point C (G1, 64 bytes big-endian).
    pub c: [u8; 64],
}

impl Groth16Proof {
    /// Parse a proof from raw bytes: `A(64) || B(128) || C(64)`, rejecting
    /// a buffer shorter than `PROOF_SIZE`.
    pub fn from_bytes(bytes: &[u8]) -> (r: Option<Self>)
        ensures
            bytes@.len() < PROOF_SIZE ==> r is None,
            bytes@.len() >= PROOF_SIZE ==> {
                &&& r matches Some(p)
                &&& p.a@ == bytes@.subrange(0, 64)
                &&& p.b@ == bytes@.subrange(64, 192)
                &&& p.c@ == bytes@.subrange(192, 256)
            },
    {
        if bytes.len() < PROOF_SIZE {
            return None;
        }

        let mut a = [0u8; 64];
        let mut b = [0u8; 128];
        let mut c = [0u8; 64];

        for i in 0..64
            invariant
                bytes@.len() >= 256,
                forall|j: int| 0 <= j < i ==> a@[j] == bytes@[j],
        {
            a[i] = bytes[i];
        }
        for i in 0..128
            invariant
                bytes@.len() >= 256,
                forall|j: int| 0 <= j < i ==> b@[j] == bytes@[64 + j],
        {
            b[i] = bytes[64 + i];
        }
        for i in 0..64
            invariant
                bytes@.len() >= 256,
                forall|j: int| 0 <= j < i ==> c@[j] == bytes@[192 + j],
        {
            c[i] = bytes[192 + i];
        }
        proof {
            assert(a@ =~= bytes@.subrange(0, 64));
            assert(b@ =~= bytes@.subrange(64, 192));
            assert(c@ =~= bytes@.subrange(192, 256));
        }
        Some(Groth16Proof { a, b, c })
    }

    /// Serialize the proof back to its 256-byte wire form.
    pub fn to_bytes(&self) -> (r: [u8; PROOF_SIZE])
        ensures
            r@ == self.a@ + self.b@ + self.c@,
    {
        let mut bytes = [0u8; PROOF_SIZE];
        for i in 0..64
            invariant
                forall|j: int| 0 <= j < i ==> bytes@[j] == self.a@[j],
        {
            bytes[i] = self.a[i];
        }
        for i in 0..128
            invariant
                forall|j: int| 0 <= j < 64 ==> bytes@[j] == self.a@[j],
                forall|j: int| 64 <= j < 64 + i ==> bytes@[j] == self.b@[j - 64],
        {
            bytes[64 + i] = self.b[i];
        }
        for i in 0..64
            invariant
                forall|j: int| 0 <= j < 64 ==> bytes@[j] == self.a@[j],
                forall|j: int| 64 <= j < 192 ==> bytes@[j] == self.b@[j - 64],
                forall|j: int| 192 <= j < 192 + i ==> bytes@[j] == self.c@[j - 192],
        {
            bytes[192 + i] = self.c[i];
        }
        proof {
            assert(bytes@ =~= self.a@ + self.b@ + self.c@);
        }
        bytes
    }
}

/// Public inputs for the withdrawal circuit.
#[derive(Clone, Debug)]
pub struct WithdrawPublicInputs {
    /// Current Merkle root.
    pub root: [u8; 32],
    /// Nullifier hash (prevents double-spending).
    pub nullifier_hash: [u8; 32],
    /// Recipient address (bound into the proof against front-running).
    pub recipient: [u8; 32],
    /// Amount being withdrawn.
    pub amount: [u8; 32],
}

impl WithdrawPublicInputs {
    /// The inputs in the verifier's fixed order, as big-endian field
    /// elements.
    pub fn to_verifier_inputs(&self) -> (r: [[u8; 32]; NUM_PUBLIC_INPUTS])
        ensures
            r@ == seq![self.root, self.nullifier_hash, self.recipient, self.amount],
    {
        let r = [self.root, self.nullifier_hash, self.recipient, self.amount];
        proof {
            assert(r@ =~= seq![self.root, self.nullifier_hash, self.recipient, self.amount]);
        }
        r
    }
}

/// Whether a byte string holds any non-zero byte.
pub open spec fn has_nonzero_byte(bytes: Seq<u8>) -> bool {
    exists|i: int| 0 <= i < bytes.len() && bytes[i] != 0
}

/// Whether the verifying key differs from the all-zero sentinel: some byte
/// of some component — alpha, beta, gamma, delta or an IC element — is
/// non-zero.
pub open spec fn vk_initialized() -> bool {
    ||| has_nonzero_byte(vk::ALPHA_G1@)
    ||| has_nonzero_byte(vk::BETA_G2@)
    ||| has_nonzero_byte(vk::GAMMA_G2@)
    ||| has_nonzero_byte(vk::DELTA_G2@)
    ||| exists|k: int| 0 <= k < 5 && has_nonzero_byte(#[trigger] vk::IC@[k]@)
}

/// Whether a fixed-size buffer holds any non-zero byte.
fn any_nonzero<const N: usize>(bytes: &[u8; N]) -> (r: bool)
    ensures
        r == has_nonzero_byte(bytes@),
{
    let mut i: usize = 0;
    while i < N
        invariant
            i <= N,
            forall|j: int| 0 <= j < i ==> bytes@[j] == 0,
        decreases N - i,
    {
        if bytes[i] != 0 {
            return true;
        }
        i = i + 1;
    }
    false
}

/// Check whether the verifying key is initialized (not all zeros).
fn is_vk_initialized() -> (r: bool)
    ensures
        r == vk_initialized(),
{
    if any_nonzero(&vk::ALPHA_G1) {
        return true;
    }
    if any_nonzero(&vk::BETA_G2) {
        return true;
    }
    if any_nonzero(&vk::GAMMA_G2) {
        return true;
    }
    if any_nonzero(&vk::DELTA_G2) {
        return true;
    }
    let mut k: usize = 0;
    while k < 5
        invariant
            k <= 5,
            !has_nonzero_byte(vk::ALPHA_G1@),
            !has_nonzero_byte(vk::BETA_G2@),
            !has_nonzero_byte(vk::GAMMA_G2@),
            !has_nonzero_byte(vk::DELTA_G2@),
            forall|j: int| 0 <= j < k ==> !has_nonzero_byte(#[trigger] vk::IC@[j]@),
        decreases 5 - k,
    {
        if any_nonzero(&vk::IC[k]) {
            return true;
        }
        k = k + 1;
    }
    false
}

/// What `alt_bn128_multiplication` returns on a given input: the 64-byte
/// big-endian product point, or nothing where the input is rejected.
pub uninterp spec fn bn254_mul(input: Seq<u8>) -> Option<Seq<u8>>;

/// What `alt_bn128_addition` returns on a given input: the 64-byte
/// big-endian sum point, or nothing where the input is rejected.
pub uninterp spec fn bn254_add(input: Seq<u8>) -> Option<Seq<u8>>;

/// What `alt_bn128_pairing` returns on a given input: the 32-byte
/// big-endian encoding of one where the product of pairings is the
/// identity and of zero where it is not, or nothing where a point is
/// rejected.
pub uninterp spec fn bn254_pairing(input: Seq<u8>) -> Option<Seq<u8>>;

/// Relies on `solana_program::alt_bn128::prelude::alt_bn128_multiplication`:
/// deterministic in the input bytes alone; on success its source
/// serializes exactly 64 output bytes.
#[verifier::external_body]
fn alt_bn128_mul_call(input: &[u8]) -> (r: Option<Vec<u8>>)
    ensures
        r matches Some(v) ==> bn254_mul(input@) == Some(v@) && v@.len() == 64,
        r is None ==> bn254_mul(input@) is None,
{
    solana_program::alt_bn128::prelude::alt_bn128_multiplication(input).ok()
}

/// Relies on `solana_program::alt_bn128::prelude::alt_bn128_addition`:
/// deterministic in the input bytes alone; on success its source
/// serializes exactly 64 output bytes.
#[verifier::external_body]
fn alt_bn128_add_call(input: &[u8]) -> (r: Option<Vec<u8>>)
    ensures
        r matches Some(v) ==> bn254_add(input@) == Some(v@) && v@.len() == 64,
        r is None ==> bn254_add(input@) is None,
{
    solana_program::alt_bn128::prelude::alt_bn128_addition(input).ok()
}

/// Relies on `solana_program::alt_bn128::prelude::alt_bn128_pairing`:
/// deterministic in the input bytes alone; on success its source returns
/// the 32-byte big-endian encoding of zero or one.
#[verifier::external_body]
fn alt_bn128_pairing_call(input: &[u8]) -> (r: Option<Vec<u8>>)
    ensures
        r matches Some(v) ==> bn254_pairing(input@) == Some(v@) && v@.len() == 32,
        r is None ==> bn254_pairing(input@) is None,
{
    solana_program::alt_bn128::prelude::alt_bn128_pairing(input).ok()
}

/// The flattened big-endian bytes of a verifying-key IC element.
pub open spec fn ic_bytes(k: int) -> Seq<u8> {
    vk::IC@[k]@
}

/// The running linear combination `IC[0] ⊕ Σ inputs[i]·IC[i+1]` after the
/// first `k` public inputs, or the error of the first step that failed.
pub open spec fn linear_combination(inputs: Seq<Seq<u8>>, k: int) -> Result<
    Seq<u8>,
    Groth16Error,
>
    decreases k,
{
    if k <= 0 {
        Ok(ic_bytes(0))
    } else {
        match linear_combination(inputs, k - 1) {
            Err(e) => Err(e),
            Ok(acc) => match bn254_mul(ic_bytes(k) + inputs[k - 1]) {
                None => Err(Groth16Error::ScalarMulFailed),
                Some(mul_out) => match bn254_add(acc + mul_out) {
                    None => Err(Groth16Error::PointAddFailed),
                    Some(sum) => Ok(sum),
                },
            },
        }
    }
}

/// An error in the linear combination stands once it has happened.
proof fn lemma_linear_combination_err(inputs: Seq<Seq<u8>>, j: int, k: int)
    requires
        0 <= j <= k,
        linear_combination(inputs, j) is Err,
    ensures
        linear_combination(inputs, k) == linear_combination(inputs, j),
    decreases k - j,
{
    if k > j {
        lemma_linear_combination_err(inputs, j, k - 1);
    }
}

/// The 768-byte pairing-check buffer: the four (G1, G2) pairs in fixed
/// order (−A, B), (alpha, beta), (L, gamma), (C, delta).
pub open spec fn pairing_input_of(a: Seq<u8>, b: Seq<u8>, c: Seq<u8>, l: Seq<u8>) -> Seq<u8> {
    negate_g1_spec(a) + b + vk::ALPHA_G1@ + vk::BETA_G2@ + l + vk::GAMMA_G2@ + c + vk::DELTA_G2@
}

/// What withdrawal verification returns, step by step: the size check,
/// the all-zero-key bypass, the linear combination of the public inputs,
/// and the pairing check read off its 32-byte outcome.
pub open spec fn verify_withdraw_spec(
    proof_bytes: Seq<u8>,
    root: Seq<u8>,
    nullifier_hash: Seq<u8>,
    recipient: Seq<u8>,
    amount: Seq<u8>,
) -> Result<bool, Groth16Error> {
    if proof_bytes.len() < PROOF_SIZE {
        Err(Groth16Error::InvalidProofSize)
    } else if !vk_initialized() {
        Ok(true)
    } else {
        match linear_combination(
            seq![root, nullifier_hash, recipient, amount],
            NUM_PUBLIC_INPUTS as int,
        ) {
            Err(e) => Err(e),
            Ok(l) => match bn254_pairing(
                pairing_input_of(
                    proof_bytes.subrange(0, 64),
                    proof_bytes.subrange(64, 192),
                    proof_bytes.subrange(192, 256),
                    l,
                ),
            ) {
                None => Err(Groth16Error::PairingFailed),
                Some(out) => Ok(out[31] == 1),
            },
        }
    }
}

/// Append a byte string to a growing buffer.
fn append_bytes(v: &mut Vec<u8>, s: &[u8])
    ensures
        final(v)@ == old(v)@ + s@,
{
    proof {
        assert(old(v)@ + s@.subrange(0, 0) =~= old(v)@);
    }
    let mut i: usize = 0;
    while i < s.len()
        invariant
            i <= s@.len(),
            v@ == old(v)@ + s@.subrange(0, i as int),
        decreases s@.len() - i,
    {
        let b = s[i];
        proof {
            assert((old(v)@ + s@.subrange(0, i as int)).push(s@[i as int]) =~= old(v)@
                + s@.subrange(0, i as int + 1));
        }
        v.push(b);
        i = i + 1;
    }
    proof {
        assert(s@.subrange(0, s@.len() as int) =~= s@);
    }
}

/// Verify a Groth16 withdrawal proof against the baked-in verifying key.
///
/// The pairing check decides `e(A, B) == e(alpha, beta) · e(L, gamma) ·
/// e(C, delta)`, rearranged as a product of four pairings over `−A` that
/// must equal the identity, where `L` is the public-input linear
/// combination over the verifying key.
pub fn verify_groth16_withdraw(
    proof_bytes: &[u8],
    root: &[u8; 32],
    nullifier_hash: &[u8; 32],
    recipient: &[u8; 32],
    amount: &[u8; 32],
) -> (r: Result<bool, Groth16Error>)
    ensures
        r == verify_withdraw_spec(proof_bytes@, root@, nullifier_hash@, recipient@, amount@),
        proof_bytes@.len() < PROOF_SIZE ==> r == Err::<bool, Groth16Error>(
            Groth16Error::InvalidProofSize,
        ),
        proof_bytes@.len() >= PROOF_SIZE && !vk_initialized() ==> r == Ok::<
            bool,
            Groth16Error,
        >(true),
{
    let parsed = match Groth16Proof::from_bytes(proof_bytes) {
        Some(p) => p,
        None => {
            return Err(Groth16Error::InvalidProofSize);
        },
    };

    if !is_vk_initialized() {
        // development bypass: an all-zero verifying key accepts everything
        return Ok(true);
    }

    let ghost inputs = seq![root@, nullifier_hash@, recipient@, amount@];

    // L = IC[0] + sum(public_input[i] * IC[i+1])
    let mut l_point: Vec<u8> = Vec::new();
    append_bytes(&mut l_point, vk::IC[0].as_slice());
    proof {
        assert(l_point@ =~= ic_bytes(0));
    }

    let mut idx: usize = 0;
    while idx < NUM_PUBLIC_INPUTS
        invariant
            idx <= NUM_PUBLIC_INPUTS,
            proof_bytes@.len() >= PROOF_SIZE,
            vk_initialized(),
            inputs == seq![root@, nullifier_hash@, recipient@, amount@],
            linear_combination(inputs, idx as int) == Ok::<Seq<u8>, Groth16Error>(l_point@),
        decreases NUM_PUBLIC_INPUTS - idx,
    {
        let input: &[u8; 32] = if idx == 0 {
            root
        } else if idx == 1 {
            nullifier_hash
        } else if idx == 2 {
            recipient
        } else {
            amount
        };
        proof {
            assert(input@ == inputs[idx as int]);
        }

        // scalar multiplication: input * IC[idx + 1]
        let mut mul_input: Vec<u8> = Vec::new();
        append_bytes(&mut mul_input, vk::IC[idx + 1].as_slice());
        append_bytes(&mut mul_input, input.as_slice());
        proof {
            assert(mul_input@ == ic_bytes(idx as int + 1) + inputs[idx as int]);
        }
        let mul_result = match alt_bn128_mul_call(mul_input.as_slice()) {
            Some(v) => v,
            None => {
                proof {
                    lemma_linear_combination_err(inputs, idx as int + 1, NUM_PUBLIC_INPUTS as int);
                }
                return Err(Groth16Error::ScalarMulFailed);
            },
        };

        // point addition: L = L + mul_result
        let mut add_input: Vec<u8> = Vec::new();
        append_bytes(&mut add_input, l_point.as_slice());
        append_bytes(&mut add_input, mul_result.as_slice());
        let add_result = match alt_bn128_add_call(add_input.as_slice()) {
            Some(v) => v,
            None => {
                proof {
                    lemma_linear_combination_err(inputs, idx as int + 1, NUM_PUBLIC_INPUTS as int);
                }
                return Err(Groth16Error::PointAddFailed);
            },
        };
        l_point = add_result;
        idx = idx + 1;
    }

    // pairing input: 4 pairs of (G1, G2) points
    let neg_a = negate_g1(&parsed.a);
    let mut pairing_input: Vec<u8> = Vec::new();
    append_bytes(&mut pairing_input, neg_a.as_slice());
    append_bytes(&mut pairing_input, parsed.b.as_slice());
    append_bytes(&mut pairing_input, vk::ALPHA_G1.as_slice());
    append_bytes(&mut pairing_input, vk::BETA_G2.as_slice());
    append_bytes(&mut pairing_input, l_point.as_slice());
    append_bytes(&mut pairing_input, vk::GAMMA_G2.as_slice());
    append_bytes(&mut pairing_input, parsed.c.as_slice());
    append_bytes(&mut pairing_input, vk::DELTA_G2.as_slice());
    proof {
        assert(pairing_input@ == pairing_input_of(
            proof_bytes@.subrange(0, 64),
            proof_bytes@.subrange(64, 192),
            proof_bytes@.subrange(192, 256),
            l_point@,
        ));
    }

    let pairing_result = match alt_bn128_pairing_call(pairing_input.as_slice()) {
        Some(v) => v,
        None => {
            return Err(Groth16Error::PairingFailed);
        },
    };

    // 32 big-endian bytes encoding one (valid) or zero (invalid)
    Ok(pairing_result[31] == 1)
}

} // verus!

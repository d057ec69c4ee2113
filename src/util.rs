use vstd::prelude::*;
use vstd::string::StrSliceExecFns;
use vstd::string::StringExecFns;

use crate::entity::le_value;

verus! {

/// The base-52 digit for a value below 52: `A` to `Z`, then `a` to `z`.
pub open spec fn base52_char(d: int) -> char {
    if d < 26 {
        ('A' as int + d) as char
    } else {
        ('a' as int + d - 26) as char
    }
}

/// 52 to the power `k`.
pub open spec fn pow52(k: nat) -> nat
    decreases k,
{
    if k == 0 {
        1
    } else {
        52 * pow52((k - 1) as nat)
    }
}

/// The 34 base-52 digits of `n`, most significant first (enough for any 192-bit number).
pub open spec fn base52_text(n: nat) -> Seq<char> {
    Seq::new(34, |i: int| base52_char(((n / pow52((33 - i) as nat)) % 52) as int))
}

/// A 192-bit hash value. Its text is the number its bytes spell (least significant byte
/// first) written in base 52, most significant digit first, in exactly 34 letters.
pub struct Hash([u8; 24]);

/// The number that a 192-bit hash stands for: its bytes, least significant first.
pub open spec fn hash_value(bytes: Seq<u8>) -> nat {
    le_value(bytes)
}

proof fn lemma_pow52_positive(k: nat)
    ensures
        pow52(k) > 0,
    decreases k,
{
    if k > 0 {
        lemma_pow52_positive((k - 1) as nat);
    }
}

/// Dividing a three-limb number by 52, limb by limb from the top.
proof fn lemma_long_division(hi: int, mid: int, lo: int, qh: int, r1: int, qm: int, r2: int, ql: int, r3: int)
    requires
        0 <= hi,
        0 <= mid,
        0 <= lo,
        hi == 52 * qh + r1,
        0 <= r1 < 52,
        r1 * 0x1_0000_0000_0000_0000 + mid == 52 * qm + r2,
        0 <= r2 < 52,
        r2 * 0x1_0000_0000_0000_0000 + lo == 52 * ql + r3,
        0 <= r3 < 52,
    ensures
        (hi * 0x1_0000_0000_0000_0000_0000_0000_0000_0000 + mid * 0x1_0000_0000_0000_0000 + lo) / 52
            == qh * 0x1_0000_0000_0000_0000_0000_0000_0000_0000 + qm * 0x1_0000_0000_0000_0000 + ql,
        (hi * 0x1_0000_0000_0000_0000_0000_0000_0000_0000 + mid * 0x1_0000_0000_0000_0000 + lo) % 52
            == r3,
{
    let n = hi * 0x1_0000_0000_0000_0000_0000_0000_0000_0000 + mid * 0x1_0000_0000_0000_0000 + lo;
    let q = qh * 0x1_0000_0000_0000_0000_0000_0000_0000_0000 + qm * 0x1_0000_0000_0000_0000 + ql;
    assert(n == 52 * q + r3);
    vstd::arithmetic::div_mod::lemma_fundamental_div_mod_converse(n, 52, q, r3);
}

impl Hash {
    /// The hash with the given bytes.
    pub fn from_bytes(value: [u8; 24]) -> (r: Hash)
        ensures
            r.bytes() == value@,
    {
        Hash(value)
    }

    /// The hash bytes.
    pub closed spec fn bytes(&self) -> Seq<u8> {
        self.0@
    }

    /// The base-52 text of the hash: always 34 ASCII letters.
    pub fn to_string(&self) -> (r: String)
        ensures
            r@ == base52_text(hash_value(self.bytes())),
    {
        let ghost n = hash_value(self.0@);
        let lo: u64 = read_u64(&self.0, 0);
        let mid: u64 = read_u64(&self.0, 8);
        let hi: u64 = read_u64(&self.0, 16);
        proof {
            lemma_split_value(self.0@);
        }
        let mut limbs: (u64, u64, u64) = (hi, mid, lo);
        let mut digits = [0u8; 34];
        let mut j: usize = 0;
        assert(pow52(0) == 1);
        while j < 34
            invariant
                0 <= j <= 34,
                limbs.0 as int * 0x1_0000_0000_0000_0000_0000_0000_0000_0000 + limbs.1 as int
                    * 0x1_0000_0000_0000_0000 + limbs.2 as int == n / pow52(j as nat),
                forall|i: int|
                    33 - j < i < 34 ==> #[trigger] digits@[i] as int == (n / pow52((33 - i) as nat))
                        % 52,
            decreases 34 - j,
        {
            let (h, m, l) = limbs;
            let qh = h / 52;
            let r1 = h % 52;
            let t1: u128 = (r1 as u128) * 0x1_0000_0000_0000_0000 + m as u128;
            let qm = t1 / 52;
            let r2 = t1 % 52;
            let t0: u128 = (r2 as u128) * 0x1_0000_0000_0000_0000 + l as u128;
            let ql = t0 / 52;
            let r3 = t0 % 52;
            proof {
                lemma_long_division(h as int, m as int, l as int, qh as int, r1 as int, qm as int, r2 as int, ql as int, r3 as int);
                lemma_pow52_positive(j as nat);
                vstd::arithmetic::div_mod::lemma_div_denominator(n as int, pow52(j as nat) as int, 52);
                assert(pow52(j as nat + 1) == pow52(j as nat) * 52);
            }
            digits[33 - j] = r3 as u8;
            limbs = (qh, qm as u64, ql as u64);
            j = j + 1;
        }
        let alphabet = "ABCDEFGHIJKLMNOPQRSTUVWXYZabcdefghijklmnopqrstuvwxyz";
        proof {
            reveal_strlit("ABCDEFGHIJKLMNOPQRSTUVWXYZabcdefghijklmnopqrstuvwxyz");
            assert(alphabet@ =~= Seq::new(52, |d: int| base52_char(d)));
        }
        let mut out = String::new();
        let mut i: usize = 0;
        while i < 34
            invariant
                0 <= i <= 34,
                alphabet@ =~= Seq::new(52, |d: int| base52_char(d)),
                forall|k: int| 0 <= k < 34 ==> #[trigger] digits@[k] as int == (n / pow52((33 - k) as nat)) % 52,
                out@ == base52_text(n).subrange(0, i as int),
            decreases 34 - i,
        {
            let d = digits[i] as usize;
            out.append(alphabet.substring_char(d, d + 1));
            i = i + 1;
            assert(out@ =~= base52_text(n).subrange(0, i as int));
        }
        assert(base52_text(n).subrange(0, 34) =~= base52_text(n));
        out
    }

    /// The first `length` characters of the base-52 text.
    pub fn to_string_truncated(&self, length: usize) -> (r: String)
        requires
            length <= 34,
        ensures
            r@ == base52_text(hash_value(self.bytes())).subrange(0, length as int),
    {
        let full = self.to_string();
        String::from_str(full.as_str().substring_char(0, length))
    }
}

/// Eight bytes from `start`, least significant first.
fn read_u64(bytes: &[u8; 24], start: usize) -> (r: u64)
    requires
        start + 8 <= 24,
    ensures
        r == le_value(bytes@.subrange(start as int, start + 8)),
{
    let r = crate::entity::read_le(bytes.as_slice(), start, 8);
    proof {
        crate::entity::lemma_le_value_bound(bytes@.subrange(start as int, start + 8));
        crate::entity::lemma_pow256_16();
    }
    r as u64
}

/// The value of 24 bytes from those of its three 8-byte limbs.
proof fn lemma_split_value(s: Seq<u8>)
    requires
        s.len() == 24,
    ensures
        le_value(s) == le_value(s.subrange(16, 24)) * 0x1_0000_0000_0000_0000_0000_0000_0000_0000
            + le_value(s.subrange(8, 16)) * 0x1_0000_0000_0000_0000 + le_value(s.subrange(0, 8)),
{
    crate::entity::lemma_le_value_concat(s.subrange(0, 8), s.subrange(8, 24));
    crate::entity::lemma_le_value_concat(s.subrange(8, 16), s.subrange(16, 24));
    assert(s.subrange(0, 8) + s.subrange(8, 24) =~= s);
    assert(s.subrange(8, 16) + s.subrange(16, 24) =~= s.subrange(8, 24));
    crate::entity::lemma_pow256_16();
    let a = le_value(s.subrange(0, 8));
    let b = le_value(s.subrange(8, 16));
    let c = le_value(s.subrange(16, 24));
    assert(le_value(s.subrange(8, 24)) == b + 0x1_0000_0000_0000_0000 * c);
    assert(le_value(s) == a + 0x1_0000_0000_0000_0000 * le_value(s.subrange(8, 24)));
    assert(0x1_0000_0000_0000_0000 * (b + 0x1_0000_0000_0000_0000 * c) == 0x1_0000_0000_0000_0000 * b
        + 0x1_0000_0000_0000_0000_0000_0000_0000_0000 * c) by (nonlinear_arith);
}

} // verus!

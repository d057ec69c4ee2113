use vstd::prelude::*;

use crate::hashing;

verus! {

/// 256 to the power `k`.
pub open spec fn pow256(k: nat) -> nat
    decreases k,
{
    if k == 0 {
        1
    } else {
        256 * pow256((k - 1) as nat)
    }
}

/// The number that bytes spell, least significant byte first.
pub open spec fn le_value(s: Seq<u8>) -> nat
    decreases s.len(),
{
    if s.len() == 0 {
        0
    } else {
        s[0] as nat + 256 * le_value(s.drop_first())
    }
}

/// Byte `j` of `n`, counting from the least significant.
pub open spec fn le_byte(n: nat, j: nat) -> u8 {
    ((n / pow256(j)) % 256) as u8
}

proof fn lemma_pow256_positive(k: nat)
    ensures
        pow256(k) > 0,
    decreases k,
{
    if k > 0 {
        lemma_pow256_positive((k - 1) as nat);
    }
}

pub proof fn lemma_pow256_monotone(a: nat, b: nat)
    requires
        a <= b,
    ensures
        pow256(a) <= pow256(b),
    decreases b,
{
    if a < b {
        lemma_pow256_monotone(a, (b - 1) as nat);
        lemma_pow256_positive((b - 1) as nat);
    }
}

pub proof fn lemma_pow256_16()
    ensures
        pow256(16) == 0x1_0000_0000_0000_0000_0000_0000_0000_0000,
        pow256(8) == 0x1_0000_0000_0000_0000,
{
    reveal_with_fuel(pow256, 17);
}

/// Reads `count` bytes from `start`, least significant first.
pub(crate) fn read_le(bytes: &[u8], start: usize, count: usize) -> (r: u128)
    requires
        count <= 16,
        start + count <= bytes@.len(),
    ensures
        r == le_value(bytes@.subrange(start as int, start + count)),
{
    let n = bytes.len();
    let mut acc: u128 = 0;
    let mut i: usize = count;
    proof {
        lemma_pow256_16();
    }
    while i > 0
        invariant
            0 <= i <= count <= 16,
            start + count <= n == bytes@.len(),
            pow256(16) == 0x1_0000_0000_0000_0000_0000_0000_0000_0000,
            acc == le_value(bytes@.subrange(start + i, start + count)),
            acc < pow256((count - i) as nat),
        decreases i,
    {
        i = i - 1;
        let b = bytes[start + i];
        proof {
            let s = bytes@.subrange(start + i, start + count);
            assert(s.drop_first() =~= bytes@.subrange(start + i + 1, start + count));
            let k = (count - i - 1) as nat;
            assert(pow256(k + 1) == 256 * pow256(k));
            assert(acc * 256 + b < 256 * pow256(k)) by (nonlinear_arith)
                requires
                    acc < pow256(k),
                    b < 256,
            ;
            lemma_pow256_monotone(k + 1, 16);
        }
        acc = acc * 256 + b as u128;
    }
    acc
}

/// Writes the low `count` bytes of `n` from `start`, least significant first.
fn write_le(bytes: &mut [u8; 32], start: usize, count: usize, n: u128)
    requires
        count <= 16,
        start + count <= 32,
    ensures
        forall|j: int|
            0 <= j < 32 ==> #[trigger] final(bytes)@[j] == if start <= j < start + count {
                le_byte(n as nat, (j - start) as nat)
            } else {
                old(bytes)@[j]
            },
{
    let mut cur: u128 = n;
    let mut i: usize = 0;
    assert(pow256(0) == 1);
    while i < count
        invariant
            0 <= i <= count <= 16,
            start + count <= 32,
            cur == n as nat / pow256(i as nat),
            forall|j: int|
                0 <= j < 32 ==> #[trigger] bytes@[j] == if start <= j < start + i {
                    le_byte(n as nat, (j - start) as nat)
                } else {
                    old(bytes)@[j]
                },
        decreases count - i,
    {
        bytes[start + i] = (cur % 256) as u8;
        proof {
            lemma_pow256_positive(i as nat);
            vstd::arithmetic::div_mod::lemma_div_denominator(n as int, pow256(i as nat) as int, 256);
            assert(pow256(i as nat + 1) == pow256(i as nat) * 256);
        }
        cur = cur / 256;
        i = i + 1;
    }
}

/// The identity of an entity: the content hash of its name.
#[derive(Clone, Copy, Debug)]
pub struct EntityId(pub [u8; 32]);

impl EntityId {
    /// The identity of the entity named `value`: the hash of the name as a string value.
    pub fn from_name(value: &String) -> (r: EntityId)
        ensures
            r.0@ == hashing::blake3_of(vstd::utf8::encode_utf8(value@)),
    {
        let canonical = hashing::Canonical::Str(value.clone());
        // A string always has an encoding, so the error arm is never taken.
        match hashing::hash(&canonical) {
            Ok(h) => EntityId(h.hash),
            Err(_) => EntityId([0u8; 32]),
        }
    }
}

/// An identifier for values of type `T`: 32 bytes, with nothing of `T` kept at run time.
pub struct Id<T: ?Sized> {
    /// The raw identifier value
    pub value: [u8; 32],
    _marker: core::marker::PhantomData<T>,
}

/// The identifier bytes that a clock reading gives: byte `i` is the reading's low byte plus
/// `i`, wrapping.
pub open spec fn clock_bytes(nanos: u128) -> Seq<u8> {
    Seq::new(32, |i: int| ((nanos % 256 + i) % 256) as u8)
}

/// Declares `std::time::SystemTime`, a clock reading, carried opaquely.
#[verifier::external_type_specification]
#[verifier::external_body]
pub struct ExSystemTime(std::time::SystemTime);

/// Relies on `std::time::SystemTime::now`: the current clock reading.
#[verifier::external_body]
fn clock_now() -> (r: std::time::SystemTime) {
    std::time::SystemTime::now()
}

/// Relies on `std::time::SystemTime::duration_since`: the time since the Unix epoch, `None`
/// when the reading is earlier than it.
#[verifier::external_body]
fn since_epoch(t: &std::time::SystemTime) -> (r: Option<core::time::Duration>) {
    t.duration_since(std::time::UNIX_EPOCH).ok()
}

/// Relies on `core::time::Duration::as_nanos`: the whole duration in nanoseconds.
#[verifier::external_body]
fn duration_nanos(d: &core::time::Duration) -> (r: u128) {
    d.as_nanos()
}

impl<T: ?Sized> Id<T> {
    /// The identifier's bytes.
    pub closed spec fn bytes(&self) -> Seq<u8> {
        self.value@
    }

    /// An identifier with the given bytes.
    pub fn new(value: [u8; 32]) -> (r: Self)
        ensures
            r.bytes() == value@,
    {
        Id { value, _marker: core::marker::PhantomData }
    }

    /// An identifier made from a clock reading.
    pub fn from_clock(nanos: u128) -> (r: Self)
        ensures
            r.bytes() == clock_bytes(nanos),
    {
        let low = nanos % 256;
        let mut value = [0u8; 32];
        let mut i: usize = 0;
        while i < 32
            invariant
                0 <= i <= 32,
                low == nanos % 256,
                forall|j: int| 0 <= j < i ==> value@[j] == clock_bytes(nanos)[j],
            decreases 32 - i,
        {
            value[i] = ((low + i as u128) % 256) as u8;
            i = i + 1;
        }
        assert(value@ =~= clock_bytes(nanos));
        Self::new(value)
    }

    /// An identifier made from the current time (a reading before the Unix epoch counts as 0).
    pub fn random() -> (r: Self)
        ensures
            exists|nanos: u128| r.bytes() == clock_bytes(nanos),
    {
        let nanos = match since_epoch(&clock_now()) {
            Some(d) => duration_nanos(&d),
            None => 0,
        };
        Self::from_clock(nanos)
    }

    /// The first 8 bytes, least significant first.
    pub fn to_u64(&self) -> (r: u64)
        ensures
            r == le_value(self.bytes().subrange(0, 8)),
    {
        let r = read_le(self.value.as_slice(), 0, 8);
        proof {
            lemma_le_value_bound(self.value@.subrange(0, 8));
            lemma_pow256_16();
        }
        r as u64
    }

    /// An identifier whose first 8 bytes are `value`, least significant first, and the rest zero.
    pub fn from_u64(value: u64) -> (r: Self)
        ensures
            forall|j: int| 0 <= j < 32 ==> #[trigger] r.bytes()[j] == if j < 8 {
                le_byte(value as nat, j as nat)
            } else {
                0u8
            },
    {
        let mut bytes = [0u8; 32];
        write_le(&mut bytes, 0, 8, value as u128);
        Self::new(bytes)
    }

    /// The 32 bytes as two numbers, each least significant byte first: bytes 16 to 31 are the
    /// first (high), bytes 0 to 15 the second (low).
    pub fn to_u128_pair(&self) -> (r: (u128, u128))
        ensures
            r.0 == le_value(self.bytes().subrange(16, 32)),
            r.1 == le_value(self.bytes().subrange(0, 16)),
    {
        let low = read_le(self.value.as_slice(), 0, 16);
        let high = read_le(self.value.as_slice(), 16, 16);
        (high, low)
    }

    /// An identifier from two numbers: `low` fills bytes 0 to 15 and `high` bytes 16 to 31,
    /// each least significant byte first.
    pub fn from_u128_pair(high: u128, low: u128) -> (r: Self)
        ensures
            forall|j: int| 0 <= j < 32 ==> #[trigger] r.bytes()[j] == if j < 16 {
                le_byte(low as nat, j as nat)
            } else {
                le_byte(high as nat, (j - 16) as nat)
            },
    {
        let mut bytes = [0u8; 32];
        write_le(&mut bytes, 0, 16, low);
        write_le(&mut bytes, 16, 16, high);
        Self::new(bytes)
    }
}

/// The value of two byte strings, one after the other.
pub proof fn lemma_le_value_concat(a: Seq<u8>, b: Seq<u8>)
    ensures
        le_value(a + b) == le_value(a) + pow256(a.len()) * le_value(b),
    decreases a.len(),
{
    if a.len() > 0 {
        assert((a + b).drop_first() =~= a.drop_first() + b);
        lemma_le_value_concat(a.drop_first(), b);
        let p = pow256(a.drop_first().len());
        let x = le_value(a.drop_first());
        let y = le_value(b);
        assert(256 * (x + p * y) == 256 * x + (256 * p) * y) by (nonlinear_arith);
        assert((a + b)[0] == a[0]);
        assert(pow256(a.len()) == 256 * p);
        assert(le_value(a + b) == a[0] as nat + 256 * le_value((a + b).drop_first()));
        assert(le_value(a) == a[0] as nat + 256 * x);
    } else {
        assert(a + b =~= b);
        assert(pow256(0) == 1);
        assert(le_value(a) == 0);
    }
}

pub proof fn lemma_le_value_bound(s: Seq<u8>)
    ensures
        le_value(s) < pow256(s.len()),
    decreases s.len(),
{
    if s.len() > 0 {
        lemma_le_value_bound(s.drop_first());
        let rest = le_value(s.drop_first());
        let p = pow256(s.drop_first().len());
        assert(s[0] as nat + 256 * rest < 256 * p) by (nonlinear_arith)
            requires
                rest < p,
                s[0] < 256,
        ;
    }
}

impl<T: ?Sized> PartialEq for Id<T> {
    fn eq(&self, other: &Self) -> (r: bool)
        ensures
            r == (self.bytes() == other.bytes()),
    {
        let mut i: usize = 0;
        while i < 32
            invariant
                0 <= i <= 32,
                forall|j: int| 0 <= j < i ==> self.value@[j] == other.value@[j],
            decreases 32 - i,
        {
            if self.value[i] != other.value[i] {
                return false;
            }
            i = i + 1;
        }
        assert(self.value@ =~= other.value@);
        true
    }
}

impl<T: ?Sized> vstd::std_specs::cmp::PartialEqSpecImpl for Id<T> {
    open spec fn obeys_eq_spec() -> bool {
        true
    }

    open spec fn eq_spec(&self, other: &Self) -> bool {
        self.bytes() == other.bytes()
    }
}

impl<T: ?Sized> Eq for Id<T> {

}

impl<T: ?Sized> Clone for Id<T> {
    fn clone(&self) -> (r: Self)
        ensures
            r.bytes() == self.bytes(),
    {
        Id { value: self.value, _marker: core::marker::PhantomData }
    }
}

impl<T: ?Sized> Copy for Id<T> {

}

/// A kind of entity, with the identifier that all entities of the kind share.
pub trait Entity {
    fn entity_id() -> Id<Self> where Self: Sized;
}

/// A kind of component, named by a static string.
pub trait Component: Send + Sync + 'static {
    fn component_id() -> &'static str;
}

} // verus!

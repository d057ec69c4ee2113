use vstd::prelude::*;

use crate::content_hash::ContentHash;

verus! {

/// Why a value has no canonical encoding.
#[derive(Clone, Debug, PartialEq, Eq)]
pub enum EncodeError {
    /// A sequence or map did not state its length up front.
    UndefinedSequenceLength,
    /// A length does not fit the portable 128-bit length field.
    SequenceLengthTooLarge,
    /// A value asked to be written through a text formatter, which has no canonical form.
    CannotCollectStr,
    /// A value reported its own failure while being decomposed.
    CustomError(String),
}

/// A structured value, decomposed into the shapes that the canonical encoding knows.
///
/// Names of types, fields and variants are not part of it: only the shape (lengths,
/// variant indices) and the leaf values are.
#[derive(Debug)]
pub enum Canonical {
    Bool(bool),
    I8(i8),
    I16(i16),
    I32(i32),
    I64(i64),
    U8(u8),
    U16(u16),
    U32(u32),
    U64(u64),
    /// A 32-bit float, by its IEEE 754 bit pattern.
    F32(u32),
    /// A 64-bit float, by its IEEE 754 bit pattern.
    F64(u64),
    Char(char),
    Str(String),
    Bytes(Vec<u8>),
    /// An optional value that is absent.
    Absent,
    /// An optional value that is present.
    Present(Box<Canonical>),
    /// The unit value or a unit struct: nothing is encoded.
    Unit,
    /// A variant without fields, by its index.
    UnitVariant(u32),
    /// A variant with one unnamed field, by its index.
    NewtypeVariant(u32, Box<Canonical>),
    /// A sequence, tuple or struct: its length, if known up front, and its elements in order.
    Sequence(Option<usize>, Vec<Canonical>),
    /// A map: its length, if known up front, and its entries in the order the map gives them.
    Entries(Option<usize>, Vec<(Canonical, Canonical)>),
    /// A tuple or struct variant: its index, its length and its fields in order.
    FieldsVariant(u32, usize, Vec<Canonical>),
}

/// `n` written big-endian in `width` bytes (only its low `width` bytes are kept).
pub open spec fn be_bytes(n: nat, width: nat) -> Seq<u8>
    decreases width,
{
    if width == 0 {
        Seq::empty()
    } else {
        be_bytes(n / 256, (width - 1) as nat).push((n % 256) as u8)
    }
}

/// The two's complement reading of `x` as an unsigned number below `modulus`.
pub open spec fn unsigned_of(x: int, modulus: int) -> nat {
    if x >= 0 {
        x as nat
    } else {
        (x + modulus) as nat
    }
}

/// The canonical encoding of a value, or the first reason met, left to right, why it has none.
pub open spec fn encoding(v: Canonical) -> Result<Seq<u8>, EncodeError>
    decreases v,
{
    match v {
        Canonical::Bool(b) => Ok(seq![if b { 1u8 } else { 0u8 }]),
        Canonical::I8(x) => Ok(be_bytes(unsigned_of(x as int, 0x100), 1)),
        Canonical::I16(x) => Ok(be_bytes(unsigned_of(x as int, 0x1_0000), 2)),
        Canonical::I32(x) => Ok(be_bytes(unsigned_of(x as int, 0x1_0000_0000), 4)),
        Canonical::I64(x) => Ok(be_bytes(unsigned_of(x as int, 0x1_0000_0000_0000_0000), 8)),
        Canonical::U8(x) => Ok(be_bytes(x as nat, 1)),
        Canonical::U16(x) => Ok(be_bytes(x as nat, 2)),
        Canonical::U32(x) => Ok(be_bytes(x as nat, 4)),
        Canonical::U64(x) => Ok(be_bytes(x as nat, 8)),
        Canonical::F32(bits) => Ok(be_bytes(bits as nat, 4)),
        Canonical::F64(bits) => Ok(be_bytes(bits as nat, 8)),
        Canonical::Char(c) => Ok(be_bytes(c as nat, 8)),
        Canonical::Str(s) => Ok(vstd::utf8::encode_utf8(s@)),
        Canonical::Bytes(b) => Ok(b@),
        Canonical::Absent => Ok(seq![0u8]),
        Canonical::Present(inner) => match encoding(*inner) {
            Ok(b) => Ok(seq![1u8] + b),
            Err(e) => Err(e),
        },
        Canonical::Unit => Ok(Seq::empty()),
        Canonical::UnitVariant(index) => Ok(be_bytes(index as nat, 4)),
        Canonical::NewtypeVariant(index, inner) => match encoding(*inner) {
            Ok(b) => Ok(be_bytes(index as nat, 4) + b),
            Err(e) => Err(e),
        },
        Canonical::Sequence(len, items) => match len {
            None => Err(EncodeError::UndefinedSequenceLength),
            Some(n) => match items_encoding(items@) {
                Ok(b) => Ok(be_bytes(n as nat, 16) + b),
                Err(e) => Err(e),
            },
        },
        Canonical::Entries(len, entries) => match len {
            None => Err(EncodeError::UndefinedSequenceLength),
            Some(n) => match entries_encoding(entries@) {
                Ok(b) => Ok(be_bytes(n as nat, 16) + b),
                Err(e) => Err(e),
            },
        },
        Canonical::FieldsVariant(index, n, items) => match items_encoding(items@) {
            Ok(b) => Ok(be_bytes(index as nat, 4) + be_bytes(n as nat, 16) + b),
            Err(e) => Err(e),
        },
    }
}

/// The encodings of a list of values, one after the other.
pub open spec fn items_encoding(items: Seq<Canonical>) -> Result<Seq<u8>, EncodeError>
    decreases items,
{
    if items.len() == 0 {
        Ok(Seq::empty())
    } else {
        match items_encoding(items.subrange(0, items.len() - 1)) {
            Err(e) => Err(e),
            Ok(front) => match encoding(items[items.len() - 1]) {
                Err(e) => Err(e),
                Ok(b) => Ok(front + b),
            },
        }
    }
}

/// The encodings of a list of map entries, each key followed by its value.
pub open spec fn entries_encoding(entries: Seq<(Canonical, Canonical)>) -> Result<Seq<u8>, EncodeError>
    decreases entries,
{
    if entries.len() == 0 {
        Ok(Seq::empty())
    } else {
        match entries_encoding(entries.subrange(0, entries.len() - 1)) {
            Err(e) => Err(e),
            Ok(front) => match encoding(entries[entries.len() - 1].0) {
                Err(e) => Err(e),
                Ok(k) => match encoding(entries[entries.len() - 1].1) {
                    Err(e) => Err(e),
                    Ok(b) => Ok(front + k + b),
                },
            },
        }
    }
}

/// Two values with the same shape and the same leaf values, texts and byte strings compared by
/// their content, however each was built.
pub open spec fn same_value(a: Canonical, b: Canonical) -> bool
    decreases a,
{
    match (a, b) {
        (Canonical::Str(s), Canonical::Str(t)) => s@ == t@,
        (Canonical::Bytes(x), Canonical::Bytes(y)) => x@ == y@,
        (Canonical::Present(x), Canonical::Present(y)) => same_value(*x, *y),
        (Canonical::NewtypeVariant(i, x), Canonical::NewtypeVariant(j, y)) => i == j && same_value(
            *x,
            *y,
        ),
        (Canonical::Sequence(n, xs), Canonical::Sequence(m, ys)) => n == m && same_items(xs@, ys@),
        (Canonical::Entries(n, xs), Canonical::Entries(m, ys)) => n == m && same_entries(xs@, ys@),
        (Canonical::FieldsVariant(i, n, xs), Canonical::FieldsVariant(j, m, ys)) => i == j && n == m
            && same_items(xs@, ys@),
        (Canonical::Str(_), _) | (Canonical::Bytes(_), _) | (Canonical::Present(_), _) | (
            Canonical::NewtypeVariant(_, _),
            _,
        ) | (Canonical::Sequence(_, _), _) | (Canonical::Entries(_, _), _) | (
            Canonical::FieldsVariant(_, _, _),
            _,
        ) => false,
        _ => a == b,
    }
}

/// Two lists of values that agree element by element.
pub open spec fn same_items(xs: Seq<Canonical>, ys: Seq<Canonical>) -> bool
    decreases xs,
{
    xs.len() == ys.len() && (xs.len() == 0 || (same_items(
        xs.subrange(0, xs.len() - 1),
        ys.subrange(0, ys.len() - 1),
    ) && same_value(xs[xs.len() - 1], ys[ys.len() - 1])))
}

/// Two lists of map entries that agree entry by entry.
pub open spec fn same_entries(xs: Seq<(Canonical, Canonical)>, ys: Seq<(Canonical, Canonical)>) -> bool
    decreases xs,
{
    xs.len() == ys.len() && (xs.len() == 0 || (same_entries(
        xs.subrange(0, xs.len() - 1),
        ys.subrange(0, ys.len() - 1),
    ) && same_value(xs[xs.len() - 1].0, ys[ys.len() - 1].0) && same_value(
        xs[xs.len() - 1].1,
        ys[ys.len() - 1].1,
    )))
}

/// Values with the same shape and the same leaf values have the same canonical encoding, and
/// so the same content hash, however their parts were built.
pub proof fn law_determinism(a: Canonical, b: Canonical)
    requires
        same_value(a, b),
    ensures
        encoding(a) == encoding(b),
        encoding(a) matches Ok(bytes) ==> blake3_of(bytes) == blake3_of(encoding(b)->Ok_0),
    decreases a,
{
    match (a, b) {
        (Canonical::Present(x), Canonical::Present(y)) => law_determinism(*x, *y),
        (Canonical::NewtypeVariant(_, x), Canonical::NewtypeVariant(_, y)) => law_determinism(*x, *y),
        (Canonical::Sequence(_, xs), Canonical::Sequence(_, ys)) => lemma_same_items(xs@, ys@),
        (Canonical::Entries(_, xs), Canonical::Entries(_, ys)) => lemma_same_entries(xs@, ys@),
        (Canonical::FieldsVariant(_, _, xs), Canonical::FieldsVariant(_, _, ys)) => lemma_same_items(
            xs@,
            ys@,
        ),
        _ => {},
    }
}

proof fn lemma_same_items(xs: Seq<Canonical>, ys: Seq<Canonical>)
    requires
        same_items(xs, ys),
    ensures
        items_encoding(xs) == items_encoding(ys),
    decreases xs,
{
    if xs.len() > 0 {
        lemma_same_items(xs.subrange(0, xs.len() - 1), ys.subrange(0, ys.len() - 1));
        law_determinism(xs[xs.len() - 1], ys[ys.len() - 1]);
    }
}

proof fn lemma_same_entries(xs: Seq<(Canonical, Canonical)>, ys: Seq<(Canonical, Canonical)>)
    requires
        same_entries(xs, ys),
    ensures
        entries_encoding(xs) == entries_encoding(ys),
    decreases xs,
{
    if xs.len() > 0 {
        lemma_same_entries(xs.subrange(0, xs.len() - 1), ys.subrange(0, ys.len() - 1));
        law_determinism(xs[xs.len() - 1].0, ys[ys.len() - 1].0);
        law_determinism(xs[xs.len() - 1].1, ys[ys.len() - 1].1);
    }
}

/// Names the BLAKE3 digest of a byte string (32 bytes).
pub uninterp spec fn blake3_of(bytes: Seq<u8>) -> Seq<u8>;

/// Relies on `blake3::hash`: the BLAKE3 digest of the input, which depends on the bytes alone.
#[verifier::external_body]
fn blake3_digest(bytes: &[u8]) -> (r: [u8; 32])
    ensures
        r@ == blake3_of(bytes@),
{
    *blake3::hash(bytes).as_bytes()
}

/// Converts a length to the portable 128-bit length field.
pub fn try_into_sequence_length(len: usize) -> (r: Result<u128, EncodeError>)
    ensures
        r == Ok::<u128, EncodeError>(len as u128),
{
    Ok(len as u128)
}

/// Appends `n` big-endian in `width` bytes.
fn push_be(out: &mut Vec<u8>, n: u128, width: usize)
    ensures
        final(out)@ == old(out)@ + be_bytes(n as nat, width as nat),
    decreases width,
{
    if width > 0 {
        push_be(out, n / 256, width - 1);
        out.push((n % 256) as u8);
    }
}

/// Appends every byte of `bytes`.
fn push_all(out: &mut Vec<u8>, bytes: &[u8])
    ensures
        final(out)@ == old(out)@ + bytes@,
{
    let mut i: usize = 0;
    while i < bytes.len()
        invariant
            0 <= i <= bytes@.len(),
            out@ == old(out)@ + bytes@.subrange(0, i as int),
        decreases bytes.len() - i,
    {
        out.push(bytes[i]);
        i = i + 1;
        assert(out@ =~= old(out)@ + bytes@.subrange(0, i as int));
    }
    assert(bytes@.subrange(0, i as int) =~= bytes@);
}

/// Appends the length field for `len`.
fn push_length(out: &mut Vec<u8>, len: usize)
    ensures
        final(out)@ == old(out)@ + be_bytes(len as nat, 16),
{
    let field = match try_into_sequence_length(len) {
        Ok(field) => field,
        Err(_) => 0,
    };
    push_be(out, field, 16);
}

/// Appends the canonical encoding of each item in turn.
fn encode_items_into(items: &Vec<Canonical>, out: &mut Vec<u8>) -> (r: Result<(), EncodeError>)
    ensures
        match items_encoding(items@) {
            Ok(b) => r is Ok && final(out)@ == old(out)@ + b,
            Err(e) => r == Err::<(), EncodeError>(e),
        },
    decreases items, 0nat,
{
    let mut i: usize = 0;
    while i < items.len()
        invariant
            0 <= i <= items@.len(),
            items_encoding(items@.subrange(0, i as int)) matches Ok(b) && out@ == old(out)@ + b,
        decreases items.len() - i,
    {
        proof {
            assert(items@.subrange(0, i + 1).subrange(0, i as int) =~= items@.subrange(0, i as int));
            assert(items@.subrange(0, i + 1)[i as int] == items@[i as int]);
        }
        let ghost before = out@;
        match encode_into(&items[i], out) {
            Ok(()) => {},
            Err(e) => {
                proof {
                    lemma_items_prefix_error(items@, i as int + 1);
                }
                return Err(e);
            },
        }
        i = i + 1;
    }
    proof {
        assert(items@.subrange(0, i as int) =~= items@);
    }
    Ok(())
}

/// Appends the canonical encoding of each entry in turn, key before value.
fn encode_entries_into(entries: &Vec<(Canonical, Canonical)>, out: &mut Vec<u8>) -> (r: Result<
    (),
    EncodeError,
>)
    ensures
        match entries_encoding(entries@) {
            Ok(b) => r is Ok && final(out)@ == old(out)@ + b,
            Err(e) => r == Err::<(), EncodeError>(e),
        },
    decreases entries, 0nat,
{
    let mut i: usize = 0;
    while i < entries.len()
        invariant
            0 <= i <= entries@.len(),
            entries_encoding(entries@.subrange(0, i as int)) matches Ok(b) && out@ == old(out)@
                + b,
        decreases entries.len() - i,
    {
        proof {
            assert(entries@.subrange(0, i + 1).subrange(0, i as int) =~= entries@.subrange(
                0,
                i as int,
            ));
            assert(entries@.subrange(0, i + 1)[i as int] == entries@[i as int]);
        }
        match encode_into(&entries[i].0, out) {
            Ok(()) => {},
            Err(e) => {
                proof {
                    lemma_entries_prefix_error(entries@, i as int + 1);
                }
                return Err(e);
            },
        }
        match encode_into(&entries[i].1, out) {
            Ok(()) => {},
            Err(e) => {
                proof {
                    lemma_entries_prefix_error(entries@, i as int + 1);
                }
                return Err(e);
            },
        }
        i = i + 1;
    }
    proof {
        assert(entries@.subrange(0, i as int) =~= entries@);
    }
    Ok(())
}

/// Once a prefix of a list has no encoding, neither has the whole list.
proof fn lemma_items_prefix_error(items: Seq<Canonical>, n: int)
    requires
        0 <= n <= items.len(),
        items_encoding(items.subrange(0, n)) is Err,
    ensures
        items_encoding(items) == items_encoding(items.subrange(0, n)),
    decreases items.len() - n,
{
    if n < items.len() {
        assert(items.subrange(0, n + 1).subrange(0, n) =~= items.subrange(0, n));
        lemma_items_prefix_error(items, n + 1);
    } else {
        assert(items.subrange(0, n) =~= items);
    }
}

/// Once a prefix of a list of entries has no encoding, neither has the whole list.
proof fn lemma_entries_prefix_error(entries: Seq<(Canonical, Canonical)>, n: int)
    requires
        0 <= n <= entries.len(),
        entries_encoding(entries.subrange(0, n)) is Err,
    ensures
        entries_encoding(entries) == entries_encoding(entries.subrange(0, n)),
    decreases entries.len() - n,
{
    if n < entries.len() {
        assert(entries.subrange(0, n + 1).subrange(0, n) =~= entries.subrange(0, n));
        lemma_entries_prefix_error(entries, n + 1);
    } else {
        assert(entries.subrange(0, n) =~= entries);
    }
}

/// Appends the canonical encoding of `v`.
fn encode_into(v: &Canonical, out: &mut Vec<u8>) -> (r: Result<(), EncodeError>)
    ensures
        match encoding(*v) {
            Ok(b) => r is Ok && final(out)@ == old(out)@ + b,
            Err(e) => r == Err::<(), EncodeError>(e),
        },
    decreases v, 1nat,
{
    match v {
        Canonical::Bool(b) => {
            out.push(if *b { 1u8 } else { 0u8 });
        },
        Canonical::I8(x) => {
            let n: u128 = if *x >= 0 { *x as u128 } else { (*x as i128 + 0x100) as u128 };
            push_be(out, n, 1);
        },
        Canonical::I16(x) => {
            let n: u128 = if *x >= 0 { *x as u128 } else { (*x as i128 + 0x1_0000) as u128 };
            push_be(out, n, 2);
        },
        Canonical::I32(x) => {
            let n: u128 = if *x >= 0 { *x as u128 } else { (*x as i128 + 0x1_0000_0000) as u128 };
            push_be(out, n, 4);
        },
        Canonical::I64(x) => {
            let n: u128 = if *x >= 0 {
                *x as u128
            } else {
                (*x as i128 + 0x1_0000_0000_0000_0000) as u128
            };
            push_be(out, n, 8);
        },
        Canonical::U8(x) => push_be(out, *x as u128, 1),
        Canonical::U16(x) => push_be(out, *x as u128, 2),
        Canonical::U32(x) => push_be(out, *x as u128, 4),
        Canonical::U64(x) => push_be(out, *x as u128, 8),
        Canonical::F32(bits) => push_be(out, *bits as u128, 4),
        Canonical::F64(bits) => push_be(out, *bits as u128, 8),
        Canonical::Char(c) => push_be(out, *c as u32 as u128, 8),
        Canonical::Str(s) => push_all(out, s.as_str().as_bytes()),
        Canonical::Bytes(b) => push_all(out, b.as_slice()),
        Canonical::Absent => out.push(0u8),
        Canonical::Present(inner) => {
            out.push(1u8);
            let ghost mid = out@;
            match encode_into(inner, out) {
                Ok(()) => {},
                Err(e) => return Err(e),
            }
            assert(out@ =~= old(out)@ + (seq![1u8] + (out@.subrange(mid.len() as int, out@.len() as int))));
        },
        Canonical::Unit => {},
        Canonical::UnitVariant(index) => push_be(out, *index as u128, 4),
        Canonical::NewtypeVariant(index, inner) => {
            push_be(out, *index as u128, 4);
            match encode_into(inner, out) {
                Ok(()) => {},
                Err(e) => return Err(e),
            }
        },
        Canonical::Sequence(len, items) => {
            let n = match len {
                Some(n) => *n,
                None => return Err(EncodeError::UndefinedSequenceLength),
            };
            push_length(out, n);
            match encode_items_into(items, out) {
                Ok(()) => {},
                Err(e) => return Err(e),
            }
        },
        Canonical::Entries(len, entries) => {
            let n = match len {
                Some(n) => *n,
                None => return Err(EncodeError::UndefinedSequenceLength),
            };
            push_length(out, n);
            match encode_entries_into(entries, out) {
                Ok(()) => {},
                Err(e) => return Err(e),
            }
        },
        Canonical::FieldsVariant(index, n, items) => {
            push_be(out, *index as u128, 4);
            push_length(out, *n);
            match encode_items_into(items, out) {
                Ok(()) => {},
                Err(e) => return Err(e),
            }
        },
    }
    Ok(())
}

/// The canonical encoding of a value: the byte string that its content hash digests.
pub fn encode(value: &Canonical) -> (r: Result<Vec<u8>, EncodeError>)
    ensures
        match encoding(*value) {
            Ok(b) => r matches Ok(bytes) && bytes@ == b,
            Err(e) => r == Err::<Vec<u8>, EncodeError>(e),
        },
{
    let mut out: Vec<u8> = Vec::new();
    match encode_into(value, &mut out) {
        Ok(()) => {
            assert(out@ =~= Seq::<u8>::empty() + out@);
            Ok(out)
        },
        Err(e) => Err(e),
    }
}

/// The content hash of a value: the BLAKE3 digest of its canonical encoding.
pub fn hash(value: &Canonical) -> (r: Result<ContentHash, EncodeError>)
    ensures
        match encoding(*value) {
            Ok(b) => r matches Ok(h) && h.bytes() == blake3_of(b),
            Err(e) => r == Err::<ContentHash, EncodeError>(e),
        },
{
    match encode(value) {
        Ok(bytes) => Ok(ContentHash { hash: blake3_digest(bytes.as_slice()) }),
        Err(e) => Err(e),
    }
}

} // verus!

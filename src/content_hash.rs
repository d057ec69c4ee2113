use vstd::prelude::*;

verus! {

/// The lowercase hexadecimal digit for a value below sixteen.
pub open spec fn hex_digit(d: int) -> char {
    seq!['0', '1', '2', '3', '4', '5', '6', '7', '8', '9', 'a', 'b', 'c', 'd', 'e', 'f'][d]
}

/// Two lowercase hexadecimal digits per byte, most significant digit first.
pub open spec fn hex_of(bytes: Seq<u8>) -> Seq<char>
    decreases bytes.len(),
{
    if bytes.len() == 0 {
        Seq::empty()
    } else {
        hex_of(bytes.drop_last()) + seq![
            hex_digit(bytes.last() as int / 16),
            hex_digit(bytes.last() as int % 16),
        ]
    }
}

/// Whether a character is a hexadecimal digit, in either case.
pub open spec fn is_hex_char(c: char) -> bool {
    ('0' <= c && c <= '9') || ('a' <= c && c <= 'f') || ('A' <= c && c <= 'F')
}

/// The value of a hexadecimal digit.
pub open spec fn hex_char_value(c: char) -> int {
    if '0' <= c && c <= '9' {
        c as int - '0' as int
    } else if 'a' <= c && c <= 'f' {
        c as int - 'a' as int + 10
    } else {
        c as int - 'A' as int + 10
    }
}

/// The bytes that 64 hexadecimal digits spell, two digits per byte.
pub open spec fn bytes_of_hex(s: Seq<char>) -> Seq<u8> {
    Seq::new(32, |i: int| (16 * hex_char_value(s[2 * i]) + hex_char_value(s[2 * i + 1])) as u8)
}

/// Whether a text is the hexadecimal form of a content hash.
pub open spec fn is_hash_text(s: Seq<char>) -> bool {
    s.len() == 64 && forall|i: int| 0 <= i < 64 ==> #[trigger] is_hex_char(s[i])
}

proof fn lemma_hex_digit(d: int)
    requires
        0 <= d < 16,
    ensures
        is_hex_char(hex_digit(d)),
        hex_char_value(hex_digit(d)) == d,
{
    if d == 0 {
        assert(hex_digit(d) == '0');
    } else if d == 1 {
        assert(hex_digit(d) == '1');
    } else if d == 2 {
        assert(hex_digit(d) == '2');
    } else if d == 3 {
        assert(hex_digit(d) == '3');
    } else if d == 4 {
        assert(hex_digit(d) == '4');
    } else if d == 5 {
        assert(hex_digit(d) == '5');
    } else if d == 6 {
        assert(hex_digit(d) == '6');
    } else if d == 7 {
        assert(hex_digit(d) == '7');
    } else if d == 8 {
        assert(hex_digit(d) == '8');
    } else if d == 9 {
        assert(hex_digit(d) == '9');
    } else if d == 10 {
        assert(hex_digit(d) == 'a');
    } else if d == 11 {
        assert(hex_digit(d) == 'b');
    } else if d == 12 {
        assert(hex_digit(d) == 'c');
    } else if d == 13 {
        assert(hex_digit(d) == 'd');
    } else if d == 14 {
        assert(hex_digit(d) == 'e');
    } else if d == 15 {
        assert(hex_digit(d) == 'f');
    }
}

proof fn lemma_hex_of_index(b: Seq<u8>)
    ensures
        hex_of(b).len() == 2 * b.len(),
        forall|i: int|
            0 <= i < b.len() ==> hex_of(b)[2 * i] == hex_digit(b[i] as int / 16) && hex_of(b)[2 * i
                + 1] == hex_digit(b[i] as int % 16),
    decreases b.len(),
{
    if b.len() > 0 {
        lemma_hex_of_index(b.drop_last());
        assert forall|i: int| 0 <= i < b.len() implies hex_of(b)[2 * i] == hex_digit(b[i] as int / 16)
            && hex_of(b)[2 * i + 1] == hex_digit(b[i] as int % 16) by {
            if i < b.len() - 1 {
                assert(b.drop_last()[i] == b[i]);
            }
        }
    }
}

/// Reading back the hexadecimal form of a content hash gives the hash.
pub proof fn law_hex_round_trip(b: Seq<u8>)
    requires
        b.len() == 32,
    ensures
        is_hash_text(hex_of(b)),
        bytes_of_hex(hex_of(b)) == b,
{
    lemma_hex_of_index(b);
    let t = hex_of(b);
    assert forall|j: int| 0 <= j < 64 implies #[trigger] is_hex_char(t[j]) by {
        let i = j / 2;
        lemma_hex_digit(b[i] as int / 16);
        lemma_hex_digit(b[i] as int % 16);
        if j % 2 == 0 {
            assert(j == 2 * i);
        } else {
            assert(j == 2 * i + 1);
        }
    }
    assert forall|i: int| 0 <= i < 32 implies #[trigger] bytes_of_hex(t)[i] == b[i] by {
        lemma_hex_digit(b[i] as int / 16);
        lemma_hex_digit(b[i] as int % 16);
    }
    assert(bytes_of_hex(t) =~= b);
}

/// Why a text is not the hexadecimal form of a content hash.
#[derive(Clone, Copy, Debug, PartialEq, Eq, Structural)]
pub enum ParseHashError {
    /// The text does not hold exactly 64 characters.
    WrongLength,
    /// The character at this position is not a hexadecimal digit.
    InvalidDigit(usize),
}

/// A 32-byte BLAKE3 hash of the canonical encoding of some value.
#[derive(Clone, Copy, Debug, Eq, Hash)]
pub struct ContentHash {
    pub hash: [u8; 32],
}

impl PartialEq for ContentHash {
    fn eq(&self, other: &ContentHash) -> (r: bool)
        ensures
            r == (self.bytes() == other.bytes()),
    {
        let mut i: usize = 0;
        while i < 32
            invariant
                0 <= i <= 32,
                forall|j: int| 0 <= j < i ==> self.hash@[j] == other.hash@[j],
            decreases 32 - i,
        {
            if self.hash[i] != other.hash[i] {
                return false;
            }
            i = i + 1;
        }
        proof {
            assert(self.hash@ =~= other.hash@);
        }
        true
    }
}

impl vstd::std_specs::cmp::PartialEqSpecImpl for ContentHash {
    open spec fn obeys_eq_spec() -> bool {
        true
    }

    open spec fn eq_spec(&self, other: &ContentHash) -> bool {
        self.bytes() == other.bytes()
    }
}

impl ContentHash {
    /// The hash bytes.
    pub open spec fn bytes(self) -> Seq<u8> {
        self.hash@
    }

    /// The 64-character lowercase hexadecimal form of the hash.
    pub fn hex(&self) -> (r: String)
        ensures
            r@ == hex_of(self.bytes()),
    {
        let digits = "0123456789abcdef";
        proof {
            reveal_strlit("0123456789abcdef");
            assert(digits@ =~= Seq::new(16, |d: int| hex_digit(d)));
        }
        let mut out = String::new();
        let mut i: usize = 0;
        while i < 32
            invariant
                0 <= i <= 32,
                digits@ =~= Seq::new(16, |d: int| hex_digit(d)),
                out@ == hex_of(self.hash@.subrange(0, i as int)),
            decreases 32 - i,
        {
            let b = self.hash[i];
            let hi = (b / 16) as usize;
            let lo = (b % 16) as usize;
            out.append(digits.substring_char(hi, hi + 1));
            out.append(digits.substring_char(lo, lo + 1));
            proof {
                let s = self.hash@.subrange(0, i + 1);
                assert(s.drop_last() =~= self.hash@.subrange(0, i as int));
            }
            i = i + 1;
        }
        proof {
            assert(self.hash@.subrange(0, 32) =~= self.hash@);
        }
        out
    }
}

/// Reads a hexadecimal digit; `None` for any other character.
fn hex_char_to_value(c: char) -> (r: Option<u8>)
    ensures
        r is Some <==> is_hex_char(c),
        r matches Some(v) ==> v as int == hex_char_value(c) && v < 16,
{
    if '0' <= c && c <= '9' {
        Some(((c as u32) - ('0' as u32)) as u8)
    } else if 'a' <= c && c <= 'f' {
        Some(((c as u32) - ('a' as u32) + 10) as u8)
    } else if 'A' <= c && c <= 'F' {
        Some(((c as u32) - ('A' as u32) + 10) as u8)
    } else {
        None
    }
}

/// Reads a content hash from its 64 hexadecimal digits (either case).
pub fn parse_hash(s: &str) -> (r: Result<ContentHash, ParseHashError>)
    ensures
        s@.len() != 64 ==> r == Err::<ContentHash, ParseHashError>(ParseHashError::WrongLength),
        is_hash_text(s@) ==> (r matches Ok(h) && h.bytes() == bytes_of_hex(s@)),
        s@.len() == 64 && !is_hash_text(s@) ==> (r matches Err(ParseHashError::InvalidDigit(i))
            && i < 64 && !is_hex_char(s@[i as int]) && forall|j: int|
            0 <= j < i ==> #[trigger] is_hex_char(s@[j])),
{
    let n = s.unicode_len();
    if n != 64 {
        return Err(ParseHashError::WrongLength);
    }
    let mut hash = [0u8; 32];
    let mut i: usize = 0;
    while i < 32
        invariant
            0 <= i <= 32,
            s@.len() == 64,
            forall|j: int| 0 <= j < 2 * i ==> #[trigger] is_hex_char(s@[j]),
            forall|k: int|
                0 <= k < i ==> hash@[k] == (16 * hex_char_value(s@[2 * k]) + hex_char_value(
                    s@[2 * k + 1],
                )) as u8,
        decreases 32 - i,
    {
        let hi = match hex_char_to_value(s.get_char(2 * i)) {
            Some(v) => v,
            None => {
                return Err(ParseHashError::InvalidDigit(2 * i));
            },
        };
        let lo = match hex_char_to_value(s.get_char(2 * i + 1)) {
            Some(v) => v,
            None => {
                return Err(ParseHashError::InvalidDigit(2 * i + 1));
            },
        };
        hash[i] = 16 * hi + lo;
        i = i + 1;
    }
    let r = ContentHash { hash };
    assert(r.bytes() =~= bytes_of_hex(s@));
    Ok(r)
}

} // verus!

//! Parsing of `0x`-prefixed, fixed-length hexadecimal address strings into
//! 20-byte address values.

use vstd::prelude::*;
use crate::idents::is_ascii_digit;

verus! {

/// Why parsing an address string failed. The two causes are kept distinct
/// for diagnostics.
#[derive(Debug, Clone, Copy, PartialEq, Eq, Structural)]
pub enum ParseAddressError {
    /// The string does not start with `0x`.
    MissingPrefix,
    /// The part after the prefix is not exactly 40 hexadecimal digits.
    InvalidEncoding,
}

/// A fixed 20-byte address, produced only by successful parsing or from an
/// explicit byte array.
#[derive(Debug, Clone, PartialEq, Eq)]
pub struct Address {
    bytes: Vec<u8>,
}

impl View for Address {
    type V = Seq<u8>;

    closed spec fn view(&self) -> Seq<u8> {
        self.bytes@
    }
}

impl Address {
    /// An address always holds exactly 20 bytes.
    pub open spec fn well_formed(&self) -> bool {
        self@.len() == 20
    }

    pub fn from_bytes(b: [u8; 20]) -> (r: Address)
        ensures
            r@ == b@,
            r.well_formed(),
    {
        let mut bytes: Vec<u8> = Vec::new();
        let mut i: usize = 0;
        while i < 20
            invariant
                i <= 20,
                bytes@ =~= b@.take(i as int),
            decreases 20 - i,
        {
            bytes.push(b[i]);
            i = i + 1;
        }
        proof {
            assert(bytes@ =~= b@);
        }
        Address { bytes }
    }

    pub fn as_bytes(&self) -> (r: &Vec<u8>)
        ensures
            r@ == self@,
    {
        &self.bytes
    }
}

pub open spec fn is_hex_digit(c: char) -> bool {
    is_ascii_digit(c) || (97 <= c as u32 && c as u32 <= 102) || (65 <= c as u32 && c as u32
        <= 70)
}

/// The numeric value of a hexadecimal digit character.
pub open spec fn hex_val(c: char) -> nat {
    if is_ascii_digit(c) {
        (c as u32 - 48) as nat
    } else if 97 <= c as u32 && c as u32 <= 102 {
        (c as u32 - 87) as nat
    } else if 65 <= c as u32 && c as u32 <= 70 {
        (c as u32 - 55) as nat
    } else {
        0
    }
}

pub open spec fn has_hex_prefix(s: Seq<char>) -> bool {
    s.len() >= 2 && s[0] == '0' && s[1] == 'x'
}

/// A run of hexadecimal digits of even length, read as bytes: two digits
/// per byte, most significant first.
pub open spec fn hex_bytes(s: Seq<char>) -> Seq<u8> {
    Seq::new(s.len() / 2, |i: int| (16 * hex_val(s[2 * i]) + hex_val(s[2 * i + 1])) as u8)
}

/// A valid address string: the `0x` prefix followed by exactly 40
/// hexadecimal digits.
pub open spec fn valid_address_str(s: Seq<char>) -> bool {
    &&& has_hex_prefix(s)
    &&& s.len() == 42
    &&& forall|i: int| 2 <= i < 42 ==> is_hex_digit(#[trigger] s[i])
}

fn hex_digit_value(c: char) -> (r: Option<u8>)
    ensures
        match r {
            Some(v) => is_hex_digit(c) && v == hex_val(c) && v < 16,
            None => !is_hex_digit(c),
        },
{
    let v = c as u32;
    if 48 <= v && v <= 57 {
        Some((v - 48) as u8)
    } else if 97 <= v && v <= 102 {
        Some((v - 87) as u8)
    } else if 65 <= v && v <= 70 {
        Some((v - 55) as u8)
    } else {
        None
    }
}

/// Parses a `0x`-prefixed, exactly-40-hex-digit string into its 20-byte
/// address. A missing prefix and a malformed remainder fail distinctly.
pub fn parse_address(address_str: &str) -> (r: Result<Address, ParseAddressError>)
    ensures
        match r {
            Ok(a) => {
                &&& valid_address_str(address_str@)
                &&& a.well_formed()
                &&& a@ == hex_bytes(address_str@.skip(2))
            },
            Err(e) => {
                &&& !valid_address_str(address_str@)
                &&& (e == ParseAddressError::MissingPrefix <==> !has_hex_prefix(address_str@))
            },
        },
{
    let len = address_str.unicode_len();
    if len < 2 || address_str.get_char(0) != '0' || address_str.get_char(1) != 'x' {
        return Err(ParseAddressError::MissingPrefix);
    }
    if len != 42 {
        return Err(ParseAddressError::InvalidEncoding);
    }
    let mut bytes: Vec<u8> = Vec::new();
    let mut i: usize = 0;
    while i < 20
        invariant
            i <= 20,
            len == address_str@.len(),
            len == 42,
            has_hex_prefix(address_str@),
            bytes@.len() == i,
            forall|k: int| 2 <= k < 2 + 2 * i ==> is_hex_digit(#[trigger] address_str@[k]),
            forall|j: int|
                0 <= j < i ==> #[trigger] bytes@[j] == (16 * hex_val(address_str@[2 * j + 2])
                    + hex_val(address_str@[2 * j + 3])) as u8,
        decreases 20 - i,
    {
        let hi = address_str.get_char(2 + 2 * i);
        let lo = address_str.get_char(3 + 2 * i);
        let hv = hex_digit_value(hi);
        let lv = hex_digit_value(lo);
        match (hv, lv) {
            (Some(h), Some(l)) => {
                bytes.push(16 * h + l);
            },
            _ => {
                proof {
                    if hv is None {
                        assert(!is_hex_digit(address_str@[2 + 2 * (i as int)]));
                    } else {
                        assert(!is_hex_digit(address_str@[3 + 2 * (i as int)]));
                    }
                }
                return Err(ParseAddressError::InvalidEncoding);
            },
        }
        i = i + 1;
    }
    let a = Address { bytes };
    proof {
        assert forall|j: int| 0 <= j < 20 implies a@[j] == hex_bytes(address_str@.skip(2))[j] by {
            assert(address_str@.skip(2)[2 * j] == address_str@[2 * j + 2]);
            assert(address_str@.skip(2)[2 * j + 1] == address_str@[2 * j + 3]);
        }
        assert(a@ =~= hex_bytes(address_str@.skip(2)));
    }
    Ok(a)
}

} // verus!

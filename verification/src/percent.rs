//! Minimal percent-decoding for `file://` URLs.
//!
//! A `%` followed by two hexadecimal digits decodes to the byte they
//! name; everything else passes through byte by byte. Each byte
//! becomes one character of the result, so the decoder is total on
//! any input and never fails on malformed escapes — they simply pass
//! through unchanged.

use vstd::prelude::*;
use vstd::string::StrSliceExecFns;
use vstd::string::StringSliceAdditionalSpecFns;

use crate::text::string_from_chars;

verus! {

/// The byte `'%'`.
pub const PERCENT: u8 = 37;

/// The byte `'0'`.
pub const DIGIT_0: u8 = 48;

/// The byte `'9'`.
pub const DIGIT_9: u8 = 57;

/// The byte `'a'`.
pub const LOWER_A: u8 = 97;

/// The byte `'f'`.
pub const LOWER_F: u8 = 102;

/// The byte `'A'`.
pub const UPPER_A: u8 = 65;

/// The byte `'F'`.
pub const UPPER_F: u8 = 70;

/// The value of one hexadecimal digit byte, if it is one.
pub open spec fn hex_spec(b: u8) -> Option<u8> {
    if DIGIT_0 <= b && b <= DIGIT_9 {
        Some((b - DIGIT_0) as u8)
    } else if LOWER_A <= b && b <= LOWER_F {
        Some((b - LOWER_A + 10) as u8)
    } else if UPPER_A <= b && b <= UPPER_F {
        Some((b - UPPER_A + 10) as u8)
    } else {
        None
    }
}

/// The decoded form of `bytes`: each valid `%xy` escape becomes the
/// byte it names, every other byte stands as itself, and each byte
/// maps to the character of its value. An escape is only recognised
/// when both digit positions exist and are hexadecimal.
pub open spec fn percent_decode_spec(bytes: Seq<u8>) -> Seq<char>
    decreases bytes.len(),
{
    if bytes.len() == 0 {
        Seq::empty()
    } else if bytes[0] == PERCENT && bytes.len() >= 3 && hex_spec(bytes[1]) is Some && hex_spec(
        bytes[2],
    ) is Some {
        seq![((hex_spec(bytes[1])->0 * 16 + hex_spec(bytes[2])->0) as u8) as char]
            + percent_decode_spec(bytes.skip(3))
    } else {
        seq![bytes[0] as char] + percent_decode_spec(bytes.drop_first())
    }
}

/// The value of one hexadecimal digit byte.
pub fn hex(b: u8) -> (r: Option<u8>)
    ensures
        r == hex_spec(b),
{
    if b >= DIGIT_0 && b <= DIGIT_9 {
        Some(b - DIGIT_0)
    } else if b >= LOWER_A && b <= LOWER_F {
        Some(b - LOWER_A + 10)
    } else if b >= UPPER_A && b <= UPPER_F {
        Some(b - UPPER_A + 10)
    } else {
        None
    }
}

/// Percent-decodes `s`, byte by byte.
pub fn percent_decode(s: &str) -> (r: String)
    ensures
        r@ == percent_decode_spec(s.spec_bytes()),
{
    let bytes = s.as_bytes_vec();
    let n = bytes.len();
    let mut out: Vec<char> = Vec::new();
    let mut i: usize = 0;
    proof {
        assert(bytes@.skip(0) =~= bytes@);
        assert(out@ + percent_decode_spec(bytes@) =~= percent_decode_spec(bytes@));
    }
    while i < n
        invariant
            n == bytes@.len(),
            bytes@ == s.spec_bytes(),
            i <= n,
            out@ + percent_decode_spec(bytes@.skip(i as int)) == percent_decode_spec(bytes@),
        decreases n - i,
    {
        let ghost out0 = out@;
        let ghost rest = bytes@.skip(i as int);
        proof {
            assert(rest.len() > 0);
            assert(rest[0] == bytes@[i as int]);
            assert(rest.drop_first() =~= bytes@.skip(i as int + 1));
        }
        let b = bytes[i];
        let mut plain = true;
        if b == PERCENT && n - i > 2 {
            proof {
                assert(rest.len() >= 3);
                assert(rest[1] == bytes@[i as int + 1]);
                assert(rest[2] == bytes@[i as int + 2]);
            }
            let h = hex(bytes[i + 1]);
            let l = hex(bytes[i + 2]);
            match (h, l) {
                (Some(hv), Some(lv)) => {
                    proof {
                        assert(hv <= 15 && lv <= 15);
                    }
                    out.push((hv * 16 + lv) as char);
                    proof {
                        assert(rest.skip(3) =~= bytes@.skip(i as int + 3));
                        assert(out@ =~= out0 + seq![((hex_spec(rest[1])->0 * 16 + hex_spec(
                            rest[2],
                        )->0) as u8) as char]);
                        assert(out@ + percent_decode_spec(bytes@.skip(i as int + 3)) =~= out0
                            + percent_decode_spec(rest));
                    }
                    i = i + 3;
                    plain = false;
                },
                _ => {},
            }
        }
        if plain {
            out.push(b as char);
            proof {
                assert(out@ =~= out0 + seq![rest[0] as char]);
                assert(out@ + percent_decode_spec(bytes@.skip(i as int + 1)) =~= out0
                    + percent_decode_spec(rest));
            }
            i = i + 1;
        }
    }
    proof {
        assert(bytes@.skip(n as int) =~= Seq::<u8>::empty());
        assert(out@ =~= percent_decode_spec(bytes@));
    }
    string_from_chars(&out)
}

} // verus!

//! Minimal JSON framing for the wire protocol: string escaping and the
//! byte-exact shape of the frames the server sends. Only building is
//! needed; the server never reads JSON.

use vstd::prelude::*;

verus! {

use crate::ip::{hex_digit, hex_digit_exec};
use vstd::string::{StringSliceAdditionalSpecFns, StrSliceExecFns};

/// How one byte of a string value is written: the two-character escapes
/// of the common control characters, `\u00XX` for the rest, quote and
/// backslash escaped, everything else verbatim.
pub open spec fn escape_byte(b: u8) -> Seq<u8> {
    if b == 34 {
        seq![92u8, 34u8]
    } else if b == 92 {
        seq![92u8, 92u8]
    } else if b == 8 {
        seq![92u8, 98u8]
    } else if b == 9 {
        seq![92u8, 116u8]
    } else if b == 10 {
        seq![92u8, 110u8]
    } else if b == 12 {
        seq![92u8, 102u8]
    } else if b == 13 {
        seq![92u8, 114u8]
    } else if b < 32 {
        seq![92u8, 117u8, 48u8, 48u8, hex_digit((b >> 4) as u8), hex_digit((b & 15) as u8)]
    } else {
        seq![b]
    }
}

/// A whole string value, escaped.
pub open spec fn json_escaped(s: Seq<u8>) -> Seq<u8>
    decreases s.len(),
{
    if s.len() == 0 {
        Seq::empty()
    } else {
        json_escaped(s.drop_last()) + escape_byte(s.last())
    }
}

/// A JSON string: the escaped bytes between quotes.
pub open spec fn json_string(s: Seq<u8>) -> Seq<u8> {
    seq![34u8] + json_escaped(s) + seq![34u8]
}

/// Append a JSON string for the given bytes.
pub fn append_json_string(out: &mut Vec<u8>, s: &Vec<u8>)
    ensures
        final(out)@ == old(out)@ + json_string(s@),
{
    let ghost base = out@;
    out.push(34);
    let mut i: usize = 0;
    proof {
        assert(out@ =~= base + seq![34u8] + json_escaped(s@.take(0)));
    }
    while i < s.len()
        invariant
            i <= s@.len(),
            out@ == base + seq![34u8] + json_escaped(s@.take(i as int)),
        decreases s@.len() - i,
    {
        proof {
            assert(s@.take(i + 1).drop_last() =~= s@.take(i as int));
            assert(s@.take(i + 1).last() == s@[i as int]);
        }
        let b = s[i];
        if b == 34 {
            out.push(92);
            out.push(34);
        } else if b == 92 {
            out.push(92);
            out.push(92);
        } else if b == 8 {
            out.push(92);
            out.push(98);
        } else if b == 9 {
            out.push(92);
            out.push(116);
        } else if b == 10 {
            out.push(92);
            out.push(110);
        } else if b == 12 {
            out.push(92);
            out.push(102);
        } else if b == 13 {
            out.push(92);
            out.push(114);
        } else if b < 32 {
            proof {
                assert((b >> 4) < 16 && (b & 15) < 16) by (bit_vector);
            }
            out.push(92);
            out.push(117);
            out.push(48);
            out.push(48);
            out.push(hex_digit_exec(b >> 4));
            out.push(hex_digit_exec(b & 15));
        } else {
            out.push(b);
        }
        proof {
            assert(out@ =~= base + seq![34u8] + json_escaped(s@.take(i + 1)));
        }
        i = i + 1;
    }
    proof {
        assert(s@.take(s@.len() as int) =~= s@);
    }
    out.push(34);
    proof {
        assert(out@ =~= base + json_string(s@));
    }
}

/// Append the bytes of a literal.
pub fn append_literal(out: &mut Vec<u8>, lit: &str)
    ensures
        final(out)@ == old(out)@ + lit.spec_bytes(),
{
    let mut v = lit.as_bytes_vec();
    out.append(&mut v);
}

} // verus!

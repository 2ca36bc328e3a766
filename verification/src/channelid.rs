//! Channel identifiers: opaque 16-byte values whose external form is
//! URL-safe base64 without padding (22 characters).
//!
//! The codec is specified bit-exactly: `encode_sextets` splits the bytes
//! into 6-bit groups, `decode_sextets` reassembles them, and
//! `lemma_codec_round_trip` proves that decoding an encoding returns the
//! original bytes.

use vstd::prelude::*;

verus! {

use crate::text::ascii_to_string;

/// Number of characters in the padless base64 form of an identifier.
pub const ENCODED_LEN: usize = 22;

/// Why a string was rejected as a channel identifier.
#[derive(Clone, Copy, Debug, PartialEq, Eq, Structural)]
pub enum DecodeError {
    /// After trailing `=` are dropped, the length is not 22 characters
    /// (so the decoded length would not be exactly 16 bytes).
    InvalidLength,
    /// A character outside the URL-safe base64 alphabet.
    InvalidChar,
    /// The final character carries bits beyond the 16th byte.
    InvalidLastChar,
}

/// An opaque 128-bit channel identifier. Equality is byte-wise.
#[derive(Clone, Copy, Debug)]
pub struct ChannelID {
    pub value: [u8; 16],
}

/// The URL-safe base64 alphabet: value 0..64 to ASCII byte.
pub open spec fn b64_byte_of(v: u8) -> u8 {
    if v < 26 {
        (v + 65) as u8  // 'A'..'Z'
    } else if v < 52 {
        (v + 71) as u8  // 'a'..'z'
    } else if v < 62 {
        (v - 4) as u8  // '0'..'9'
    } else if v == 62 {
        45u8  // '-'
    } else {
        95u8  // '_'
    }
}

/// Inverse of the URL-safe base64 alphabet: character to value 0..64,
/// or -1 for a character outside the alphabet.
pub open spec fn b64_val_of(c: char) -> int {
    let u = c as u32;
    if 65 <= u && u <= 90 {
        u - 65
    } else if 97 <= u && u <= 122 {
        u - 71
    } else if 48 <= u && u <= 57 {
        u + 4
    } else if u == 45 {
        62
    } else if u == 95 {
        63
    } else {
        -1
    }
}

/// Split bytes into 6-bit groups, most significant bits first.
/// A trailing byte yields two groups, two trailing bytes three;
/// the unused low bits of the last group are zero.
pub open spec fn encode_sextets(bytes: Seq<u8>) -> Seq<u8>
    decreases bytes.len(),
{
    if bytes.len() == 0 {
        Seq::empty()
    } else if bytes.len() == 1 {
        seq![(bytes[0] >> 2) as u8, ((bytes[0] & 3) << 4) as u8]
    } else if bytes.len() == 2 {
        seq![
            (bytes[0] >> 2) as u8,
            (((bytes[0] & 3) << 4) | (bytes[1] >> 4)) as u8,
            ((bytes[1] & 15) << 2) as u8,
        ]
    } else {
        seq![
            (bytes[0] >> 2) as u8,
            (((bytes[0] & 3) << 4) | (bytes[1] >> 4)) as u8,
            (((bytes[1] & 15) << 2) | (bytes[2] >> 6)) as u8,
            (bytes[2] & 63) as u8,
        ] + encode_sextets(bytes.skip(3))
    }
}

/// Reassemble bytes from 6-bit groups, most significant bits first.
/// Two trailing groups yield one byte, three trailing groups two.
/// (A single trailing group never arises from a well-formed encoding
/// and contributes nothing.)
pub open spec fn decode_sextets(s: Seq<u8>) -> Seq<u8>
    decreases s.len(),
{
    if s.len() <= 1 {
        Seq::empty()
    } else if s.len() == 2 {
        seq![((s[0] << 2) | (s[1] >> 4)) as u8]
    } else if s.len() == 3 {
        seq![((s[0] << 2) | (s[1] >> 4)) as u8, (((s[1] & 15) << 4) | (s[2] >> 2)) as u8]
    } else {
        seq![
            ((s[0] << 2) | (s[1] >> 4)) as u8,
            (((s[1] & 15) << 4) | (s[2] >> 2)) as u8,
            (((s[2] & 3) << 6) | s[3]) as u8,
        ] + decode_sextets(s.skip(4))
    }
}

/// The ASCII bytes of an identifier's external form.
pub open spec fn encoded_ascii(bytes: Seq<u8>) -> Seq<u8> {
    encode_sextets(bytes).map_values(|v: u8| b64_byte_of(v))
}

/// The characters of an identifier's external form.
pub open spec fn encoded_chars(bytes: Seq<u8>) -> Seq<char> {
    encode_sextets(bytes).map_values(|v: u8| b64_byte_of(v) as char)
}

/// Drop trailing `=` characters.
pub open spec fn trim_pad(s: Seq<char>) -> Seq<char>
    decreases s.len(),
{
    if s.len() > 0 && s.last() == '=' {
        trim_pad(s.drop_last())
    } else {
        s
    }
}

/// Does the string (after dropping trailing `=`) encode exactly 16 bytes?
pub open spec fn is_valid_encoding(s: Seq<char>) -> bool {
    let t = trim_pad(s);
    &&& t.len() == ENCODED_LEN
    &&& forall|i: int| 0 <= i < t.len() ==> b64_val_of(t[i]) >= 0
    &&& (b64_val_of(t[21]) as u8) & 15 == 0
}

/// The bytes a valid encoding stands for.
pub open spec fn decoded_bytes(s: Seq<char>) -> Seq<u8> {
    decode_sextets(trim_pad(s).map_values(|c: char| b64_val_of(c) as u8))
}

/// The error variant a rejected string is reported with: length is
/// checked first, then membership in the alphabet, then the unused bits
/// of the final character.
pub open spec fn decode_error_of(s: Seq<char>) -> DecodeError {
    let t = trim_pad(s);
    if t.len() != ENCODED_LEN {
        DecodeError::InvalidLength
    } else if exists|i: int| 0 <= i < t.len() && b64_val_of(t[i]) < 0 {
        DecodeError::InvalidChar
    } else {
        DecodeError::InvalidLastChar
    }
}

impl ChannelID {
    /// The identifier's bytes, as a sequence.
    pub open spec fn bytes(self) -> Seq<u8> {
        self.value@
    }

    /// Build an identifier from its 16 bytes.
    pub fn from_bytes(value: [u8; 16]) -> (r: ChannelID)
        ensures
            r.bytes() == value@,
    {
        ChannelID { value }
    }

    /// A fresh identifier drawn from the process entropy source.
    pub fn generate() -> ChannelID {
        ChannelID { value: random_id_bytes() }
    }

    /// The identifier's external form: URL-safe base64, no padding.
    pub fn as_string(&self) -> (r: String)
        ensures
            r@ == encoded_chars(self.bytes()),
    {
        let v = self.encoded_bytes();
        let r = ascii_to_string(v);
        proof {
            assert(r@ =~= encoded_chars(self.bytes()));
        }
        r
    }

    /// The ASCII bytes of the identifier's external form.
    pub fn encoded_bytes(&self) -> (r: Vec<u8>)
        ensures
            r@ == encoded_ascii(self.bytes()),
            forall|i: int| 0 <= i < r@.len() ==> r@[i] < 128,
    {
        proof {
            lemma_sextet_shapes();
        }
        let b = &self.value;
        let out: Vec<u8> = vec![
            alphabet_byte(b[0] >> 2),
            alphabet_byte(((b[0] & 3) << 4) | (b[1] >> 4)),
            alphabet_byte(((b[1] & 15) << 2) | (b[2] >> 6)),
            alphabet_byte(b[2] & 63),
            alphabet_byte(b[3] >> 2),
            alphabet_byte(((b[3] & 3) << 4) | (b[4] >> 4)),
            alphabet_byte(((b[4] & 15) << 2) | (b[5] >> 6)),
            alphabet_byte(b[5] & 63),
            alphabet_byte(b[6] >> 2),
            alphabet_byte(((b[6] & 3) << 4) | (b[7] >> 4)),
            alphabet_byte(((b[7] & 15) << 2) | (b[8] >> 6)),
            alphabet_byte(b[8] & 63),
            alphabet_byte(b[9] >> 2),
            alphabet_byte(((b[9] & 3) << 4) | (b[10] >> 4)),
            alphabet_byte(((b[10] & 15) << 2) | (b[11] >> 6)),
            alphabet_byte(b[11] & 63),
            alphabet_byte(b[12] >> 2),
            alphabet_byte(((b[12] & 3) << 4) | (b[13] >> 4)),
            alphabet_byte(((b[13] & 15) << 2) | (b[14] >> 6)),
            alphabet_byte(b[14] & 63),
            alphabet_byte(b[15] >> 2),
            alphabet_byte((b[15] & 3) << 4),
        ];
        proof {
            reveal_with_fuel(encode_sextets, 9);
            assert(out@ =~= encode_sextets(self.value@).map_values(|v: u8| b64_byte_of(v)));
        }
        out
    }

    /// Parse the external form back into an identifier. Trailing `=`
    /// padding is tolerated; anything that does not stand for exactly
    /// 16 bytes is rejected.
    pub fn from_str(s: &str) -> (r: Result<ChannelID, DecodeError>)
        ensures
            match r {
                Ok(id) => is_valid_encoding(s@) && id.bytes() == decoded_bytes(s@),
                Err(e) => !is_valid_encoding(s@) && e == decode_error_of(s@),
            },
    {
        let n = s.unicode_len();
        proof {
            assert(s@.subrange(0, n as int) =~= s@);
        }
        // Drop trailing '=' characters.
        let mut end = n;
        while end > 0 && s.get_char(end - 1) == '='
            invariant
                end <= n,
                n == s@.len(),
                trim_pad(s@) == trim_pad(s@.subrange(0, end as int)),
            decreases end,
        {
            proof {
                assert(s@.subrange(0, end as int).drop_last() =~= s@.subrange(0, end - 1));
            }
            end = end - 1;
        }
        proof {
            assert(trim_pad(s@) =~= s@.subrange(0, end as int));
        }
        if end != ENCODED_LEN {
            return Err(DecodeError::InvalidLength);
        }
        // Convert each character to its alphabet value.
        let ghost t = s@.subrange(0, end as int);
        let mut sx: Vec<u8> = Vec::new();
        let mut i: usize = 0;
        while i < ENCODED_LEN
            invariant
                i <= ENCODED_LEN,
                end == ENCODED_LEN,
                n == s@.len(),
                end <= n,
                t == s@.subrange(0, ENCODED_LEN as int),
                trim_pad(s@) == t,
                sx@.len() == i,
                forall|j: int| 0 <= j < i ==> b64_val_of(t[j]) >= 0,
                forall|j: int| 0 <= j < i ==> sx@[j] == b64_val_of(t[j]) as u8,
                forall|j: int| 0 <= j < i ==> sx@[j] < 64,
            decreases ENCODED_LEN - i,
        {
            let v = char_value(s.get_char(i));
            if v < 0 {
                proof {
                    assert(t[i as int] == s@[i as int]);
                    assert(0 <= i < t.len() && b64_val_of(t[i as int]) < 0);
                }
                return Err(DecodeError::InvalidChar);
            }
            sx.push(v as u8);
            i = i + 1;
        }
        if sx[21] & 15 != 0 {
            return Err(DecodeError::InvalidLastChar);
        }
        let value: [u8; 16] = [
            (sx[0] << 2) | (sx[1] >> 4),
            ((sx[1] & 15) << 4) | (sx[2] >> 2),
            ((sx[2] & 3) << 6) | sx[3],
            (sx[4] << 2) | (sx[5] >> 4),
            ((sx[5] & 15) << 4) | (sx[6] >> 2),
            ((sx[6] & 3) << 6) | sx[7],
            (sx[8] << 2) | (sx[9] >> 4),
            ((sx[9] & 15) << 4) | (sx[10] >> 2),
            ((sx[10] & 3) << 6) | sx[11],
            (sx[12] << 2) | (sx[13] >> 4),
            ((sx[13] & 15) << 4) | (sx[14] >> 2),
            ((sx[14] & 3) << 6) | sx[15],
            (sx[16] << 2) | (sx[17] >> 4),
            ((sx[17] & 15) << 4) | (sx[18] >> 2),
            ((sx[18] & 3) << 6) | sx[19],
            (sx[20] << 2) | (sx[21] >> 4),
        ];
        proof {
            reveal_with_fuel(decode_sextets, 8);
            assert(sx@ =~= t.map_values(|c: char| b64_val_of(c) as u8));
            assert(value@ =~= decode_sextets(sx@));
        }
        Ok(ChannelID { value })
    }
}

/// Every 6-bit group of an encoding is below 64.
proof fn lemma_encode_bound(bytes: Seq<u8>)
    ensures
        forall|i: int|
            0 <= i < encode_sextets(bytes).len() ==> #[trigger] encode_sextets(bytes)[i] < 64,
    decreases bytes.len(),
{
    let e = encode_sextets(bytes);
    if bytes.len() == 0 {
        assert(e.len() == 0);
    } else {
        let x = if bytes.len() >= 1 { bytes[0] } else { 0u8 };
        let y = if bytes.len() >= 2 { bytes[1] } else { 0u8 };
        let z = if bytes.len() >= 3 { bytes[2] } else { 0u8 };
        assert((x >> 2) < 64) by (bit_vector);
        assert(((x & 3) << 4) < 64) by (bit_vector);
        assert((((x & 3) << 4) | (y >> 4)) < 64) by (bit_vector);
        assert(((y & 15) << 2) < 64) by (bit_vector);
        assert((((y & 15) << 2) | (z >> 6)) < 64) by (bit_vector);
        assert((z & 63) < 64) by (bit_vector);
        if bytes.len() > 2 {
            lemma_encode_bound(bytes.skip(3));
            assert forall|i: int| 0 <= i < e.len() implies #[trigger] e[i] < 64 by {
                if i >= 4 {
                    assert(e[i] == encode_sextets(bytes.skip(3))[i - 4]);
                }
            }
        }
    }
}

/// For byte strings one over a multiple of three, the final 6-bit group
/// holds the two low bits of the final byte, shifted high.
proof fn lemma_encode_last(bytes: Seq<u8>)
    requires
        bytes.len() % 3 == 1,
    ensures
        encode_sextets(bytes).len() > 0,
        encode_sextets(bytes).last() == ((bytes.last() & 3) << 4) as u8,
    decreases bytes.len(),
{
    if bytes.len() > 1 {
        lemma_encode_last(bytes.skip(3));
        assert(bytes.skip(3).last() == bytes.last());
        assert(encode_sextets(bytes).last() == encode_sextets(bytes.skip(3)).last());
    }
}

/// Reassembling the 6-bit groups of an encoding returns the bytes.
proof fn lemma_decode_encode(bytes: Seq<u8>)
    ensures
        decode_sextets(encode_sextets(bytes)) == bytes,
    decreases bytes.len(),
{
    let e = encode_sextets(bytes);
    if bytes.len() == 0 {
        assert(decode_sextets(e) =~= bytes);
    } else if bytes.len() == 1 {
        let x = bytes[0];
        assert((((x >> 2) << 2) | (((x & 3) << 4) >> 4)) == x) by (bit_vector);
        assert(decode_sextets(e) =~= bytes);
    } else if bytes.len() == 2 {
        let x = bytes[0];
        let y = bytes[1];
        assert((((x >> 2) << 2) | ((((x & 3) << 4) | (y >> 4)) >> 4)) == x) by (bit_vector);
        assert((((((x & 3) << 4) | (y >> 4)) & 15) << 4) | (((y & 15) << 2) >> 2) == y)
            by (bit_vector);
        assert(decode_sextets(e) =~= bytes);
    } else {
        let x = bytes[0];
        let y = bytes[1];
        let z = bytes[2];
        lemma_decode_encode(bytes.skip(3));
        assert(e.skip(4) =~= encode_sextets(bytes.skip(3)));
        assert((((x >> 2) << 2) | ((((x & 3) << 4) | (y >> 4)) >> 4)) == x) by (bit_vector);
        assert((((((x & 3) << 4) | (y >> 4)) & 15) << 4) | ((((y & 15) << 2) | (z >> 6)) >> 2)
            == y) by (bit_vector);
        assert((((((y & 15) << 2) | (z >> 6)) & 3) << 6) | (z & 63) == z) by (bit_vector);
        assert(decode_sextets(e) =~= bytes);
    }
}

/// The alphabet and its inverse cancel, and no alphabet character is `=`.
proof fn lemma_alphabet_inverse()
    ensures
        forall|v: u8| v < 64 ==> #[trigger] b64_val_of(b64_byte_of(v) as char) == v,
        forall|v: u8| v < 64 ==> #[trigger] (b64_byte_of(v) as char) != '=',
{
    assert forall|v: u8| v < 64 implies #[trigger] b64_val_of(b64_byte_of(v) as char) == v && (
    b64_byte_of(v) as char) != '=' by {
        let b = b64_byte_of(v);
        assert(b < 128);
        assert((b as char) as u32 == b as u32);
        assert('=' as u32 == 61);
    }
}

/// Law: an identifier's external form is a valid encoding, and decoding
/// it returns the identifier's bytes.
pub proof fn lemma_codec_round_trip(bytes: Seq<u8>)
    requires
        bytes.len() == 16,
    ensures
        is_valid_encoding(encoded_chars(bytes)),
        decoded_bytes(encoded_chars(bytes)) == bytes,
{
    lemma_encode_bound(bytes);
    lemma_encode_last(bytes);
    lemma_alphabet_inverse();
    lemma_decode_encode(bytes);
    reveal_with_fuel(encode_sextets, 8);
    let e = encode_sextets(bytes);
    assert(e.len() == 22);
    let c = encoded_chars(bytes);
    // No trailing '=': trimming leaves the string whole.
    assert(c.last() == (b64_byte_of(e[21]) as char));
    assert(trim_pad(c) == c);
    // Every character is in the alphabet, mapping back to its group.
    assert(forall|i: int| 0 <= i < 22 ==> #[trigger] b64_val_of(c[i]) == e[i]);
    // The final group leaves the low four bits clear.
    assert(e[21] == ((bytes[15] & 3) << 4) as u8) by {
        assert(e.last() == ((bytes.last() & 3) << 4) as u8);
    }
    let b15 = bytes[15];
    assert((((b15 & 3) << 4) & 15) == 0) by (bit_vector);
    assert(is_valid_encoding(c));
    assert(c.map_values(|ch: char| b64_val_of(ch) as u8) =~= e);
    assert(decoded_bytes(c) == bytes);
}

/// Bit-level bounds on the 6-bit groups, used when encoding.
proof fn lemma_sextet_shapes()
    ensures
        forall|x: u8| #[trigger] (x >> 2) < 64,
        forall|x: u8| #[trigger] (x & 63) < 64,
        forall|x: u8, y: u8| #[trigger] (((x & 3) << 4) | (y >> 4)) < 64,
        forall|x: u8, y: u8| #[trigger] (((x & 15) << 2) | (y >> 6)) < 64,
        forall|x: u8| #[trigger] ((x & 3) << 4) < 64,
{
    assert(forall|x: u8| #[trigger] (x >> 2) < 64) by (bit_vector);
    assert(forall|x: u8| #[trigger] (x & 63) < 64) by (bit_vector);
    assert(forall|x: u8, y: u8| #[trigger] (((x & 3) << 4) | (y >> 4)) < 64) by (bit_vector);
    assert(forall|x: u8, y: u8| #[trigger] (((x & 15) << 2) | (y >> 6)) < 64) by (bit_vector);
    assert(forall|x: u8| #[trigger] ((x & 3) << 4) < 64) by (bit_vector);
}

/// The alphabet, executable form.
fn alphabet_byte(v: u8) -> (r: u8)
    requires
        v < 64,
    ensures
        r == b64_byte_of(v),
        r < 128,
{
    if v < 26 {
        v + 65
    } else if v < 52 {
        v + 71
    } else if v < 62 {
        v - 4
    } else if v == 62 {
        45
    } else {
        95
    }
}

/// The inverse alphabet, executable form: -1 for a foreign character.
fn char_value(c: char) -> (r: i8)
    ensures
        r as int == b64_val_of(c),
{
    let u = c as u32;
    if 65 <= u && u <= 90 {
        (u - 65) as i8
    } else if 97 <= u && u <= 122 {
        (u - 71) as i8
    } else if 48 <= u && u <= 57 {
        (u + 4) as i8
    } else if u == 45 {
        62
    } else if u == 95 {
        63
    } else {
        -1
    }
}

impl PartialEq for ChannelID {
    fn eq(&self, other: &ChannelID) -> (r: bool) {
        let mut i: usize = 0;
        let mut same: bool = true;
        while i < 16
            invariant
                i <= 16,
                same == (forall|j: int| 0 <= j < i ==> self.value@[j] == other.value@[j]),
            decreases 16 - i,
        {
            if self.value[i] != other.value[i] {
                same = false;
            }
            i = i + 1;
        }
        proof {
            if same {
                assert(self.value@ =~= other.value@);
            }
        }
        same
    }
}

impl vstd::std_specs::cmp::PartialEqSpecImpl for ChannelID {
    open spec fn obeys_eq_spec() -> bool {
        true
    }

    open spec fn eq_spec(&self, other: &ChannelID) -> bool {
        self.value@ == other.value@
    }
}

/// Relies on rand::random over a 16-byte array: the bytes come from the
/// thread-local generator; nothing can be promised of their values.
#[verifier::external_body]
fn random_id_bytes() -> [u8; 16] {
    rand::random::<[u8; 16]>()
}


} // verus!

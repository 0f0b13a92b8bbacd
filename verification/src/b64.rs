//! Base64 (standard alphabet, `=` padding) as used for the HTTP basic
//! authorization token: a full specification of the encoding, a trusted
//! wrapper over the encoder of the `base64` crate, a specification-level
//! decoder, and the proof that decoding inverts encoding.

use vstd::prelude::*;

verus! {

/// Character of the standard base64 alphabet at index `v`.
pub open spec fn b64_char(v: int) -> char
    recommends
        0 <= v < 64,
{
    if v < 26 {
        ((65 + v) as u8) as char  // 'A'..='Z'
    } else if v < 52 {
        ((97 + (v - 26)) as u8) as char  // 'a'..='z'
    } else if v < 62 {
        ((48 + (v - 52)) as u8) as char  // '0'..='9'
    } else if v == 62 {
        '+'
    } else {
        '/'
    }
}

/// Index of `c` in the standard base64 alphabet, or -1 if it is not in it.
pub open spec fn b64_index(c: char) -> int {
    if 65 <= c as u32 <= 90 {
        c as u32 - 65
    } else if 97 <= c as u32 <= 122 {
        c as u32 - 97 + 26
    } else if 48 <= c as u32 <= 57 {
        c as u32 - 48 + 52
    } else if c == '+' {
        62
    } else if c == '/' {
        63
    } else {
        -1
    }
}

/// Standard base64 encoding of a byte sequence, with `=` padding.
pub open spec fn b64_of(b: Seq<u8>) -> Seq<char>
    decreases b.len(),
{
    if b.len() == 0 {
        Seq::<char>::empty()
    } else if b.len() == 1 {
        let b0 = b[0] as int;
        seq![b64_char(b0 / 4), b64_char((b0 % 4) * 16), '=', '=']
    } else if b.len() == 2 {
        let b0 = b[0] as int;
        let b1 = b[1] as int;
        seq![
            b64_char(b0 / 4),
            b64_char((b0 % 4) * 16 + b1 / 16),
            b64_char((b1 % 16) * 4),
            '=',
        ]
    } else {
        let b0 = b[0] as int;
        let b1 = b[1] as int;
        let b2 = b[2] as int;
        seq![
            b64_char(b0 / 4),
            b64_char((b0 % 4) * 16 + b1 / 16),
            b64_char((b1 % 16) * 4 + b2 / 64),
            b64_char(b2 % 64),
        ] + b64_of(b.skip(3))
    }
}

/// Decoding of a standard base64 text back to bytes; `None` where the text
/// is not a padded encoding.
pub open spec fn b64_decode(s: Seq<char>) -> Option<Seq<u8>>
    decreases s.len(),
{
    if s.len() == 0 {
        Some(Seq::<u8>::empty())
    } else if s.len() < 4 {
        None
    } else {
        let c0 = b64_index(s[0]);
        let c1 = b64_index(s[1]);
        if c0 < 0 || c1 < 0 {
            None
        } else if s[2] == '=' && s[3] == '=' {
            if s.len() == 4 && c1 % 16 == 0 {
                Some(seq![(c0 * 4 + c1 / 16) as u8])
            } else {
                None
            }
        } else if s[3] == '=' {
            let c2 = b64_index(s[2]);
            if s.len() == 4 && c2 >= 0 && c2 % 4 == 0 {
                Some(seq![(c0 * 4 + c1 / 16) as u8, ((c1 % 16) * 16 + c2 / 4) as u8])
            } else {
                None
            }
        } else {
            let c2 = b64_index(s[2]);
            let c3 = b64_index(s[3]);
            if c2 < 0 || c3 < 0 {
                None
            } else {
                match b64_decode(s.skip(4)) {
                    Some(rest) => Some(
                        seq![
                            (c0 * 4 + c1 / 16) as u8,
                            ((c1 % 16) * 16 + c2 / 4) as u8,
                            ((c2 % 4) * 64 + c3) as u8,
                        ] + rest,
                    ),
                    None => None,
                }
            }
        }
    }
}

/// The alphabet characters decode back to their index, and none of them is
/// the padding character.
proof fn lemma_b64_char_index(v: int)
    requires
        0 <= v < 64,
    ensures
        b64_index(b64_char(v)) == v,
        b64_char(v) != '=',
{
    if v < 26 {
        assert(((65 + v) as u8) as char as u32 == 65 + v);
    } else if v < 52 {
        assert(((97 + (v - 26)) as u8) as char as u32 == 97 + (v - 26));
    } else if v < 62 {
        assert(((48 + (v - 52)) as u8) as char as u32 == 48 + (v - 52));
    }
}

/// Decoding inverts encoding, for every byte sequence.
pub proof fn lemma_b64_round_trip(b: Seq<u8>)
    ensures
        b64_decode(b64_of(b)) == Some(b),
    decreases b.len(),
{
    if b.len() == 0 {
        assert(b64_of(b) =~= Seq::<char>::empty());
        assert(b =~= Seq::<u8>::empty());
    } else if b.len() == 1 {
        let b0 = b[0] as int;
        lemma_b64_char_index(b0 / 4);
        lemma_b64_char_index((b0 % 4) * 16);
        let s = b64_of(b);
        assert(((b0 % 4) * 16) % 16 == 0);
        assert((b0 / 4) * 4 + ((b0 % 4) * 16) / 16 == b0);
        assert(b64_decode(s) == Some(seq![b[0]]));
        assert(b =~= seq![b[0]]);
    } else if b.len() == 2 {
        let b0 = b[0] as int;
        let b1 = b[1] as int;
        lemma_b64_char_index(b0 / 4);
        lemma_b64_char_index((b0 % 4) * 16 + b1 / 16);
        lemma_b64_char_index((b1 % 16) * 4);
        let s = b64_of(b);
        assert(((b1 % 16) * 4) % 4 == 0);
        assert((b0 / 4) * 4 + ((b0 % 4) * 16 + b1 / 16) / 16 == b0);
        assert((((b0 % 4) * 16 + b1 / 16) % 16) * 16 + ((b1 % 16) * 4) / 4 == b1);
        assert(b64_decode(s) == Some(seq![b[0], b[1]]));
        assert(b =~= seq![b[0], b[1]]);
    } else {
        let b0 = b[0] as int;
        let b1 = b[1] as int;
        let b2 = b[2] as int;
        lemma_b64_char_index(b0 / 4);
        lemma_b64_char_index((b0 % 4) * 16 + b1 / 16);
        lemma_b64_char_index((b1 % 16) * 4 + b2 / 64);
        lemma_b64_char_index(b2 % 64);
        lemma_b64_round_trip(b.skip(3));
        let s = b64_of(b);
        let head = seq![
            b64_char(b0 / 4),
            b64_char((b0 % 4) * 16 + b1 / 16),
            b64_char((b1 % 16) * 4 + b2 / 64),
            b64_char(b2 % 64),
        ];
        assert(s =~= head + b64_of(b.skip(3)));
        assert(s.len() >= 4);
        assert(s.skip(4) =~= b64_of(b.skip(3)));
        assert((b0 / 4) * 4 + ((b0 % 4) * 16 + b1 / 16) / 16 == b0);
        assert((((b0 % 4) * 16 + b1 / 16) % 16) * 16 + (((b1 % 16) * 4 + b2 / 64)) / 4 == b1);
        assert((((b1 % 16) * 4 + b2 / 64) % 4) * 64 + (b2 % 64) == b2);
        assert(b64_decode(s) == Some(seq![b[0], b[1], b[2]] + b.skip(3)));
        assert(b =~= seq![b[0], b[1], b[2]] + b.skip(3));
    }
}

/// A UTF-8 encoding takes at most four bytes per character.
pub proof fn lemma_encode_utf8_len(s: Seq<char>)
    ensures
        vstd::utf8::encode_utf8(s).len() <= 4 * s.len(),
    decreases s.len(),
{
    if s.len() > 0 {
        lemma_encode_utf8_len(s.drop_first());
    }
}

/// Relies on the `base64` crate's `STANDARD` engine, whose documentation
/// fixes the RFC 4648 standard alphabet with `=` padding; `encode` returns
/// that encoding of the input bytes. `encode` panics when the output
/// length overflows `usize`; the length bound keeps the input far away
/// from that.
#[verifier::external_body]
pub fn encode_base64(bytes: &[u8]) -> (r: String)
    requires
        bytes@.len() < 0x1000000000000,
    ensures
        r@ == b64_of(bytes@),
{
    base64::Engine::encode(&base64::engine::general_purpose::STANDARD, bytes)
}

} // verus!

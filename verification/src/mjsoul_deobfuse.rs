use vstd::prelude::*;

use vstd::utf8::{encode_utf8, is_ascii_chars, is_ascii_chars_encode_utf8};

verus! {

/// The value of a lower-case base-36 digit (`0`-`9`, `a`-`z`).
pub open spec fn code_value(code: u8) -> Option<int> {
    if 48 <= code < 58 {
        Some(code - 48)
    } else if 97 <= code < 123 {
        Some(code - 97 + 10)
    } else {
        None
    }
}

/// The lower-case base-36 digit of a value below 36.
pub open spec fn base36_char(o: int) -> char {
    if o < 10 {
        (o + 48) as char
    } else {
        (o + 87) as char
    }
}

/// The character that the byte at position `i` of an obfuscated ID stands
/// for: a base-36 digit is shifted back by `55 - i` (the position taken
/// modulo 256), anything else stays.
pub open spec fn decoded_char(code: u8, i: int) -> char {
    match code_value(code) {
        Some(o) => base36_char((o + 55 - (i % 256)) % 36),
        None => code as char,
    }
}

/// The characters of a decoded ID, one per byte of the obfuscated one.
pub open spec fn decoded(b: Seq<u8>) -> Seq<char> {
    Seq::new(b.len(), |i: int| decoded_char(b[i], i))
}

/// No digit of the ID stands so far in that the shift would go below zero.
pub open spec fn decodable(b: Seq<u8>) -> bool {
    forall|i: int|
        #![trigger b[i]]
        0 <= i < b.len() ==> match code_value(b[i]) {
            Some(o) => i % 256 <= o + 55,
            None => true,
        }
}

/// Collects characters into a `String` with `String::from_iter`, which
/// keeps them in order.
#[verifier::external_body]
fn string_from_chars(cs: &[char]) -> (r: String)
    ensures
        r@ == cs@,
{
    cs.iter().collect()
}

/// Decodes the obfuscated ID of a Mahjong Soul log.
pub fn decode_log_id(id: &str) -> (r: String)
    requires
        decodable(encode_utf8(id@)),
    ensures
        r@ == decoded(encode_utf8(id@)),
{
    let b = id.as_bytes();
    let ghost bv = encode_utf8(id@);
    let mut out: Vec<char> = Vec::new();
    let mut i: usize = 0;
    while i < b.len()
        invariant
            b@ == bv,
            decodable(bv),
            i <= bv.len(),
            out@ == decoded(bv).take(i as int),
        decreases bv.len() - i,
    {
        let code = b[i];
        let c = if code >= 48 && code < 58 || code >= 97 && code < 123 {
            let o: u8 = if code < 58 {
                code - 48
            } else {
                code - 87
            };
            let shift = (i % 256) as u8;
            assert(shift <= o + 55);
            let v = (o + 55 - shift) % 36;
            if v < 10 {
                (v + 48) as char
            } else {
                (v + 87) as char
            }
        } else {
            code as char
        };
        out.push(c);
        i = i + 1;
        proof {
            assert(out@ =~= decoded(bv).take(i as int));
        }
    }
    proof {
        assert(decoded(bv).take(i as int) =~= decoded(bv));
    }
    string_from_chars(out.as_slice())
}


/// At one position, different ASCII bytes decode to different characters.
proof fn lemma_decoded_char_injective(c1: u8, c2: u8, i: int)
    requires
        c1 < 128,
        c2 < 128,
        0 <= i <= 55,
        decoded_char(c1, i) == decoded_char(c2, i),
    ensures
        c1 == c2,
{
    match (code_value(c1), code_value(c2)) {
        (Some(o1), Some(o2)) => {
            let v1 = (o1 + 55 - i) % 36;
            let v2 = (o2 + 55 - i) % 36;
            assert(0 <= v1 < 36 && 0 <= v2 < 36);
            assert(v1 == v2) by {
                if v1 != v2 {
                    if v1 < 10 && v2 >= 10 {
                        assert(base36_char(v1) as u32 <= 57);
                        assert(base36_char(v2) as u32 >= 97);
                    } else if v1 >= 10 && v2 < 10 {
                        assert(base36_char(v2) as u32 <= 57);
                        assert(base36_char(v1) as u32 >= 97);
                    }
                }
            }
            assert(o1 == o2) by (nonlinear_arith)
                requires
                    0 <= o1 < 36,
                    0 <= o2 < 36,
                    0 <= i <= 55,
                    (o1 + 55 - i) % 36 == (o2 + 55 - i) % 36,
            ;
        },
        (Some(o1), None) => {
            let v1 = (o1 + 55 - i) % 36;
            assert(0 <= v1 < 36);
            assert(c2 as char == base36_char(v1));
        },
        (None, Some(o2)) => {
            let v2 = (o2 + 55 - i) % 36;
            assert(0 <= v2 < 36);
            assert(c1 as char == base36_char(v2));
        },
        (None, None) => {
            assert(c1 as char == c2 as char);
        },
    }
}

/// An ASCII ID of at most 56 characters always decodes, one character for
/// each: a base-36 digit at position `i` is shifted back by `55 - i`, any
/// other character stays. Two such IDs of one length that decode alike are
/// the same ID.
pub proof fn law_ascii_ids_decode(id: Seq<char>, other: Seq<char>)
    requires
        is_ascii_chars(id),
        id.len() <= 56,
        is_ascii_chars(other),
        other.len() == id.len(),
    ensures
        decodable(encode_utf8(id)),
        decoded(encode_utf8(id)).len() == id.len(),
        forall|i: int|
            0 <= i < id.len() ==> #[trigger] decoded(encode_utf8(id))[i] == decoded_char(
                id[i] as u8,
                i,
            ),
        decoded(encode_utf8(id)) == decoded(encode_utf8(other)) ==> id == other,
{
    is_ascii_chars_encode_utf8(id);
    is_ascii_chars_encode_utf8(other);
    let b = encode_utf8(id);
    let c = encode_utf8(other);
    assert forall|i: int| 0 <= i < b.len() implies match code_value(#[trigger] b[i]) {
        Some(o) => i % 256 <= o + 55,
        None => true,
    } by {
        assert(i % 256 == i);
    }
    assert forall|i: int| 0 <= i < id.len() implies #[trigger] decoded(b)[i] == decoded_char(
        id[i] as u8,
        i,
    ) by {
        assert(id[i] as u8 == b[i]);
    }
    if decoded(b) == decoded(c) {
        assert forall|i: int| 0 <= i < id.len() implies id[i] == other[i] by {
            assert(id[i] as u8 == b[i]);
            assert(other[i] as u8 == c[i]);
            assert(decoded(b)[i] == decoded(c)[i]);
            assert(i % 256 == i);
            lemma_decoded_char_injective(b[i], c[i], i);
            assert('\0' <= id[i] <= '\u{7f}');
            assert('\0' <= other[i] <= '\u{7f}');
        }
        assert(id =~= other);
    }
}

} // verus!

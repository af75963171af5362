//! Header values: percent-encoded file names are decoded, other values kept.
use vstd::prelude::*;
use vstd::utf8::{
    decode_utf8, encode_utf8, encode_scalar, is_scalar, has_width_1_encoding, has_width_2_encoding,
    has_width_3_encoding, valid_utf8, char_is_scalar, char_u32_cast, encode_utf8_decode_utf8,
    encode_utf8_valid_utf8,
};
use crate::text::{utf8_string, string_of, chars_of};

verus! {

/// The value of an ASCII hex digit.
pub open spec fn hex_digit_value(b: u8) -> Option<u8> {
    if 0x30 <= b && b <= 0x39 {
        Some((b - 0x30) as u8)
    } else if 0x61 <= b && b <= 0x66 {
        Some((b - 0x61 + 10) as u8)
    } else if 0x41 <= b && b <= 0x46 {
        Some((b - 0x41 + 10) as u8)
    } else {
        None
    }
}

/// The value of a hex digit byte, `None` for any other byte.
pub fn hex_value(byte: u8) -> (v: Option<u8>)
    ensures
        v == hex_digit_value(byte),
        v matches Some(d) ==> d < 16,
{
    if 0x30 <= byte && byte <= 0x39 {
        Some(byte - 0x30)
    } else if 0x61 <= byte && byte <= 0x66 {
        Some(byte - 0x61 + 10)
    } else if 0x41 <= byte && byte <= 0x46 {
        Some(byte - 0x41 + 10)
    } else {
        None
    }
}

/// Percent-decodes `b[i..]`: each `%` must be followed by two hex digits and
/// stands for the byte they write; other bytes stand for themselves.
pub open spec fn percent_decoded_from(b: Seq<u8>, i: int) -> Option<Seq<u8>>
    decreases b.len() - i,
{
    if i < 0 || i >= b.len() {
        Some(Seq::empty())
    } else if b[i] == 0x25 {
        if i + 2 < b.len() && hex_digit_value(b[i + 1]) is Some && hex_digit_value(
            b[i + 2],
        ) is Some {
            let byte = (hex_digit_value(b[i + 1])->0 * 16 + hex_digit_value(b[i + 2])->0) as u8;
            match percent_decoded_from(b, i + 3) {
                Some(rest) => Some(seq![byte] + rest),
                None => None,
            }
        } else {
            None
        }
    } else {
        match percent_decoded_from(b, i + 1) {
            Some(rest) => Some(seq![b[i]] + rest),
            None => None,
        }
    }
}

/// The text a header value stands for: the value itself when its UTF-8 bytes
/// hold no `%`; otherwise the percent-decoded bytes, when they decode and
/// form valid UTF-8.
pub open spec fn header_decoded(value: Seq<char>) -> Option<Seq<char>> {
    let bytes = encode_utf8(value);
    if !bytes.contains(0x25u8) {
        Some(value)
    } else {
        match percent_decoded_from(bytes, 0) {
            Some(d) => if valid_utf8(d) {
                Some(decode_utf8(d))
            } else {
                None
            },
            None => None,
        }
    }
}

/// Decodes a percent-encoded header value; `None` when an escape is
/// malformed or the decoded bytes are not UTF-8.
pub fn percent_decode_header(value: &str) -> (r: Option<String>)
    ensures
        match r {
            Some(s) => header_decoded(value@) == Some(s@),
            None => header_decoded(value@) is None,
        },
{
    let bytes = value.as_bytes();
    let ghost b = bytes@;
    let mut decoded: Vec<u8> = Vec::with_capacity(bytes.len());
    let mut index: usize = 0;
    let mut changed = false;
    while index < bytes.len()
        invariant
            b == bytes@,
            b == encode_utf8(value@),
            index <= b.len(),
            changed <==> exists|k: int| 0 <= k < index && #[trigger] b[k] == 0x25u8,
            percent_decoded_from(b, 0) == match percent_decoded_from(b, index as int) {
                Some(rest) => Some(decoded@ + rest),
                None => None,
            },
        decreases bytes.len() - index,
    {
        if bytes[index] == 0x25 {
            if bytes.len() - index <= 2 {
                return None;
            }
            let high = match hex_value(bytes[index + 1]) {
                Some(h) => h,
                None => return None,
            };
            let low = match hex_value(bytes[index + 2]) {
                Some(l) => l,
                None => return None,
            };
            let byte = high << 4 | low;
            proof {
                assert(high << 4 | low == (high * 16 + low) as u8) by (bit_vector)
                    requires
                        high < 16,
                        low < 16,
                ;
            }
            let ghost prev = decoded@;
            decoded.push(byte);
            index = index + 3;
            changed = true;
            assert(b[index - 3] == 0x25u8);
            proof {
                match percent_decoded_from(b, index as int) {
                    Some(rest) => {
                        assert(decoded@ + rest =~= prev + (seq![byte] + rest));
                    },
                    None => {},
                }
            }
        } else {
            let ghost prev = decoded@;
            decoded.push(bytes[index]);
            index = index + 1;
            proof {
                match percent_decoded_from(b, index as int) {
                    Some(rest) => {
                        assert(decoded@ + rest =~= prev + (seq![b[index - 1]] + rest));
                    },
                    None => {},
                }
            }

        }
    }
    assert(percent_decoded_from(b, index as int) == Some(Seq::<u8>::empty()));
    assert(decoded@ + Seq::<u8>::empty() =~= decoded@);
    if changed {
        proof {
            let k = choose|k: int| 0 <= k < index && #[trigger] b[k] == 0x25u8;
            assert(b.contains(0x25u8));
        }
        utf8_string(decoded)
    } else {
        proof {
            assert(!b.contains(0x25u8)) by {
                if b.contains(0x25u8) {
                    let k = choose|k: int| 0 <= k < b.len() && b[k] == 0x25u8;
                    assert(b[k] == 0x25u8);
                }
            }
        }
        Some(string_of(&chars_of(value)))
    }
}

/// The text that a header value stands for: its decoded form where percent
/// decoding succeeds, else the value as it came.
pub fn header_text(value: &str) -> (text: String)
    ensures
        text@ == match header_decoded(value@) {
            Some(d) => d,
            None => value@,
        },
{
    match percent_decode_header(value) {
        Some(d) => d,
        None => string_of(&chars_of(value)),
    }
}


proof fn lemma_scalar_percent_byte(v: u32)
    requires
        is_scalar(v),
        encode_scalar(v).contains(0x25u8),
    ensures
        v == 0x25,
{
    let e = encode_scalar(v);
    let i = choose|i: int| 0 <= i < e.len() && e[i] == 0x25u8;
    if has_width_1_encoding(v) {
        assert(e[0] == (v & 0x7F) as u8);
        assert(v <= 0x7F && (v & 0x7F) as u8 == 0x25u8 ==> v == 0x25) by (bit_vector);
    } else if has_width_2_encoding(v) {
        assert((0xC0u8 | ((v >> 6) & 0x1F) as u8) != 0x25u8) by (bit_vector);
        assert((0x80u8 | (v & 0x3F) as u8) != 0x25u8) by (bit_vector);
    } else if has_width_3_encoding(v) {
        assert((0xE0u8 | ((v >> 12) & 0x0F) as u8) != 0x25u8) by (bit_vector);
        assert((0x80u8 | ((v >> 6) & 0x3F) as u8) != 0x25u8) by (bit_vector);
        assert((0x80u8 | (v & 0x3F) as u8) != 0x25u8) by (bit_vector);
    } else {
        assert((0xF0u8 | ((v >> 18) & 0x7) as u8) != 0x25u8) by (bit_vector);
        assert((0x80u8 | ((v >> 12) & 0x3F) as u8) != 0x25u8) by (bit_vector);
        assert((0x80u8 | ((v >> 6) & 0x3F) as u8) != 0x25u8) by (bit_vector);
        assert((0x80u8 | (v & 0x3F) as u8) != 0x25u8) by (bit_vector);
    }
}

/// The UTF-8 bytes of a text without `%` hold no `%` byte.
pub proof fn lemma_no_percent_byte(value: Seq<char>)
    requires
        !value.contains('%'),
    ensures
        !encode_utf8(value).contains(0x25u8),
    decreases value.len(),
{
    if value.len() > 0 {
        let first = encode_scalar(value[0] as u32);
        let rest = value.drop_first();
        assert(!rest.contains('%')) by {
            if rest.contains('%') {
                let k = choose|k: int| 0 <= k < rest.len() && rest[k] == '%';
                assert(value[k + 1] == '%');
            }
        }
        lemma_no_percent_byte(rest);
        let e = encode_utf8(value);
        assert(e == first + encode_utf8(rest));
        if e.contains(0x25u8) {
            let i = choose|i: int| 0 <= i < e.len() && e[i] == 0x25u8;
            if i < first.len() {
                assert(first[i] == 0x25u8);
                assert(is_scalar(value[0] as u32)) by {
                    char_is_scalar(value[0]);
                }
                lemma_scalar_percent_byte(value[0] as u32);
                char_u32_cast(value[0], value[0] as u32);
                char_u32_cast('%', '%' as u32);
                assert(value[0] == '%');
            } else {
                assert(encode_utf8(rest)[i - first.len()] == 0x25u8);
            }
        }
    }
}

/// A header value without `%` stands for itself.
pub proof fn lemma_plain_header_kept(value: Seq<char>)
    requires
        !value.contains('%'),
    ensures
        header_decoded(value) == Some(value),
{
    lemma_no_percent_byte(value);
}


/// The hex digit byte of `d < 16`, in upper or lower case.
pub open spec fn hex_digit_byte(d: u8, upper: bool) -> u8 {
    if d < 10 {
        (0x30 + d) as u8
    } else if upper {
        (0x41 + d - 10) as u8
    } else {
        (0x61 + d - 10) as u8
    }
}

/// The percent escape of a byte: `%` and its two hex digits.
pub open spec fn escape_byte(b: u8, upper: bool) -> Seq<u8> {
    seq![0x25u8, hex_digit_byte(b / 16, upper), hex_digit_byte(b % 16, upper)]
}

/// `b` with the bytes at the positions that `escape` marks written as
/// percent escapes, whose hex digits are upper case where `upper` marks.
pub open spec fn percent_encoded(b: Seq<u8>, escape: Seq<bool>, upper: Seq<bool>) -> Seq<u8>
    decreases b.len(),
{
    if b.len() == 0 {
        Seq::empty()
    } else {
        (if escape[0] {
            escape_byte(b[0], upper[0])
        } else {
            seq![b[0]]
        }) + percent_encoded(b.drop_first(), escape.drop_first(), upper.drop_first())
    }
}

proof fn lemma_hex_digit_byte(d: u8, upper: bool)
    requires
        d < 16,
    ensures
        hex_digit_value(hex_digit_byte(d, upper)) == Some(d),
{
}

/// Decoding from an offset into a longer sequence only reads what follows
/// the offset.
proof fn lemma_decode_shift(p: Seq<u8>, r: Seq<u8>, j: int)
    requires
        0 <= j <= r.len(),
    ensures
        percent_decoded_from(p + r, p.len() + j) == percent_decoded_from(r, j),
    decreases r.len() - j,
{
    let s = p + r;
    let i = p.len() + j;
    if j < r.len() {
        assert(s[i] == r[j]);
        if r[j] == 0x25 {
            if j + 2 < r.len() {
                assert(s[i + 1] == r[j + 1] && s[i + 2] == r[j + 2]);
                lemma_decode_shift(p, r, j + 3);
            }
        } else {
            lemma_decode_shift(p, r, j + 1);
        }
    }
}

proof fn lemma_decode_encoded(b: Seq<u8>, escape: Seq<bool>, upper: Seq<bool>)
    requires
        escape.len() == b.len(),
        upper.len() == b.len(),
        forall|k: int| 0 <= k < b.len() && #[trigger] b[k] == 0x25u8 ==> escape[k],
    ensures
        percent_decoded_from(percent_encoded(b, escape, upper), 0) == Some(b),
        !percent_encoded(b, escape, upper).contains(0x25u8) ==> percent_encoded(b, escape, upper)
            == b,
    decreases b.len(),
{
    let e = percent_encoded(b, escape, upper);
    if b.len() == 0 {
        assert(b =~= Seq::<u8>::empty());
    } else {
        let rb = b.drop_first();
        let re = escape.drop_first();
        let ru = upper.drop_first();
        assert forall|k: int| 0 <= k < rb.len() && #[trigger] rb[k] == 0x25u8 implies re[k] by {
            assert(b[k + 1] == rb[k]);
        }
        lemma_decode_encoded(rb, re, ru);
        let rest = percent_encoded(rb, re, ru);
        if escape[0] {
            let unit = escape_byte(b[0], upper[0]);
            assert(e == unit + rest);
            lemma_hex_digit_byte(b[0] / 16, upper[0]);
            lemma_hex_digit_byte(b[0] % 16, upper[0]);
            assert(e[0] == 0x25u8 && e[1] == unit[1] && e[2] == unit[2]);
            assert(((b[0] / 16) * 16 + b[0] % 16) as u8 == b[0]);
            lemma_decode_shift(unit, rest, 0);
            assert(seq![b[0]] + rb =~= b);
            assert(e.contains(0x25u8)) by {
                assert(e[0] == 0x25u8);
            }
        } else {
            let unit = seq![b[0]];
            assert(e == unit + rest);
            assert(b[0] != 0x25u8);
            assert(e[0] == b[0]);
            lemma_decode_shift(unit, rest, 0);
            assert(seq![b[0]] + rb =~= b);
            if !e.contains(0x25u8) {
                assert(!rest.contains(0x25u8)) by {
                    if rest.contains(0x25u8) {
                        let k = choose|k: int| 0 <= k < rest.len() && rest[k] == 0x25u8;
                        assert(e[k + 1] == 0x25u8);
                    }
                }
            }
        }
    }
}

/// Percent-encoding the UTF-8 bytes of a text, escaping at least every `%`
/// and any other bytes, with hex digits of either case, gives a header
/// value that decodes back to the text.
pub proof fn lemma_percent_round_trip(
    text: Seq<char>,
    encoded: Seq<char>,
    escape: Seq<bool>,
    upper: Seq<bool>,
)
    requires
        escape.len() == encode_utf8(text).len(),
        upper.len() == encode_utf8(text).len(),
        forall|k: int|
            0 <= k < encode_utf8(text).len() && #[trigger] encode_utf8(text)[k] == 0x25u8
                ==> escape[k],
        encode_utf8(encoded) == percent_encoded(encode_utf8(text), escape, upper),
    ensures
        header_decoded(encoded) == Some(text),
{
    let b = encode_utf8(text);
    lemma_decode_encoded(b, escape, upper);
    encode_utf8_valid_utf8(text);
    encode_utf8_decode_utf8(text);
    encode_utf8_decode_utf8(encoded);
}

} // verus!

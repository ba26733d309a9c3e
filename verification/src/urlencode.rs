//! Percent-encoding of URL components.
//!
//! Encoding is done by the `urlencoding` crate; this module states what it
//! produces, defines the matching decoding, and proves that decoding gives
//! back what was encoded.

use vstd::prelude::*;
use vstd::utf8::{encode_utf8, is_ascii_chars, is_ascii_chars_encode_utf8};

verus! {

/// The bytes that are never escaped: ASCII letters and digits, `-`, `.`,
/// `_` and `~`.
pub open spec fn is_unreserved(b: u8) -> bool {
    ||| 0x30 <= b <= 0x39
    ||| 0x41 <= b <= 0x5a
    ||| 0x61 <= b <= 0x7a
    ||| b == 0x2d
    ||| b == 0x2e
    ||| b == 0x5f
    ||| b == 0x7e
}

/// The upper-case hexadecimal digit for `d`, which is below sixteen.
pub open spec fn hex_upper(d: int) -> char {
    if d < 10 {
        (0x30 + d) as char
    } else {
        (0x41 + d - 10) as char
    }
}

/// The value of a hexadecimal digit of either case, if it is one.
pub open spec fn hex_value(c: char) -> Option<int> {
    if '0' <= c <= '9' {
        Some(c as int - 0x30)
    } else if 'A' <= c <= 'F' {
        Some(c as int - 0x41 + 10)
    } else if 'a' <= c <= 'f' {
        Some(c as int - 0x61 + 10)
    } else {
        None
    }
}

/// One byte, percent-encoded: itself when unreserved, else `%` and its two
/// upper-case hexadecimal digits.
pub open spec fn encode_byte(b: u8) -> Seq<char> {
    if is_unreserved(b) {
        seq![b as char]
    } else {
        seq!['%', hex_upper(b as int / 16), hex_upper(b as int % 16)]
    }
}

/// The bytes, percent-encoded one after another.
pub open spec fn percent_encode(bytes: Seq<u8>) -> Seq<char>
    decreases bytes.len(),
{
    if bytes.len() == 0 {
        Seq::<char>::empty()
    } else {
        encode_byte(bytes[0]) + percent_encode(bytes.drop_first())
    }
}

/// A percent escape starts at the front of `s`: `%` and two hexadecimal
/// digits.
pub open spec fn starts_with_escape(s: Seq<char>) -> bool {
    s.len() >= 3 && s[0] == '%' && hex_value(s[1]) is Some && hex_value(s[2]) is Some
}

/// The bytes that a percent-encoded text stands for: each escape gives its
/// byte, every other character its UTF-8 bytes.
pub open spec fn percent_decode(s: Seq<char>) -> Seq<u8>
    decreases s.len(),
{
    if s.len() == 0 {
        Seq::<u8>::empty()
    } else if starts_with_escape(s) {
        seq![(16 * hex_value(s[1])->0 + hex_value(s[2])->0) as u8] + percent_decode(s.skip(3))
    } else {
        encode_utf8(seq![s[0]]) + percent_decode(s.drop_first())
    }
}

/// Trusted: `urlencoding::encode` percent-encodes the UTF-8 bytes of its
/// argument, leaving only ASCII letters, digits, `-`, `.`, `_` and `~` as they
/// are and writing every other byte as `%` and two upper-case hexadecimal
/// digits.
#[verifier::external_body]
pub(crate) fn url_encode(data: &str) -> (encoded: String)
    ensures
        encoded@ == percent_encode(encode_utf8(data@)),
{
    urlencoding::encode(data).into_owned()
}

/// The UTF-8 encoding of one ASCII character is the one byte that is its
/// code.
pub proof fn lemma_encode_ascii(c: char)
    requires
        c as u32 <= 0x7f,
    ensures
        encode_utf8(seq![c]) == seq![c as u8],
{
    let s = seq![c];
    assert(is_ascii_chars(s));
    is_ascii_chars_encode_utf8(s);
    assert(encode_utf8(s)[0] == s[0] as u8);
    assert(encode_utf8(s) =~= seq![c as u8]);
}

/// Decoding what was encoded gives the bytes back.
pub proof fn lemma_decode_encode(bytes: Seq<u8>)
    ensures
        percent_decode(percent_encode(bytes)) == bytes,
    decreases bytes.len(),
{
    if bytes.len() == 0 {
        assert(percent_decode(percent_encode(bytes)) =~= bytes);
    } else {
        let b = bytes[0];
        let rest = bytes.drop_first();
        let tail = percent_encode(rest);
        let s = percent_encode(bytes);
        lemma_decode_encode(rest);
        if is_unreserved(b) {
            let c = b as char;
            assert(s[0] == c);
            assert(s.drop_first() =~= tail);
            assert(!starts_with_escape(s));
            lemma_encode_ascii(c);
            assert(percent_decode(s) =~= bytes);
        } else {
            let hi = b as int / 16;
            let lo = b as int % 16;
            assert(s[0] == '%' && s[1] == hex_upper(hi) && s[2] == hex_upper(lo));
            assert(hex_value(hex_upper(hi)) == Some(hi));
            assert(hex_value(hex_upper(lo)) == Some(lo));
            assert(s.skip(3) =~= tail);
            assert(starts_with_escape(s));
            assert((16 * hi + lo) as u8 == b);
            assert(percent_decode(s) =~= bytes);
        }
    }
}

/// The characters that percent-encoding produces: ASCII letters and digits,
/// `-`, `.`, `_`, `~` and `%`.
pub open spec fn is_encoded_char(c: char) -> bool {
    ||| '0' <= c <= '9'
    ||| 'A' <= c <= 'Z'
    ||| 'a' <= c <= 'z'
    ||| c == '-'
    ||| c == '.'
    ||| c == '_'
    ||| c == '~'
    ||| c == '%'
}

/// Percent-encoding produces none but its own characters.
pub proof fn lemma_encoded_chars(bytes: Seq<u8>)
    ensures
        forall|i: int|
            0 <= i < percent_encode(bytes).len() ==> is_encoded_char(
                #[trigger] percent_encode(bytes)[i],
            ),
    decreases bytes.len(),
{
    if bytes.len() > 0 {
        let b = bytes[0];
        let head = encode_byte(b);
        let tail = percent_encode(bytes.drop_first());
        lemma_encoded_chars(bytes.drop_first());
        assert forall|i: int| 0 <= i < percent_encode(bytes).len() implies is_encoded_char(
            #[trigger] percent_encode(bytes)[i],
        ) by {
            if i < head.len() {
                assert(percent_encode(bytes)[i] == head[i]);
                if is_unreserved(b) {
                    assert(head[0] == b as char);
                } else {
                    assert(is_encoded_char(hex_upper(b as int / 16)));
                    assert(is_encoded_char(hex_upper(b as int % 16)));
                }
            } else {
                assert(percent_encode(bytes)[i] == tail[i - head.len()]);
            }
        }
    }
}

} // verus!

//! Printable renderings of bytes in ASCII.

use vstd::pervasive::unreached;
use vstd::prelude::*;
use vstd::utf8::*;
use crate::utf8::string_from_utf8;

verus! {

/// The lower-case hexadecimal digit of a value below sixteen.
pub open spec fn hex_digit(n: u8) -> u8 {
    if n < 10 {
        (48 + n) as u8
    } else {
        (87 + n) as u8
    }
}

/// The escaped form of one byte: a backslash and a letter for tab,
/// carriage return and line feed; a backslash before a quote, a double
/// quote and a backslash; the byte itself where it is printable; and else
/// `\x` with its two hexadecimal digits.
pub open spec fn escape_default(b: u8) -> Seq<u8> {
    if b == 9 {
        seq![92u8, 116u8]
    } else if b == 13 {
        seq![92u8, 114u8]
    } else if b == 10 {
        seq![92u8, 110u8]
    } else if b == 39 || b == 34 || b == 92 {
        seq![92u8, b]
    } else if 32 <= b <= 126 {
        seq![b]
    } else {
        seq![92u8, 120u8, hex_digit(b / 16), hex_digit(b % 16)]
    }
}

/// The escaped forms of the bytes, one after the other.
pub open spec fn escaped(bytes: Seq<u8>) -> Seq<u8>
    decreases bytes.len(),
{
    if bytes.len() == 0 {
        Seq::empty()
    } else {
        escaped(bytes.drop_last()) + escape_default(bytes.last())
    }
}

/// Every byte is below 128.
pub open spec fn is_ascii(bytes: Seq<u8>) -> bool {
    forall|i: int| 0 <= i < bytes.len() ==> bytes[i] < 128
}

/// The characters that ASCII bytes stand for.
pub open spec fn ascii_text(bytes: Seq<u8>) -> Seq<char> {
    Seq::new(bytes.len(), |i: int| bytes[i] as char)
}

/// Escaped bytes are ASCII.
pub proof fn lemma_escaped_is_ascii(bytes: Seq<u8>)
    ensures
        is_ascii(escaped(bytes)),
    decreases bytes.len(),
{
    if bytes.len() > 0 {
        lemma_escaped_is_ascii(bytes.drop_last());
    }
}

/// ASCII bytes are the UTF-8 encoding of the characters they stand for.
pub proof fn lemma_ascii_is_utf8(bytes: Seq<u8>)
    requires
        is_ascii(bytes),
    ensures
        valid_utf8(bytes),
        decode_utf8(bytes) == ascii_text(bytes),
{
    let chars = ascii_text(bytes);
    assert(is_ascii_chars(chars)) by {
        assert forall|i: int| 0 <= i < chars.len() implies '\0' <= #[trigger] chars[i]
            <= '\u{7f}' by {
            assert(bytes[i] < 128);
        }
    }
    is_ascii_chars_encode_utf8(chars);
    assert(encode_utf8(chars) =~= bytes) by {
        assert forall|i: int| 0 <= i < bytes.len() implies encode_utf8(chars)[i] == bytes[i] by {
            assert(chars[i] as u8 == encode_utf8(chars)[i]);
            assert(bytes[i] < 128);
        }
    }
    encode_utf8_valid_utf8(chars);
    encode_utf8_decode_utf8(chars);
}

fn hex(n: u8) -> (d: u8)
    requires
        n < 16,
    ensures
        d == hex_digit(n),
{
    if n < 10 {
        48 + n
    } else {
        87 + n
    }
}

/// Appends the escaped form of `b` to `out`.
pub fn push_escaped(out: &mut Vec<u8>, b: u8)
    ensures
        final(out)@ == old(out)@ + escape_default(b),
{
    if b == 9 {
        out.push(92);
        out.push(116);
    } else if b == 13 {
        out.push(92);
        out.push(114);
    } else if b == 10 {
        out.push(92);
        out.push(110);
    } else if b == 39 || b == 34 || b == 92 {
        out.push(92);
        out.push(b);
    } else if 32 <= b && b <= 126 {
        out.push(b);
    } else {
        out.push(92);
        out.push(120);
        out.push(hex(b / 16));
        out.push(hex(b % 16));
    }
    assert(out@ =~= old(out)@ + escape_default(b));
}

/// The text that ASCII bytes stand for.
pub fn string_from_ascii(bytes: Vec<u8>) -> (text: String)
    requires
        is_ascii(bytes@),
    ensures
        text@ == ascii_text(bytes@),
{
    proof {
        lemma_ascii_is_utf8(bytes@);
    }
    match string_from_utf8(bytes) {
        Ok(text) => text,
        Err(_) => unreached(),
    }
}

} // verus!

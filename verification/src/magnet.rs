//! The info hash as text: 40 lowercase hexadecimal digits, as magnet links
//! carry it.

use vstd::prelude::*;

verus! {

/// The lowercase hexadecimal digit for a value below 16.
pub open spec fn hex_digit(n: int) -> char {
    if n == 0 {
        '0'
    } else if n == 1 {
        '1'
    } else if n == 2 {
        '2'
    } else if n == 3 {
        '3'
    } else if n == 4 {
        '4'
    } else if n == 5 {
        '5'
    } else if n == 6 {
        '6'
    } else if n == 7 {
        '7'
    } else if n == 8 {
        '8'
    } else if n == 9 {
        '9'
    } else if n == 10 {
        'a'
    } else if n == 11 {
        'b'
    } else if n == 12 {
        'c'
    } else if n == 13 {
        'd'
    } else if n == 14 {
        'e'
    } else {
        'f'
    }
}

/// The value of a hexadecimal digit of either case; -1 for any other character.
pub open spec fn hex_value(c: char) -> int {
    if '0' <= c && c <= '9' {
        c as int - 48
    } else if 'a' <= c && c <= 'f' {
        c as int - 87
    } else if 'A' <= c && c <= 'F' {
        c as int - 55
    } else {
        -1
    }
}

/// Two lowercase hexadecimal digits for each byte, the high half first.
pub open spec fn hex_encoding(bytes: Seq<u8>) -> Seq<char> {
    Seq::new(
        2 * bytes.len(),
        |i: int|
            hex_digit(
                if i % 2 == 0 {
                    bytes[i / 2] as int / 16
                } else {
                    bytes[i / 2] as int % 16
                },
            ),
    )
}

/// An even number of hexadecimal digits.
pub open spec fn is_hex(text: Seq<char>) -> bool {
    text.len() % 2 == 0 && forall|i: int| 0 <= i < text.len() ==> hex_value(#[trigger] text[i]) >= 0
}

/// The bytes that pairs of hexadecimal digits stand for.
pub open spec fn hex_decoding(text: Seq<char>) -> Seq<u8> {
    Seq::new(
        text.len() / 2,
        |i: int| (hex_value(text[2 * i]) * 16 + hex_value(text[2 * i + 1])) as u8,
    )
}

/// A text that stands for an info hash: 40 hexadecimal digits.
pub open spec fn is_info_hash_text(text: Seq<char>) -> bool {
    text.len() == 40 && is_hex(text)
}

/// Calls `hex::encode`, which writes each byte as two digits taken from
/// `0123456789abcdef`, the high four bits first.
#[verifier::external_body]
pub(crate) fn hex_encode(bytes: &[u8]) -> (text: String)
    ensures
        text@ == hex_encoding(bytes@),
{
    hex::encode(bytes)
}

/// Calls `hex::decode`, which fails on an odd number of bytes and on any byte
/// that is no hexadecimal digit of either case, and else joins each pair of
/// digits into one byte.
#[verifier::external_body]
pub(crate) fn hex_decode(text: &str) -> (bytes: Option<Vec<u8>>)
    ensures
        bytes is Some <==> is_hex(text@),
        bytes is Some ==> bytes.unwrap()@ == hex_decoding(text@),
{
    hex::decode(text).ok()
}

/// Formats an info hash as 40 lowercase hexadecimal digits.
pub fn info_bytes_to_string(bytes: &[u8; 20]) -> (text: String)
    ensures
        text@ == hex_encoding(bytes@),
        text@.len() == 40,
{
    hex_encode(bytes.as_slice())
}

/// A magnet link for an info hash: the fixed prefix and the 40 digits.
pub open spec fn magnet_link_text(bytes: Seq<u8>) -> Seq<char> {
    "magnet:?xt=urn:btih:"@ + hex_encoding(bytes)
}

/// Builds the magnet link that names the content by its info hash.
pub fn magnet_link(info_hash: &[u8; 20]) -> (link: String)
    ensures
        link@ == magnet_link_text(info_hash@),
{
    let digits = info_bytes_to_string(info_hash);
    let mut link = "magnet:?xt=urn:btih:".to_owned();
    link.append(digits.as_str());
    link
}

/// Reads an info hash from text, if the text is 40 hexadecimal digits.
pub fn parse_info_hash(text: &str) -> (r: Option<[u8; 20]>)
    ensures
        r is Some <==> is_info_hash_text(text@),
        r is Some ==> r.unwrap()@ == hex_decoding(text@),
{
    match hex_decode(text) {
        Some(bytes) => {
            if bytes.len() != 20 {
                return None;
            }
            let mut out: [u8; 20] = [0u8; 20];
            let mut i: usize = 0;
            while i < 20
                invariant
                    i <= 20,
                    bytes@.len() == 20,
                    forall|j: int| 0 <= j < i ==> out@[j] == bytes@[j],
                decreases 20 - i,
            {
                out.set(i, bytes[i]);
                i += 1;
            }
            proof {
                assert(out@ =~= bytes@);
            }
            Some(out)
        },
        None => None,
    }
}

/// Reads an info hash from its 40 hexadecimal digits.
pub fn info_str_to_bytes(info_hash: &str) -> (bytes: [u8; 20])
    requires
        is_info_hash_text(info_hash@),
    ensures
        bytes@ == hex_decoding(info_hash@),
{
    match parse_info_hash(info_hash) {
        Some(bytes) => bytes,
        None => [0u8; 20],
    }
}

/// Each hexadecimal digit has the value that it was made from.
pub proof fn lemma_hex_digit_value(n: int)
    requires
        0 <= n < 16,
    ensures
        hex_value(hex_digit(n)) == n,
{
}

/// Formatting an info hash and reading the text back gives the same 20 bytes.
pub proof fn lemma_hash_round_trip(h: Seq<u8>)
    requires
        h.len() == 20,
    ensures
        is_info_hash_text(hex_encoding(h)),
        hex_decoding(hex_encoding(h)) == h,
{
    let text = hex_encoding(h);
    assert forall|i: int| 0 <= i < text.len() implies hex_value(#[trigger] text[i]) >= 0 by {
        if i % 2 == 0 {
            lemma_hex_digit_value(h[i / 2] as int / 16);
        } else {
            lemma_hex_digit_value(h[i / 2] as int % 16);
        }
    }
    assert forall|i: int| 0 <= i < h.len() implies hex_decoding(text)[i] == h[i] by {
        lemma_hex_digit_value(h[i] as int / 16);
        lemma_hex_digit_value(h[i] as int % 16);
        assert(text[2 * i] == hex_digit(h[i] as int / 16));
        assert(text[2 * i + 1] == hex_digit(h[i] as int % 16));
    }
    assert(hex_decoding(text) =~= h);
}

} // verus!

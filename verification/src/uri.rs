//! Percent-decoding of the URIs that SARIF reports name files by.
use vstd::prelude::*;
use crate::report::{upper_hex_digit, uri_byte, uri_char, uri_encoded, uri_safe, lemma_uri_chars};
use crate::text::forward_slashes;
use vstd::utf8::{decode_utf8, encode_utf8};

verus! {

/// The value of an upper-case hexadecimal digit.
pub open spec fn hex_value(c: char) -> nat {
    if '0' <= c && c <= '9' {
        (c as u32 - '0' as u32) as nat
    } else if 'A' <= c && c <= 'F' {
        (c as u32 - 'A' as u32 + 10) as nat
    } else {
        0
    }
}

/// Percent-decoding: `%` and two hexadecimal digits stand for the byte they
/// write, any other character for itself.
pub open spec fn uri_decoded(s: Seq<char>) -> Seq<u8>
    decreases s.len(),
{
    if s.len() == 0 {
        Seq::empty()
    } else if s[0] == '%' && s.len() >= 3 {
        seq![(hex_value(s[1]) * 16 + hex_value(s[2])) as u8] + uri_decoded(s.skip(3))
    } else {
        seq![s[0] as u8] + uri_decoded(s.skip(1))
    }
}

proof fn lemma_hex_digit_value(d: nat)
    requires
        d < 16,
    ensures
        hex_value(upper_hex_digit(d)) == d,
{
}

proof fn lemma_encoded_front(bytes: Seq<u8>)
    requires
        bytes.len() > 0,
    ensures
        uri_encoded(bytes) == uri_byte(bytes[0]) + uri_encoded(bytes.skip(1)),
    decreases bytes.len(),
{
    let d = bytes.drop_last();
    if d.len() > 0 {
        lemma_encoded_front(d);
        assert(bytes.skip(1).drop_last() =~= d.skip(1));
        assert(bytes.skip(1).last() == bytes.last());
        assert(uri_encoded(bytes.skip(1)) == uri_encoded(d.skip(1)) + uri_byte(bytes.last()));
        assert(uri_encoded(bytes) =~= uri_byte(bytes[0]) + uri_encoded(bytes.skip(1)));
    } else {
        assert(bytes.skip(1) =~= Seq::<u8>::empty());
        assert(uri_encoded(d) =~= Seq::<char>::empty());
        assert(bytes.last() == bytes[0]);
        assert(uri_encoded(bytes) == uri_encoded(d) + uri_byte(bytes.last()));
        assert(uri_encoded(bytes) =~= uri_byte(bytes[0]) + uri_encoded(bytes.skip(1)));
    }
}

proof fn lemma_decode_piece(b: u8, rest: Seq<char>)
    ensures
        uri_decoded(uri_byte(b) + rest) == seq![b] + uri_decoded(rest),
{
    let s = uri_byte(b) + rest;
    if uri_safe(b) {
        assert(s[0] == b as char);
        assert(s.skip(1) =~= rest);
    } else {
        lemma_hex_digit_value((b / 16) as nat);
        lemma_hex_digit_value((b % 16) as nat);
        assert(s[0] == '%' && s[1] == upper_hex_digit((b / 16) as nat) && s[2] == upper_hex_digit((b % 16) as nat));
        assert(s.skip(3) =~= rest);
    }
}

/// Decoding a SARIF URI gives back the bytes it was made from, the UTF-8
/// bytes of the path with forward slashes.
pub proof fn lemma_uri_decodes_back(bytes: Seq<u8>)
    ensures
        uri_decoded(uri_encoded(bytes)) == bytes,
    decreases bytes.len(),
{
    if bytes.len() > 0 {
        lemma_encoded_front(bytes);
        lemma_uri_decodes_back(bytes.skip(1));
        lemma_decode_piece(bytes[0], uri_encoded(bytes.skip(1)));
        assert(seq![bytes[0]] + bytes.skip(1) =~= bytes);
    } else {
        assert(uri_encoded(bytes) =~= Seq::<char>::empty());
    }
}

/// An upper-case hexadecimal digit.
pub open spec fn hex_upper_char(c: char) -> bool {
    ('0' <= c && c <= '9') || ('A' <= c && c <= 'F')
}

/// A character that a SARIF URI holds as itself: an ASCII letter or digit,
/// or one of `/-_.~`.
pub open spec fn unreserved(c: char) -> bool {
    ('0' <= c && c <= '9') || ('A' <= c && c <= 'Z') || ('a' <= c && c <= 'z')
        || c == '/' || c == '-' || c == '_' || c == '.' || c == '~'
}

/// Each `%` of the text begins an escape of two upper-case hexadecimal
/// digits, and every other character is unreserved.
pub open spec fn well_escaped(s: Seq<char>) -> bool
    decreases s.len(),
{
    if s.len() == 0 {
        true
    } else if s[0] == '%' {
        s.len() >= 3 && hex_upper_char(s[1]) && hex_upper_char(s[2]) && well_escaped(s.skip(3))
    } else {
        unreserved(s[0]) && well_escaped(s.skip(1))
    }
}

proof fn lemma_escaped_piece(b: u8, rest: Seq<char>)
    requires
        well_escaped(rest),
    ensures
        well_escaped(uri_byte(b) + rest),
{
    let s = uri_byte(b) + rest;
    if uri_safe(b) {
        assert(s[0] == b as char);
        assert(s.skip(1) =~= rest);
    } else {
        assert(s[0] == '%' && s[1] == upper_hex_digit((b / 16) as nat) && s[2] == upper_hex_digit((b % 16) as nat));
        assert(s.skip(3) =~= rest);
    }
}

/// A SARIF URI is well escaped, whatever bytes it is made from.
pub proof fn lemma_uri_well_escaped(bytes: Seq<u8>)
    ensures
        well_escaped(uri_encoded(bytes)),
    decreases bytes.len(),
{
    if bytes.len() > 0 {
        lemma_encoded_front(bytes);
        lemma_uri_well_escaped(bytes.skip(1));
        lemma_escaped_piece(bytes[0], uri_encoded(bytes.skip(1)));
    } else {
        assert(uri_encoded(bytes) =~= Seq::<char>::empty());
    }
}

/// The URI that SARIF names a file by (`sarif_uri`) holds only ASCII
/// letters, digits, `/-_.~` and `%` escapes of two upper-case hexadecimal
/// digits, and percent-decoding it gives back the UTF-8 bytes of the path
/// with forward slashes, and so the path.
pub proof fn lemma_sarif_uri_decodes(path: Seq<char>)
    ensures
        well_escaped(uri_encoded(encode_utf8(forward_slashes(path)))),
        forall|i: int| 0 <= i < uri_encoded(encode_utf8(forward_slashes(path))).len()
            ==> uri_char(#[trigger] uri_encoded(encode_utf8(forward_slashes(path)))[i]),
        uri_decoded(uri_encoded(encode_utf8(forward_slashes(path)))) == encode_utf8(forward_slashes(path)),
        decode_utf8(uri_decoded(uri_encoded(encode_utf8(forward_slashes(path))))) == forward_slashes(path),
{
    lemma_uri_chars(encode_utf8(forward_slashes(path)));
    lemma_uri_well_escaped(encode_utf8(forward_slashes(path)));
    lemma_uri_decodes_back(encode_utf8(forward_slashes(path)));
    vstd::utf8::encode_utf8_decode_utf8(forward_slashes(path));
}

} // verus!

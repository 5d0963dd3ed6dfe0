//! Light obfuscation of stored coordinates: the UTF-8 bytes are XORed with
//! a fixed key and written as standard base64. This hides values from a
//! casual look; it is not encryption.
use base64::{Engine as _, engine::general_purpose};
use vstd::prelude::*;
use vstd::utf8::{decode_utf8, encode_utf8, valid_utf8, encode_utf8_decode_utf8, encode_utf8_valid_utf8};

verus! {

/// The key, the bytes of "khushu-prayer-times-app-privacy-key".
pub open spec fn obfuscation_key() -> Seq<u8> {
    seq![
        107u8, 104u8, 117u8, 115u8, 104u8, 117u8, 45u8, 112u8, 114u8, 97u8, 121u8, 101u8, 114u8,
        45u8, 116u8, 105u8, 109u8, 101u8, 115u8, 45u8, 97u8, 112u8, 112u8, 45u8, 112u8, 114u8,
        105u8, 118u8, 97u8, 99u8, 121u8, 45u8, 107u8, 101u8, 121u8,
    ]
}

fn key_bytes() -> (k: Vec<u8>)
    ensures
        k@ == obfuscation_key(),
{
    let k = vec![
        107u8, 104u8, 117u8, 115u8, 104u8, 117u8, 45u8, 112u8, 114u8, 97u8, 121u8, 101u8, 114u8,
        45u8, 116u8, 105u8, 109u8, 101u8, 115u8, 45u8, 97u8, 112u8, 112u8, 45u8, 112u8, 114u8,
        105u8, 118u8, 97u8, 99u8, 121u8, 45u8, 107u8, 101u8, 121u8,
    ];
    assert(k@ =~= obfuscation_key());
    k
}

/// Each byte of `b` XORed with the key byte at its position modulo the
/// key's length.
pub open spec fn xor_with_key(b: Seq<u8>) -> Seq<u8> {
    Seq::new(b.len(), |i: int| b[i] ^ obfuscation_key()[i % obfuscation_key().len() as int])
}

/// The standard-alphabet, padded base64 text of `bytes`.
pub uninterp spec fn base64_standard(bytes: Seq<u8>) -> Seq<char>;

/// The bytes that standard, padded base64 decoding gives for `text`, or
/// `None` where the decoder rejects it.
pub uninterp spec fn base64_standard_decoded(text: Seq<char>) -> Option<Seq<u8>>;

/// Encodes with base64's `general_purpose::STANDARD.encode`. Claims the
/// named text, and that decoding it with the same engine gives the bytes
/// back (base64 is a bijection between byte strings and canonical padded
/// texts), and that the text has four characters for every three bytes or
/// part of three (the standard engine pads). The engine panics when the
/// encoded length overflows `usize`.
#[verifier::external_body]
fn base64_encode(bytes: &[u8]) -> (s: String)
    requires
        bytes@.len() / 3 * 4 + 4 <= usize::MAX,
    ensures
        s@ == base64_standard(bytes@),
        base64_standard_decoded(s@) == Some(bytes@),
        s@.len() == (bytes@.len() + 2) / 3 * 4,
{
    general_purpose::STANDARD.encode(bytes)
}

/// Decodes with base64's `general_purpose::STANDARD.decode`; the error is
/// the decoder's message. Claims the named outcome for this text.
#[verifier::external_body]
fn base64_decode(text: &str) -> (r: Result<Vec<u8>, String>)
    ensures
        match r {
            Ok(b) => base64_standard_decoded(text@) == Some(b@),
            Err(_) => base64_standard_decoded(text@) is None,
        },
{
    match general_purpose::STANDARD.decode(text) {
        Ok(b) => Ok(b),
        Err(e) => Err(e.to_string()),
    }
}

/// Builds a `String` from bytes with std's `String::from_utf8`; the error
/// is std's message. Claims success exactly on valid UTF-8, with the
/// decoded characters.
#[verifier::external_body]
fn string_from_utf8(bytes: Vec<u8>) -> (r: Result<String, String>)
    ensures
        match r {
            Ok(s) => valid_utf8(bytes@) && s@ == decode_utf8(bytes@),
            Err(_) => !valid_utf8(bytes@),
        },
{
    match String::from_utf8(bytes) {
        Ok(s) => Ok(s),
        Err(e) => Err(e.to_string()),
    }
}

/// XORs `input` with the key.
fn xor_bytes(input: &[u8]) -> (out: Vec<u8>)
    ensures
        out@ == xor_with_key(input@),
{
    let key = key_bytes();
    let n = key.len();
    let mut out: Vec<u8> = Vec::new();
    let mut i: usize = 0;
    while i < input.len()
        invariant
            key@ == obfuscation_key(),
            n == key@.len(),
            i <= input@.len(),
            out@ =~= xor_with_key(input@).take(i as int),
        decreases input@.len() - i,
    {
        out.push(input[i] ^ key[i % n]);
        i = i + 1;
    }
    out
}

/// XORing with the key twice gives the bytes back.
pub proof fn lemma_xor_involution(b: Seq<u8>)
    ensures
        xor_with_key(xor_with_key(b)) == b,
{
    let x = xor_with_key(b);
    assert forall|i: int| 0 <= i < b.len() implies #[trigger] xor_with_key(x)[i] == b[i] by {
        let k = obfuscation_key()[i % obfuscation_key().len() as int];
        let v = b[i];
        assert((v ^ k) ^ k == v) by (bit_vector);
    }
    assert(xor_with_key(x) =~= b);
}

/// Deobfuscation's own steps undo obfuscation's: the bytes obfuscation
/// encodes for `data`, XORed with the key again and read as UTF-8, are
/// valid UTF-8 and give `data` back.
pub proof fn lemma_unmixing_restores_text(data: Seq<char>, mixed: Seq<u8>)
    requires
        mixed == xor_with_key(encode_utf8(data)),
    ensures
        valid_utf8(xor_with_key(mixed)),
        decode_utf8(xor_with_key(mixed)) == data,
{
    lemma_xor_involution(encode_utf8(data));
    encode_utf8_valid_utf8(data);
    encode_utf8_decode_utf8(data);
}

/// What deobfuscating `text` gives: the base64 bytes XORed with the key,
/// read as UTF-8; `None` where the text is not base64 or the bytes are not
/// UTF-8.
pub open spec fn deobfuscated(text: Seq<char>) -> Option<Seq<char>> {
    match base64_standard_decoded(text) {
        Some(b) => if valid_utf8(xor_with_key(b)) {
            Some(decode_utf8(xor_with_key(b)))
        } else {
            None
        },
        None => None,
    }
}

/// UTF-8 takes at least one byte per character.
proof fn lemma_utf8_not_shorter(chars: Seq<char>)
    ensures
        encode_utf8(chars).len() >= chars.len(),
    decreases chars.len(),
{
    if chars.len() > 0 {
        lemma_utf8_not_shorter(chars.drop_first());
    }
}

/// A padded base64 text is longer than the bytes it holds, unless empty.
proof fn lemma_padded_longer(n: int)
    requires
        n >= 1,
    ensures
        (n + 2) / 3 * 4 > n,
{
    let q = (n + 2) / 3;
    vstd::arithmetic::div_mod::lemma_fundamental_div_mod(n + 2, 3);
    vstd::arithmetic::div_mod::lemma_mod_bound(n + 2, 3);
    assert(3 * q >= n);
    assert(q >= 1);
    assert(q * 4 == 3 * q + q);
}

/// Obfuscates `data`: its UTF-8 bytes XORed with the key, in base64. It
/// never fails, deobfuscating the result gives `data` back, and a
/// non-empty text never comes out as itself.
pub fn obfuscate(data: &str) -> (r: Result<String, String>)
    requires
        encode_utf8(data@).len() / 3 * 4 + 4 <= usize::MAX,
    ensures
        match r {
            Ok(s) => s@ == base64_standard(xor_with_key(encode_utf8(data@))) && deobfuscated(s@)
                == Some(data@) && (data@.len() > 0 ==> s@ != data@),
            Err(_) => false,
        },
{
    let mixed = xor_bytes(data.as_bytes());
    let encoded = base64_encode(mixed.as_slice());
    proof {
        lemma_unmixing_restores_text(data@, mixed@);
        lemma_utf8_not_shorter(data@);
        if data@.len() > 0 {
            lemma_padded_longer(mixed@.len() as int);
            assert(encoded@.len() != data@.len());
        }
    }
    Ok(encoded)
}

/// Reverses `obfuscate`: decodes base64, XORs with the key and reads the
/// bytes as UTF-8. Fails, with the decoder's or std's message, exactly
/// where `deobfuscated` is `None`.
pub fn deobfuscate(encoded: &str) -> (r: Result<String, String>)
    ensures
        match r {
            Ok(s) => deobfuscated(encoded@) == Some(s@),
            Err(_) => deobfuscated(encoded@) is None,
        },
{
    let decoded = match base64_decode(encoded) {
        Ok(b) => b,
        Err(e) => {
            return Err(e);
        },
    };
    let output = xor_bytes(decoded.as_slice());
    string_from_utf8(output)
}

} // verus!

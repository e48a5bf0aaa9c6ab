//! Cache keys: a fixed-length digest of the three fields of a request.
//!
//! The digest is MD5, computed by the `md5` crate behind the trusted items
//! at the end of this file, and written as 32 lower-case hexadecimal digits.

use vstd::prelude::*;
use vstd::string::StringExecFns;
use vstd::utf8::{encode_utf8, encode_utf8_decode_utf8};
use crate::text::{append_decimal, decimal, lemma_decimal_digits, lemma_decimal_injective};

verus! {

/// The text of an optional source language: empty where there is none.
pub open spec fn source_text(source: Option<&str>) -> Seq<char> {
    match source {
        Some(language) => language@,
        None => Seq::empty(),
    }
}

/// The text that is hashed for a request: the source language, the target
/// language and the text, with a bar behind each language, and before each
/// language the number of its characters and a bar. The numbers tell where
/// a language ends, so that no two requests are hashed from the same text.
pub open spec fn key_material(text: Seq<char>, source: Seq<char>, target: Seq<char>) -> Seq<char> {
    decimal(source.len()) + seq!['|'] + source + seq!['|'] + decimal(target.len()) + seq!['|']
        + target + seq!['|'] + text
}

/// The hexadecimal digit for a value below sixteen.
pub open spec fn hex_digit(nibble: u8) -> char {
    if nibble < 10 {
        (48 + nibble) as char
    } else {
        (87 + nibble) as char
    }
}

/// `bytes` in lower-case hexadecimal, two digits for each byte.
pub open spec fn hex_text(bytes: Seq<u8>) -> Seq<char> {
    Seq::new(
        2 * bytes.len(),
        |i: int|
            if i % 2 == 0 {
                hex_digit(bytes[i / 2] / 16)
            } else {
                hex_digit(bytes[i / 2] % 16)
            },
    )
}

/// The cache key of a request: the MD5 digest of the UTF-8 bytes of its key
/// material, in hexadecimal.
pub open spec fn cache_key(text: Seq<char>, source: Seq<char>, target: Seq<char>) -> Seq<char> {
    hex_text(md5_digest(encode_utf8(key_material(text, source, target))))
}

fn hex_char(nibble: u8) -> (digit: char)
    requires
        nibble < 16,
    ensures
        digit == hex_digit(nibble),
{
    if nibble < 10 {
        (48 + nibble) as char
    } else {
        (87 + nibble) as char
    }
}

/// `bytes` in lower-case hexadecimal.
pub fn hex_lower(bytes: &[u8; 16]) -> (text: String)
    ensures
        text@ == hex_text(bytes@),
        text@.len() == 32,
{
    let mut text = String::new();
    let mut i: usize = 0;
    while i < 16
        invariant
            i <= 16,
            bytes@.len() == 16,
            text@.len() == 2 * i,
            forall|j: int| 0 <= j < 2 * i ==> text@[j] == hex_text(bytes@)[j],
        decreases 16 - i,
    {
        let byte: u8 = bytes[i];
        text.push(hex_char(byte / 16));
        text.push(hex_char(byte % 16));
        i += 1;
    }
    assert(text@ =~= hex_text(bytes@));
    text
}

/// Different digits stand for different values.
pub proof fn lemma_hex_digit_injective(a: u8, b: u8)
    requires
        a < 16,
        b < 16,
        hex_digit(a) == hex_digit(b),
    ensures
        a == b,
{
    assert(hex_digit(a) as u8 == if a < 10 { 48 + a } else { 87 + a });
    assert(hex_digit(b) as u8 == if b < 10 { 48 + b } else { 87 + b });
}

/// Different byte sequences are written differently.
pub proof fn lemma_hex_text_injective(a: Seq<u8>, b: Seq<u8>)
    requires
        hex_text(a) == hex_text(b),
    ensures
        a == b,
{
    assert(hex_text(a).len() == 2 * a.len());
    assert(hex_text(b).len() == 2 * b.len());
    assert forall|k: int| 0 <= k < a.len() implies a[k] == b[k] by {
        assert(hex_text(a)[2 * k] == hex_digit(a[k] / 16));
        assert(hex_text(b)[2 * k] == hex_digit(b[k] / 16));
        assert(hex_text(a)[2 * k + 1] == hex_digit(a[k] % 16));
        assert(hex_text(b)[2 * k + 1] == hex_digit(b[k] % 16));
        lemma_hex_digit_injective(a[k] / 16, b[k] / 16);
        lemma_hex_digit_injective(a[k] % 16, b[k] % 16);
    }
    assert(a =~= b);
}

/// Two requests have the same key exactly where MD5 gives what is hashed for
/// them the same digest.
pub proof fn lemma_same_key_same_digest(
    text1: Seq<char>,
    source1: Seq<char>,
    target1: Seq<char>,
    text2: Seq<char>,
    source2: Seq<char>,
    target2: Seq<char>,
)
    ensures
        cache_key(text1, source1, target1) == cache_key(text2, source2, target2) <==> md5_digest(
            encode_utf8(key_material(text1, source1, target1)),
        ) == md5_digest(encode_utf8(key_material(text2, source2, target2))),
{
    if cache_key(text1, source1, target1) == cache_key(text2, source2, target2) {
        lemma_hex_text_injective(
            md5_digest(encode_utf8(key_material(text1, source1, target1))),
            md5_digest(encode_utf8(key_material(text2, source2, target2))),
        );
    }
}

/// A number, a bar and a text of that many characters in front of `rest1`
/// is the same in front of `rest2` only for the same text and the same rest.
proof fn lemma_counted_prefix(
    field1: Seq<char>,
    rest1: Seq<char>,
    field2: Seq<char>,
    rest2: Seq<char>,
)
    requires
        decimal(field1.len()) + seq!['|'] + field1 + rest1 == decimal(field2.len()) + seq!['|']
            + field2 + rest2,
    ensures
        field1 == field2,
        rest1 == rest2,
{
    let d1 = decimal(field1.len());
    let d2 = decimal(field2.len());
    let m1 = d1 + seq!['|'] + field1 + rest1;
    let m2 = d2 + seq!['|'] + field2 + rest2;
    lemma_decimal_digits(field1.len());
    lemma_decimal_digits(field2.len());
    let a = d1.len() as int;
    let b = d2.len() as int;
    assert(m1[a] == '|');
    assert(m2[b] == '|');
    if a < b {
        assert(m2[a] == d2[a]);
    }
    if b < a {
        assert(m1[b] == d1[b]);
    }
    assert(d1 =~= m1.take(a));
    assert(d2 =~= m2.take(b));
    lemma_decimal_injective(field1.len(), field2.len());
    let n = field1.len() as int;
    assert(field1 =~= m1.subrange(a + 1, a + 1 + n));
    assert(field2 =~= m2.subrange(b + 1, b + 1 + n));
    assert(rest1 =~= m1.skip(a + 1 + n));
    assert(rest2 =~= m2.skip(b + 1 + n));
}

/// Requests that differ in a field are hashed from different bytes.
pub proof fn lemma_key_material_injective(
    text1: Seq<char>,
    source1: Seq<char>,
    target1: Seq<char>,
    text2: Seq<char>,
    source2: Seq<char>,
    target2: Seq<char>,
)
    requires
        text1 != text2 || source1 != source2 || target1 != target2,
    ensures
        key_material(text1, source1, target1) != key_material(text2, source2, target2),
        encode_utf8(key_material(text1, source1, target1)) != encode_utf8(
            key_material(text2, source2, target2),
        ),
{
    let m1 = key_material(text1, source1, target1);
    let m2 = key_material(text2, source2, target2);
    encode_utf8_decode_utf8(m1);
    encode_utf8_decode_utf8(m2);
    if m1 == m2 {
        let bar = seq!['|'];
        let tail1 = bar + decimal(target1.len()) + bar + target1 + bar + text1;
        let tail2 = bar + decimal(target2.len()) + bar + target2 + bar + text2;
        assert(m1 =~= decimal(source1.len()) + bar + source1 + tail1);
        assert(m2 =~= decimal(source2.len()) + bar + source2 + tail2);
        lemma_counted_prefix(source1, tail1, source2, tail2);
        let inner1 = decimal(target1.len()) + bar + target1 + (bar + text1);
        let inner2 = decimal(target2.len()) + bar + target2 + (bar + text2);
        assert(inner1 =~= tail1.skip(1));
        assert(inner2 =~= tail2.skip(1));
        lemma_counted_prefix(target1, bar + text1, target2, bar + text2);
        assert(text1 =~= (bar + text1).skip(1));
        assert(text2 =~= (bar + text2).skip(1));
    }
}

/// Requests that differ in a field share a key only by a collision of MD5:
/// they are hashed from different bytes, and their keys are the same only
/// where MD5 gives those bytes the same digest.
pub proof fn lemma_shared_key_is_collision(
    text1: Seq<char>,
    source1: Seq<char>,
    target1: Seq<char>,
    text2: Seq<char>,
    source2: Seq<char>,
    target2: Seq<char>,
)
    requires
        text1 != text2 || source1 != source2 || target1 != target2,
        cache_key(text1, source1, target1) == cache_key(text2, source2, target2),
    ensures
        encode_utf8(key_material(text1, source1, target1)) != encode_utf8(
            key_material(text2, source2, target2),
        ),
        md5_digest(encode_utf8(key_material(text1, source1, target1))) == md5_digest(
            encode_utf8(key_material(text2, source2, target2)),
        ),
{
    lemma_key_material_injective(text1, source1, target1, text2, source2, target2);
    lemma_same_key_same_digest(text1, source1, target1, text2, source2, target2);
}

/// The cache key of a request, from its text as it came and its languages.
/// The same three fields always give the same key, of 32 characters; a
/// missing source language counts as an empty one.
pub fn build_cache_key(text: &str, source: Option<&str>, target: &str) -> (key: String)
    ensures
        key@ == cache_key(text@, source_text(source), target@),
        key@.len() == 32,
{
    let language: &str = match source {
        Some(language) => language,
        None => "",
    };
    proof {
        reveal_strlit("|");
        reveal_strlit("");
        assert("|"@ =~= seq!['|']);
        assert(language@ =~= source_text(source));
    }
    let mut base = String::new();
    append_decimal(&mut base, language.unicode_len() as u64);
    base.append("|");
    base.append(language);
    base.append("|");
    append_decimal(&mut base, target.unicode_len() as u64);
    base.append("|");
    base.append(target);
    base.append("|");
    base.append(text);
    assert(base@ =~= key_material(text@, source_text(source), target@));
    let digest = md5_compute(base.as_str().as_bytes());
    hex_lower(&digest)
}

/// The MD5 digest of `data`. This names the bytes of what `md5::compute`
/// returns for `data`.
pub uninterp spec fn md5_digest(data: Seq<u8>) -> Seq<u8>;

/// Calls `md5::compute` and takes the sixteen bytes out of the `Digest`.
/// Trusted: they depend on the data alone, so they are what `md5_digest`
/// names for it.
#[verifier::external_body]
fn md5_compute(data: &[u8]) -> (digest: [u8; 16])
    ensures
        digest@ == md5_digest(data@),
{
    md5::compute(data).0
}

} // verus!

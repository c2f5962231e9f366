//! Digests and text encodings of bytes.
use vstd::prelude::*;

verus! {

/// What `Sha256::digest` makes of bytes.
pub uninterp spec fn sha256_of(data: Seq<u8>) -> Seq<u8>;

/// `sha2::Sha256::digest`: the SHA-256 of `data`, 32 bytes.
#[verifier::external_body]
pub(crate) fn sha256(data: &[u8]) -> (hash: Vec<u8>)
    ensures
        hash@ == sha256_of(data@),
        hash@.len() == 32,
{
    <sha2::Sha256 as sha2::Digest>::digest(data).to_vec()
}

/// What `Md5::digest` makes of bytes.
pub uninterp spec fn md5_of(data: Seq<u8>) -> Seq<u8>;

/// `md5::Md5::digest`: the MD5 of `data`, 16 bytes.
#[verifier::external_body]
pub(crate) fn md5_digest(data: &[u8]) -> (hash: Vec<u8>)
    ensures
        hash@ == md5_of(data@),
        hash@.len() == 16,
{
    <md5::Md5 as md5::Digest>::digest(data).to_vec()
}

/// The lower-case hexadecimal digit of a value below sixteen.
pub open spec fn hex_digit(n: int) -> char {
    if n < 10 {
        (48 + n) as char
    } else {
        (87 + n) as char
    }
}

/// Bytes in lower-case hexadecimal, two digits each.
pub open spec fn hex_text(data: Seq<u8>) -> Seq<char> {
    Seq::new(
        2 * data.len(),
        |i: int|
            if i % 2 == 0 {
                hex_digit(data[i / 2] as int / 16)
            } else {
                hex_digit(data[i / 2] as int % 16)
            },
    )
}

/// `hex::encode`: two lower-case hexadecimal digits for each byte, the high half
/// first.
#[verifier::external_body]
pub(crate) fn hex_encode(data: &[u8]) -> (s: String)
    ensures
        s@ == hex_text(data@),
{
    hex::encode(data)
}

/// The character of a six-bit value in the standard base64 alphabet.
pub open spec fn base64_char(n: int) -> char {
    if n < 26 {
        (65 + n) as char
    } else if n < 52 {
        (97 + (n - 26)) as char
    } else if n < 62 {
        (48 + (n - 52)) as char
    } else if n == 62 {
        '+'
    } else {
        '/'
    }
}

/// A byte, or zero past the end.
pub open spec fn byte_or_zero(data: Seq<u8>, i: int) -> int {
    if i < data.len() {
        data[i] as int
    } else {
        0
    }
}

/// The 24 bits of the group of three bytes that begins at an index.
pub open spec fn three_bytes(data: Seq<u8>, i: int) -> int {
    byte_or_zero(data, i) * 65536 + byte_or_zero(data, i + 1) * 256 + byte_or_zero(data, i + 2)
}

/// Bytes in standard base64: four characters for each group of three bytes, padded
/// with `=`.
pub open spec fn base64_text(data: Seq<u8>) -> Seq<char> {
    Seq::new(
        4 * ((data.len() + 2) / 3),
        |i: int|
            {
                let start = 3 * (i / 4);
                let bits = three_bytes(data, start);
                if i % 4 == 0 {
                    base64_char(bits / 262144)
                } else if i % 4 == 1 {
                    base64_char((bits / 4096) % 64)
                } else if i % 4 == 2 {
                    if start + 1 < data.len() {
                        base64_char((bits / 64) % 64)
                    } else {
                        '='
                    }
                } else {
                    if start + 2 < data.len() {
                        base64_char(bits % 64)
                    } else {
                        '='
                    }
                }
            },
    )
}

/// `base64::engine::general_purpose::STANDARD.encode`: the standard alphabet with
/// padding.
#[verifier::external_body]
pub(crate) fn base64_encode(data: &[u8]) -> (s: String)
    ensures
        s@ == base64_text(data@),
{
    base64::Engine::encode(&base64::engine::general_purpose::STANDARD, data)
}

// ── Laws ─────────────────────────────────────────────────────────────────────

/// The value of a hexadecimal digit in lower case.
pub open spec fn hex_value(c: char) -> int {
    if '0' <= c <= '9' {
        c as int - '0' as int
    } else if 'a' <= c <= 'f' {
        c as int - 'a' as int + 10
    } else {
        -1
    }
}

/// Hexadecimal text reads back as the bytes it was made of, two digits each with the
/// higher one first.
pub proof fn law_hex_reads_back(data: Seq<u8>, i: int)
    requires
        0 <= i < data.len(),
    ensures
        hex_text(data).len() == 2 * data.len(),
        16 * hex_value(hex_text(data)[2 * i]) + hex_value(hex_text(data)[2 * i + 1]) == data[i],
        hex_value(hex_text(data)[2 * i]) >= 0,
        0 <= hex_value(hex_text(data)[2 * i + 1]) < 16,
{
    assert((2 * i) / 2 == i && (2 * i) % 2 == 0 && (2 * i + 1) / 2 == i && (2 * i + 1) % 2 == 1);
    lemma_hex_value(data[i] as int / 16);
    lemma_hex_value(data[i] as int % 16);
}

proof fn lemma_hex_value(n: int)
    requires
        0 <= n < 16,
    ensures
        hex_value(hex_digit(n)) == n,
{
}

/// The value of a character of base64.
pub open spec fn base64_value(c: char) -> int {
    if 'A' <= c <= 'Z' {
        c as int - 'A' as int
    } else if 'a' <= c <= 'z' {
        c as int - 'a' as int + 26
    } else if '0' <= c <= '9' {
        c as int - '0' as int + 52
    } else if c == '+' {
        62
    } else if c == '/' {
        63
    } else {
        -1
    }
}

proof fn lemma_base64_value(n: int)
    requires
        0 <= n < 64,
    ensures
        base64_value(base64_char(n)) == n,
        base64_char(n) != '=',
{
}

/// In base64 four characters read back as the three bytes they were made of, the first
/// character highest.
pub proof fn law_base64_reads_back(data: Seq<u8>, k: int)
    requires
        0 <= k,
        3 * k + 2 < data.len(),
    ensures
        base64_text(data).len() == 4 * ((data.len() + 2) / 3),
        262144 * base64_value(base64_text(data)[4 * k]) + 4096 * base64_value(
            base64_text(data)[4 * k + 1],
        ) + 64 * base64_value(base64_text(data)[4 * k + 2]) + base64_value(
            base64_text(data)[4 * k + 3],
        ) == 65536 * data[3 * k] + 256 * data[3 * k + 1] + data[3 * k + 2],
{
    let bits = three_bytes(data, 3 * k);
    let n = 4 * k;
    assert(n / 4 == k && n % 4 == 0 && (n + 1) / 4 == k && (n + 1) % 4 == 1 && (n + 2) / 4 == k && (
    n + 2) % 4 == 2 && (n + 3) / 4 == k && (n + 3) % 4 == 3);
    assert(4 * k + 3 < 4 * ((data.len() + 2) / 3));
    assert(0 <= bits < 16777216);
    lemma_base64_value(bits / 262144);
    lemma_base64_value((bits / 4096) % 64);
    lemma_base64_value((bits / 64) % 64);
    lemma_base64_value(bits % 64);
    let t = base64_text(data);
    assert(t[n] == base64_char(bits / 262144));
    assert(t[n + 1] == base64_char((bits / 4096) % 64));
    assert(t[n + 2] == base64_char((bits / 64) % 64));
    assert(t[n + 3] == base64_char(bits % 64));
    lemma_four_parts(bits);
}

proof fn lemma_four_parts(bits: int)
    requires
        0 <= bits < 16777216,
    ensures
        262144 * (bits / 262144) + 4096 * ((bits / 4096) % 64) + 64 * ((bits / 64) % 64) + bits % 64
            == bits,
{
    let a = bits / 64;
    let b = bits / 4096;
    assert(b == a / 64);
    assert(bits / 262144 == b / 64);
}

/// A last byte or two without a third are padded in base64 with `=`, and read back too.
pub proof fn law_base64_pads(data: Seq<u8>, k: int)
    requires
        0 <= k,
        3 * k < data.len() <= 3 * k + 2,
    ensures
        base64_text(data).len() == 4 * k + 4,
        base64_text(data)[4 * k + 3] == '=',
        data.len() == 3 * k + 1 ==> base64_text(data)[4 * k + 2] == '=' && 64 * base64_value(
            base64_text(data)[4 * k],
        ) + base64_value(base64_text(data)[4 * k + 1]) == 16 * data[3 * k],
        data.len() == 3 * k + 2 ==> base64_text(data)[4 * k + 2] != '=' && 4096 * base64_value(
            base64_text(data)[4 * k],
        ) + 64 * base64_value(base64_text(data)[4 * k + 1]) + base64_value(
            base64_text(data)[4 * k + 2],
        ) == 4 * (256 * data[3 * k] + data[3 * k + 1]),
{
    let bits = three_bytes(data, 3 * k);
    let n = 4 * k;
    assert(n / 4 == k && n % 4 == 0 && (n + 1) / 4 == k && (n + 1) % 4 == 1 && (n + 2) / 4 == k && (
    n + 2) % 4 == 2 && (n + 3) / 4 == k && (n + 3) % 4 == 3);
    assert(0 <= bits < 16777216);
    lemma_base64_value(bits / 262144);
    lemma_base64_value((bits / 4096) % 64);
    lemma_base64_value((bits / 64) % 64);
    let t = base64_text(data);
    assert(t[n] == base64_char(bits / 262144));
    assert(t[n + 1] == base64_char((bits / 4096) % 64));
    lemma_four_parts(bits);
    if data.len() == 3 * k + 1 {
        assert(bits == 65536 * data[3 * k]);
        assert(t[n + 2] == '=');
        assert((bits / 64) % 64 == 0 && bits % 64 == 0);
    } else {
        assert(bits == 65536 * data[3 * k] + 256 * data[3 * k + 1]);
        assert(t[n + 2] == base64_char((bits / 64) % 64));
        assert(bits % 64 == 0);
    }
}

} // verus!

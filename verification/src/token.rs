//! Sealing the OAuth access token kept in the session cookie: its first
//! and third sixteen bytes are AES-128 encrypted and written in base64,
//! the eight bytes between them are kept as they are.

use vstd::prelude::*;
use vstd::utf8::{
    decode_utf8, encode_utf8, encode_utf8_decode_utf8, encode_utf8_valid_utf8, is_char_boundary,
    is_char_boundary_iff_not_is_continuation_byte, is_char_boundary_start_end_of_seq,
    is_continuation_byte, valid_utf8, valid_utf8_split, is_ascii_chars, is_ascii_chars_encode_utf8,
};
use vstd::string::StringSliceAdditionalSpecFns;
use aes::Aes128;
use aes::cipher::{BlockDecrypt, BlockEncrypt, KeyInit};
use aes::cipher::generic_array::GenericArray;
use base64::Engine;
use crate::util::to_slice;

verus! {

/// The character of the standard base64 alphabet for the six-bit value `v`.
pub open spec fn b64_char(v: int) -> char {
    if v < 26 {
        (65 + v) as char
    } else if v < 52 {
        (97 + v - 26) as char
    } else if v < 62 {
        (48 + v - 52) as char
    } else if v == 62 {
        '+'
    } else {
        '/'
    }
}

/// Standard base64 with `=` padding: each three bytes become four
/// characters; a last one or two bytes become four characters ending in
/// two or one `=`.
pub open spec fn b64_encode(b: Seq<u8>) -> Seq<char>
    decreases b.len(),
{
    if b.len() == 0 {
        Seq::<char>::empty()
    } else {
        let x = b[0] as int;
        if b.len() == 1 {
            seq![b64_char(x / 4), b64_char((x % 4) * 16), '=', '=']
        } else {
            let y = b[1] as int;
            if b.len() == 2 {
                seq![b64_char(x / 4), b64_char((x % 4) * 16 + y / 16), b64_char((y % 16) * 4), '=']
            } else {
                let z = b[2] as int;
                seq![
                    b64_char(x / 4),
                    b64_char((x % 4) * 16 + y / 16),
                    b64_char((y % 16) * 4 + z / 64),
                    b64_char(z % 64),
                ] + b64_encode(b.skip(3))
            }
        }
    }
}

/// What base64's standard engine decodes `s` to: the bytes whose encoding
/// `s` is, `None` when `s` is no such encoding (the engine requires
/// canonical padding and no trailing bits, so each text decodes to at most
/// the one byte sequence that encodes to it).
pub open spec fn b64_decoded(s: Seq<char>) -> Option<Seq<u8>> {
    if exists|b: Seq<u8>| b64_encode(b) == s {
        Some(choose|b: Seq<u8>| b64_encode(b) == s)
    } else {
        None
    }
}

proof fn lemma_b64_char_injective(v: int, w: int)
    requires
        0 <= v < 64,
        0 <= w < 64,
        b64_char(v) == b64_char(w),
    ensures
        v == w,
{
}

proof fn lemma_b64_char_not_pad(v: int)
    requires
        0 <= v < 64,
    ensures
        b64_char(v) != '=',
{
}

/// The first four characters of a non-empty encoding, and what follows.
proof fn lemma_b64_head(b: Seq<u8>)
    requires
        b.len() > 0,
    ensures
        ({
            let e = b64_encode(b);
            let x = b[0] as int;
            &&& e.len() >= 4
            &&& e[0] == b64_char(x / 4)
            &&& b.len() == 1 ==> e.len() == 4 && e[1] == b64_char((x % 4) * 16) && e[2] == '='
                && e[3] == '='
            &&& b.len() == 2 ==> e.len() == 4 && e[1] == b64_char((x % 4) * 16 + b[1] as int / 16)
                && e[2] == b64_char((b[1] as int % 16) * 4) && e[3] == '='
            &&& b.len() >= 3 ==> e[1] == b64_char((x % 4) * 16 + b[1] as int / 16) && e[2]
                == b64_char((b[1] as int % 16) * 4 + b[2] as int / 64) && e[3] == b64_char(
                b[2] as int % 64,
            ) && e.skip(4) == b64_encode(b.skip(3))
        }),
{
    if b.len() >= 3 {
        let x = b[0] as int;
        let y = b[1] as int;
        let z = b[2] as int;
        let h = seq![
            b64_char(x / 4),
            b64_char((x % 4) * 16 + y / 16),
            b64_char((y % 16) * 4 + z / 64),
            b64_char(z % 64),
        ];
        assert(b64_encode(b) == h + b64_encode(b.skip(3)));
        assert((h + b64_encode(b.skip(3))).skip(4) =~= b64_encode(b.skip(3)));
    }
}

/// Different byte sequences have different base64 encodings.
proof fn lemma_b64_encode_injective(a: Seq<u8>, b: Seq<u8>)
    requires
        b64_encode(a) == b64_encode(b),
    ensures
        a == b,
    decreases a.len(),
{
    if a.len() == 0 || b.len() == 0 {
        if a.len() != 0 {
            lemma_b64_head(a);
        }
        if b.len() != 0 {
            lemma_b64_head(b);
        }
        assert(a =~= b);
        return;
    }
    lemma_b64_head(a);
    lemma_b64_head(b);
    let x = a[0] as int;
    let x2 = b[0] as int;
    lemma_b64_char_injective(x / 4, x2 / 4);
    // Which padding case each side falls in is read off characters 2 and 3.
    if a.len() >= 2 {
        let y = a[1] as int;
        if a.len() >= 3 {
            lemma_b64_char_not_pad((y % 16) * 4 + a[2] as int / 64);
            lemma_b64_char_not_pad(a[2] as int % 64);
        } else {
            lemma_b64_char_not_pad((y % 16) * 4);
        }
    }
    if b.len() >= 2 {
        let y2 = b[1] as int;
        if b.len() >= 3 {
            lemma_b64_char_not_pad((y2 % 16) * 4 + b[2] as int / 64);
            lemma_b64_char_not_pad(b[2] as int % 64);
        } else {
            lemma_b64_char_not_pad((y2 % 16) * 4);
        }
    }
    if a.len() == 1 {
        assert(b.len() == 1);
        lemma_b64_char_injective((x % 4) * 16, (x2 % 4) * 16);
        assert(a =~= b);
    } else if a.len() == 2 {
        assert(b.len() == 2);
        let y = a[1] as int;
        let y2 = b[1] as int;
        lemma_b64_char_injective((x % 4) * 16 + y / 16, (x2 % 4) * 16 + y2 / 16);
        lemma_b64_char_injective((y % 16) * 4, (y2 % 16) * 4);
        assert(a =~= b);
    } else {
        assert(b.len() >= 3);
        let y = a[1] as int;
        let y2 = b[1] as int;
        let z = a[2] as int;
        let z2 = b[2] as int;
        lemma_b64_char_injective((x % 4) * 16 + y / 16, (x2 % 4) * 16 + y2 / 16);
        lemma_b64_char_injective((y % 16) * 4 + z / 64, (y2 % 16) * 4 + z2 / 64);
        lemma_b64_char_injective(z % 64, z2 % 64);
        lemma_b64_encode_injective(a.skip(3), b.skip(3));
        assert(a[1] == b[1]);
        assert(a[2] == b[2]);
        assert forall|i: int| 3 <= i < a.len() implies a[i] == b[i] by {
            assert(a.skip(3)[i - 3] == b.skip(3)[i - 3]);
        }
        assert(a =~= b);
    }
}

/// Decoding an encoding gives the bytes back.
proof fn lemma_b64_decode_encode(b: Seq<u8>)
    ensures
        b64_decoded(b64_encode(b)) == Some(b),
{
    let s = b64_encode(b);
    assert(exists|c: Seq<u8>| b64_encode(c) == s);
    let c = choose|c: Seq<u8>| b64_encode(c) == s;
    lemma_b64_encode_injective(c, b);
}

/// The AES-128 encryption of a sixteen-byte block under a sixteen-byte key.
pub uninterp spec fn aes128_encrypt(key: Seq<u8>, block: Seq<u8>) -> Seq<u8>;

/// The AES-128 decryption of a sixteen-byte block under a sixteen-byte key.
pub uninterp spec fn aes128_decrypt(key: Seq<u8>, block: Seq<u8>) -> Seq<u8>;

/// Base64-encodes `bytes` with the standard alphabet and padding (the
/// `base64` crate's `STANDARD.encode`).
#[verifier::external_body]
fn b64_encode_bytes(bytes: &[u8]) -> (r: String)
    ensures
        r@ == b64_encode(bytes@),
{
    base64::engine::general_purpose::STANDARD.encode(bytes)
}

/// Decodes standard base64 (the `base64` crate's `STANDARD.decode`, which
/// requires canonical padding and no trailing bits): it gives the bytes
/// whose encoding `s` is, and fails exactly when `s` encodes no bytes.
#[verifier::external_body]
fn b64_decode_str(s: &str) -> (r: Option<Vec<u8>>)
    ensures
        match r {
            Some(v) => b64_encode(v@) == s@,
            None => forall|b: Seq<u8>| b64_encode(b) != s@,
        },
{
    base64::engine::general_purpose::STANDARD.decode(s).ok()
}

/// Encrypts one block with AES-128 (the `aes` crate's `encrypt_block`).
/// Stated: the result is named, and decrypting it under the same key gives
/// the block back.
#[verifier::external_body]
fn aes_encrypt_block(key: [u8; 16], block: [u8; 16]) -> (r: [u8; 16])
    ensures
        r@ == aes128_encrypt(key@, block@),
        aes128_decrypt(key@, r@) == block@,
{
    let cipher = Aes128::new(&GenericArray::from(key));
    let mut b = GenericArray::from(block);
    cipher.encrypt_block(&mut b);
    b.into()
}

/// Decrypts one block with AES-128 (the `aes` crate's `decrypt_block`).
#[verifier::external_body]
fn aes_decrypt_block(key: [u8; 16], block: [u8; 16]) -> (r: [u8; 16])
    ensures
        r@ == aes128_decrypt(key@, block@),
{
    let cipher = Aes128::new(&GenericArray::from(key));
    let mut b = GenericArray::from(block);
    cipher.decrypt_block(&mut b);
    b.into()
}

/// The string UTF-8 bytes spell (std's `String::from_utf8`); `None` when
/// they are not valid UTF-8.
#[verifier::external_body]
fn string_from_utf8(bytes: Vec<u8>) -> (r: Option<String>)
    ensures
        r.is_some() <==> valid_utf8(bytes@),
        r matches Some(s) ==> s@ == decode_utf8(bytes@),
{
    String::from_utf8(bytes).ok()
}

/// The sealed form of a token with UTF-8 bytes `b` under `key`: the
/// base64 of the encrypted bytes 0 to 16, that of the encrypted bytes 24
/// to 40, then the text of bytes 16 to 24. Bytes past 40 are dropped.
pub open spec fn sealed_token(b: Seq<u8>, key: Seq<u8>) -> Seq<char> {
    b64_encode(aes128_encrypt(key, b.subrange(0, 16))) + b64_encode(
        aes128_encrypt(key, b.subrange(24, 40)),
    ) + decode_utf8(b.subrange(16, 24))
}

/// The bytes of a token can be sealed: there are at least 40 of them and
/// bytes 16, 24 and 40 start characters.
pub open spec fn sealable(b: Seq<u8>) -> bool {
    &&& b.len() >= 40
    &&& is_char_boundary(b, 16)
    &&& is_char_boundary(b, 24)
    &&& is_char_boundary(b, 40)
}

/// The bytes of a sealed token can be taken apart: there are at least 56
/// of them and bytes 24, 48 and 56 start characters.
pub open spec fn unsealable(b: Seq<u8>) -> bool {
    &&& b.len() >= 56
    &&& is_char_boundary(b, 24)
    &&& is_char_boundary(b, 48)
    &&& is_char_boundary(b, 56)
}

/// The token a sealed token with UTF-8 bytes `b` opens to under `key`:
/// characters 0 to 24 and 24 to 48 are base64 of one encrypted block each,
/// bytes 48 to 56 the middle. `None` when a part is not base64 of sixteen
/// bytes or a decrypted block is not UTF-8.
pub open spec fn unsealed_token(b: Seq<u8>, key: Seq<u8>) -> Option<Seq<char>> {
    let front = b64_decoded(decode_utf8(b.subrange(0, 24)));
    let back = b64_decoded(decode_utf8(b.subrange(24, 48)));
    let middle = decode_utf8(b.subrange(48, 56));
    match (front, back) {
        (Some(f), Some(k)) => if f.len() == 16 && k.len() == 16 {
            let pf = aes128_decrypt(key, f);
            let pk = aes128_decrypt(key, k);
            if valid_utf8(pf) && valid_utf8(pk) {
                Some(decode_utf8(pf) + middle + decode_utf8(pk))
            } else {
                None
            }
        } else {
            None
        },
        _ => None,
    }
}

proof fn lemma_b64_char_ascii(v: int)
    requires
        0 <= v < 64,
    ensures
        '\0' <= b64_char(v) <= '\u{7f}',
{
}

proof fn lemma_b64_shape(b: Seq<u8>)
    ensures
        b64_encode(b).len() == 4 * ((b.len() + 2) / 3),
        is_ascii_chars(b64_encode(b)),
    decreases b.len(),
{
    if b.len() > 0 {
        let x = b[0] as int;
        lemma_b64_char_ascii(x / 4);
        lemma_b64_char_ascii((x % 4) * 16);
        if b.len() >= 2 {
            let y = b[1] as int;
            lemma_b64_char_ascii((x % 4) * 16 + y / 16);
            lemma_b64_char_ascii((y % 16) * 4);
            if b.len() >= 3 {
                let z = b[2] as int;
                lemma_b64_char_ascii((y % 16) * 4 + z / 64);
                lemma_b64_char_ascii(z % 64);
                lemma_b64_shape(b.skip(3));
                let e = b64_encode(b);
                let h = seq![
                    b64_char(x / 4),
                    b64_char((x % 4) * 16 + y / 16),
                    b64_char((y % 16) * 4 + z / 64),
                    b64_char(z % 64),
                ];
                assert(e == h + b64_encode(b.skip(3)));
                assert forall|i: int| 0 <= i < e.len() implies '\0' <= #[trigger] e[i] <= '\u{7f}' by {
                    if i >= 4 {
                        assert(e[i] == b64_encode(b.skip(3))[i - 4]);
                    }
                }
            }
        }
    }
}

proof fn lemma_ascii_bytes(s: Seq<char>)
    requires
        is_ascii_chars(s),
    ensures
        encode_utf8(s).len() == s.len(),
        forall|i: int| 0 <= i < s.len() ==> !is_continuation_byte(#[trigger] encode_utf8(s)[i]),
{
    is_ascii_chars_encode_utf8(s);
    assert forall|i: int| 0 <= i < s.len() implies !is_continuation_byte(
        #[trigger] encode_utf8(s)[i],
    ) by {
        assert(s[i] as u8 == encode_utf8(s)[i]);
        assert('\0' <= s[i] <= '\u{7f}');
    }
}

proof fn lemma_encode_concat(a: Seq<char>, b: Seq<char>)
    ensures
        encode_utf8(a + b) == encode_utf8(a) + encode_utf8(b),
    decreases a.len(),
{
    if a.len() > 0 {
        lemma_encode_concat(a.drop_first(), b);
        assert((a + b).drop_first() =~= a.drop_first() + b);
        assert(encode_utf8(a + b) =~= encode_utf8(a) + encode_utf8(b));
    } else {
        assert(a + b =~= b);
        assert(encode_utf8(a) + encode_utf8(b) =~= encode_utf8(b));
    }
}

/// Bytes `from` to `to` of a valid UTF-8 sequence, between character
/// starts, are valid UTF-8 themselves.
proof fn lemma_valid_between(b: Seq<u8>, from: int, to: int)
    requires
        valid_utf8(b),
        0 <= from <= to <= b.len(),
        is_char_boundary(b, from),
        is_char_boundary(b, to),
    ensures
        valid_utf8(b.subrange(from, to)),
        is_char_boundary(b.subrange(from, b.len() as int), to - from),
{
    valid_utf8_split(b, from);
    let rest = b.subrange(from, b.len() as int);
    if to - from == rest.len() {
        is_char_boundary_start_end_of_seq(rest);
    } else if to - from == 0 {
    } else {
        is_char_boundary_iff_not_is_continuation_byte(b, to);
        is_char_boundary_iff_not_is_continuation_byte(rest, to - from);
        assert(rest[to - from] == b[to]);
    }
    valid_utf8_split(rest, to - from);
    assert(rest.subrange(0, to - from) =~= b.subrange(from, to));
}

/// Bytes `from` to `to` of `s`, as text.
fn substr<'a>(s: &'a str, from: usize, to: usize) -> (r: &'a str)
    requires
        from <= to <= s.spec_bytes().len(),
        is_char_boundary(s.spec_bytes(), from as int),
        is_char_boundary(s.spec_bytes(), to as int),
    ensures
        r.spec_bytes() == s.spec_bytes().subrange(from as int, to as int),
        r@ == decode_utf8(s.spec_bytes().subrange(from as int, to as int)),
{
    proof {
        encode_utf8_valid_utf8(s@);
        lemma_valid_between(s.spec_bytes(), from as int, to as int);
    }
    let (_, rest) = s.split_at(from);
    let (mid, _) = rest.split_at(to - from);
    proof {
        let b = s.spec_bytes();
        assert(mid.spec_bytes() =~= b.subrange(from as int, to as int));
        encode_utf8_decode_utf8(mid@);
    }
    mid
}

/// Sixteen bytes of `b` from `from`.
fn block_at(b: &[u8], from: usize) -> (r: [u8; 16])
    requires
        from + 16 <= b@.len(),
    ensures
        r@ == b@.subrange(from as int, from + 16),
{
    let mut out = [0u8; 16];
    let mut i: usize = 0;
    while i < 16
        invariant
            i <= 16,
            from + 16 <= b@.len(),
            out@.len() == 16,
            forall|j: int| 0 <= j < i ==> out@[j] == b@[from + j],
        decreases 16 - i,
    {
        let bl = b.len();
        assert(from + i < bl);
        out[i] = b[from + i];
        i = i + 1;
    }
    assert(out@ =~= b@.subrange(from as int, from + 16));
    out
}

/// Seals a token for the session cookie. Opening what comes back with
/// `decrypt_token` under the same key gives back the token's first 40
/// bytes.
pub fn encrypt_token(token: &str, key: [u8; 16]) -> (r: String)
    requires
        sealable(token.spec_bytes()),
    ensures
        r@ == sealed_token(token.spec_bytes(), key@),
        unsealable(encode_utf8(r@)),
        unsealed_token(encode_utf8(r@), key@) == Some(
            decode_utf8(token.spec_bytes().subrange(0, 40)),
        ),
{
    let bytes = token.as_bytes();
    let ghost b = token.spec_bytes();
    let front = block_at(bytes, 0);
    let back = block_at(bytes, 24);
    let sealed_front = aes_encrypt_block(key, front);
    let sealed_back = aes_encrypt_block(key, back);
    let back_text = b64_encode_bytes(sealed_back.as_slice());
    let mut cipher = b64_encode_bytes(sealed_front.as_slice());
    cipher.append(back_text.as_str());
    let middle = substr(token, 16, 24);
    cipher.append(middle);
    proof {
        let f = b64_encode(sealed_front@);
        let k = b64_encode(sealed_back@);
        let m = decode_utf8(b.subrange(16, 24));
        assert(cipher@ == f + k + m);
        lemma_b64_shape(sealed_front@);
        lemma_b64_shape(sealed_back@);
        lemma_b64_decode_encode(sealed_front@);
        lemma_b64_decode_encode(sealed_back@);
        assert(f.len() == 24);
        assert(k.len() == 24);
        let fk = f + k;
        assert forall|i: int| 0 <= i < fk.len() implies '\0' <= #[trigger] fk[i] <= '\u{7f}' by {
            if i < 24 {
                assert(fk[i] == f[i]);
            } else {
                assert(fk[i] == k[i - 24]);
            }
        }
        lemma_ascii_bytes(fk);
        lemma_ascii_bytes(f);
        lemma_ascii_bytes(k);
        encode_utf8_valid_utf8(token@);
        lemma_valid_between(b, 16, 24);
        vstd::utf8::decode_utf8_encode_utf8(b.subrange(16, 24));
        lemma_encode_concat(fk, m);
        lemma_encode_concat(f, k);
        let cb = encode_utf8(cipher@);
        assert(cb == encode_utf8(f) + encode_utf8(k) + b.subrange(16, 24));
        assert(cb.len() == 56);
        encode_utf8_valid_utf8(cipher@);
        is_char_boundary_iff_not_is_continuation_byte(cb, 24);
        is_char_boundary_iff_not_is_continuation_byte(cb, 48);
        assert(cb[24] == encode_utf8(fk)[24]);
        assert(cb[48] == b[16]);
        is_char_boundary_iff_not_is_continuation_byte(b, 16);
        is_char_boundary_start_end_of_seq(cb);
        assert(cb.subrange(0, 24) =~= encode_utf8(f));
        assert(cb.subrange(24, 48) =~= encode_utf8(k));
        assert(cb.subrange(48, 56) =~= b.subrange(16, 24));
        encode_utf8_decode_utf8(f);
        encode_utf8_decode_utf8(k);
        lemma_valid_between(b, 0, 16);
        lemma_valid_between(b, 24, 40);
        lemma_valid_between(b, 0, 40);
        lemma_valid_between(b, 16, 40);
        is_char_boundary_iff_not_is_continuation_byte(b.subrange(0, 40), 16);
        assert(b.subrange(0, 40)[16] == b[16]);
        vstd::utf8::decode_utf8_split(b.subrange(0, 40), 16);
        assert(b.subrange(0, 40).subrange(0, 16) =~= b.subrange(0, 16));
        assert(b.subrange(0, 40).subrange(16, 40) =~= b.subrange(16, 40));
        is_char_boundary_iff_not_is_continuation_byte(b.subrange(16, 40), 8);
        is_char_boundary_iff_not_is_continuation_byte(b, 24);
        assert(b.subrange(16, 40)[8] == b[24]);
        vstd::utf8::decode_utf8_split(b.subrange(16, 40), 8);
        assert(b.subrange(16, 40).subrange(0, 8) =~= b.subrange(16, 24));
        assert(b.subrange(16, 40).subrange(8, 24) =~= b.subrange(24, 40));
        assert(decode_utf8(b.subrange(0, 40)) =~= decode_utf8(b.subrange(0, 16)) + m
            + decode_utf8(b.subrange(24, 40)));
    }
    cipher
}

/// Opens a sealed token; `None` when a part does not decode to sixteen
/// bytes or a decrypted part is not UTF-8.
pub fn decrypt_token(token: &str, key: [u8; 16]) -> (r: Option<String>)
    requires
        unsealable(token.spec_bytes()),
    ensures
        match r {
            Some(s) => unsealed_token(token.spec_bytes(), key@) == Some(s@),
            None => unsealed_token(token.spec_bytes(), key@).is_none(),
        },
{
    let ghost b = token.spec_bytes();
    proof {
        encode_utf8_valid_utf8(token@);
    }
    let middle = substr(token, 48, 56);
    let front_text = substr(token, 0, 24);
    let back_text = substr(token, 24, 48);
    let front = match b64_decode_str(front_text) {
        Some(v) => v,
        None => return None,
    };
    proof {
        lemma_b64_decode_encode(front@);
    }
    let back = match b64_decode_str(back_text) {
        Some(v) => v,
        None => return None,
    };
    proof {
        lemma_b64_decode_encode(back@);
    }
    if front.len() != 16 || back.len() != 16 {
        return None;
    }
    let front_block = to_slice(&front);
    let back_block = to_slice(&back);
    assert(front@.take(16) =~= front@);
    assert(back@.take(16) =~= back@);
    let plain_front = aes_decrypt_block(key, front_block);
    let plain_back = aes_decrypt_block(key, back_block);
    let mut plain = match string_from_utf8(vstd::slice::slice_to_vec(plain_front.as_slice())) {
        Some(s) => s,
        None => return None,
    };
    plain.append(middle);
    let tail = match string_from_utf8(vstd::slice::slice_to_vec(plain_back.as_slice())) {
        Some(s) => s,
        None => return None,
    };
    plain.append(tail.as_str());
    Some(plain)
}

} // verus!

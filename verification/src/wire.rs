//! The byte-level pieces of the value encoding: LEB128 integers, UTF-8 scalars,
//! names and the byte buffer that they are written to and read from.

use vstd::arithmetic::power2::pow2;
use vstd::prelude::*;
use vstd::utf8::{
    decode_first_scalar, decode_utf8, encode_scalar, encode_utf8, is_continuation_byte,
    length_of_first_scalar, valid_first_scalar, valid_utf8,
};

verus! {

/// `bytes::BytesMut`: a growable buffer that is written at its end and read from
/// its front.
#[verifier::external_type_specification]
#[verifier::external_body]
pub struct ExBytesMut(bytes::BytesMut);

/// `std::io::Error`: what the codecs of `wasm_tokio` fail with.
#[verifier::external_type_specification]
#[verifier::external_body]
pub struct ExIoError(std::io::Error);

/// The bytes that a buffer holds.
pub uninterp spec fn contents(b: bytes::BytesMut) -> Seq<u8>;

/// The unsigned LEB128 form of `n`: groups of seven bits, least significant
/// first, each but the last with the high bit set.
pub open spec fn uleb(n: nat) -> Seq<u8>
    decreases n,
{
    if n < 128 {
        seq![n as u8]
    } else {
        seq![(n % 128 + 128) as u8] + uleb(n / 128)
    }
}

/// The signed LEB128 form of `x`: as [`uleb`], the last group being the first
/// whose sign bit tells the sign of what is left.
pub open spec fn sleb(x: int) -> Seq<u8>
    decreases
            if x < 0 {
                -x
            } else {
                x
            },
{
    if -64 <= x < 64 {
        seq![(x % 128) as u8]
    } else {
        seq![(x % 128 + 128) as u8] + sleb(x / 128)
    }
}

/// What stands at the front of a buffer that is read as a LEB128 integer.
pub enum Leb {
    /// The buffer ends inside the integer.
    More,
    /// The integer does not fit.
    Overflow,
    /// An integer, and the number of bytes that it takes.
    Number(int, nat),
}

/// Reads an unsigned LEB128 integer of at most `bits` bits.
pub open spec fn uleb_read(s: Seq<u8>, bits: nat) -> Leb
    decreases bits,
{
    if s.len() == 0 {
        Leb::More
    } else if bits <= 7 {
        if s[0] < pow2(bits) {
            Leb::Number(s[0] as int, 1)
        } else {
            Leb::Overflow
        }
    } else if s[0] < 128 {
        Leb::Number(s[0] as int, 1)
    } else {
        match uleb_read(s.skip(1), (bits - 7) as nat) {
            Leb::Number(v, n) => Leb::Number(s[0] - 128 + 128 * v, n + 1),
            other => other,
        }
    }
}

/// The seven low bits of `b` as a signed number.
pub open spec fn low_signed(b: u8) -> int {
    if b % 128 < 64 {
        b as int % 128
    } else {
        b as int % 128 - 128
    }
}

/// Reads a signed LEB128 integer of at most `bits` bits.
pub open spec fn sleb_read(s: Seq<u8>, bits: nat) -> Leb
    decreases bits,
{
    if s.len() == 0 {
        Leb::More
    } else if bits <= 7 {
        let half = pow2((bits - 1) as nat);
        if s[0] < 128 && -half <= low_signed(s[0]) < half {
            Leb::Number(low_signed(s[0]), 1)
        } else {
            Leb::Overflow
        }
    } else if s[0] < 128 {
        Leb::Number(low_signed(s[0]), 1)
    } else {
        match sleb_read(s.skip(1), (bits - 7) as nat) {
            Leb::Number(v, n) => Leb::Number(s[0] - 128 + 128 * v, n + 1),
            other => other,
        }
    }
}

/// Whether `s` holds, at `i`, a byte of a multi-byte scalar that is not its first.
pub open spec fn continues(s: Seq<u8>, i: int) -> bool {
    is_continuation_byte(s[i])
}

/// Whether `s` ends inside a UTF-8 scalar of which nothing seen so far is wrong.
pub open spec fn scalar_pending(s: Seq<u8>) -> bool {
    ||| s.len() == 0
    ||| s.len() == 1 && 0xc2 <= s[0] < 0xf8
    ||| s.len() == 2 && 0xe0 <= s[0] < 0xf0 && continues(s, 1) && !(s[0] == 0xe0 && s[1] < 0xa0)
    ||| s.len() == 2 && 0xf0 <= s[0] < 0xf8 && continues(s, 1) && !(s[0] == 0xf0 && s[1] < 0x90)
    ||| s.len() == 3 && 0xf0 <= s[0] < 0xf8 && continues(s, 1) && continues(s, 2) && !(s[0] == 0xf0
        && s[1] < 0x90)
}

/// How many bytes go where `s` does not begin with a scalar: those of a code point that
/// is none, a surrogate or one past the last plane.
pub open spec fn scalar_dropped(s: Seq<u8>) -> nat {
    if s.len() >= 3 && 0xe0 <= s[0] < 0xf0 && continues(s, 1) && continues(s, 2) && !(s[0] == 0xe0
        && s[1] < 0xa0) {
        3
    } else if s.len() >= 4 && 0xf0 <= s[0] < 0xf8 && continues(s, 1) && continues(s, 2)
        && continues(s, 3) && !(s[0] == 0xf0 && s[1] < 0x90) {
        4
    } else {
        0
    }
}

/// What a LEB128 decoder does to its buffer `a`, of which `b` is left.
pub open spec fn leb_step(read: Leb, a: Seq<u8>, b: Seq<u8>) -> bool {
    match read {
        Leb::Number(_, n) => b == a.skip(n as int),
        _ => b == a,
    }
}

/// `bytes::BytesMut::len`: the number of bytes held.
#[verifier::external_body]
pub(crate) fn buffered(src: &bytes::BytesMut) -> (n: usize)
    ensures
        n == contents(*src).len(),
{
    src.len()
}

/// `bytes::BufMut::put_u8`: appends one byte.
#[verifier::external_body]
pub(crate) fn put_u8(dst: &mut bytes::BytesMut, b: u8)
    ensures
        contents(*final(dst)) == contents(*old(dst)) + seq![b],
{
    bytes::BufMut::put_u8(dst, b)
}

/// `bytes::BufMut::put_i8`: appends one byte, the two's complement of `x`.
#[verifier::external_body]
pub(crate) fn put_i8(dst: &mut bytes::BytesMut, x: i8)
    ensures
        contents(*final(dst)) == contents(*old(dst)) + seq![(x as int % 256) as u8],
{
    bytes::BufMut::put_i8(dst, x)
}

/// The little-endian bytes of `x`, `n` of them.
pub open spec fn le_bytes(x: nat, n: nat) -> Seq<u8>
    decreases n,
{
    if n == 0 {
        Seq::empty()
    } else {
        seq![(x % 256) as u8] + le_bytes(x / 256, (n - 1) as nat)
    }
}

/// The number whose little-endian bytes are the first `n` of `s`.
pub open spec fn le_number(s: Seq<u8>, n: nat) -> nat
    decreases n,
{
    if n == 0 {
        0
    } else {
        s[0] as nat + 256 * le_number(s.skip(1), (n - 1) as nat)
    }
}

/// `bytes::BufMut::put_u32_le`: appends four bytes, least significant first.
#[verifier::external_body]
pub(crate) fn put_u32_le(dst: &mut bytes::BytesMut, x: u32)
    ensures
        contents(*final(dst)) == contents(*old(dst)) + le_bytes(x as nat, 4),
{
    bytes::BufMut::put_u32_le(dst, x)
}

/// `bytes::BufMut::put_u64_le`: appends eight bytes, least significant first.
#[verifier::external_body]
pub(crate) fn put_u64_le(dst: &mut bytes::BytesMut, x: u64)
    ensures
        contents(*final(dst)) == contents(*old(dst)) + le_bytes(x as nat, 8),
{
    bytes::BufMut::put_u64_le(dst, x)
}

/// `bytes::Buf::get_u8`: takes the first byte. It panics on an empty buffer.
#[verifier::external_body]
pub(crate) fn get_u8(src: &mut bytes::BytesMut) -> (b: u8)
    requires
        contents(*old(src)).len() >= 1,
    ensures
        b == contents(*old(src))[0],
        contents(*final(src)) == contents(*old(src)).skip(1),
{
    bytes::Buf::get_u8(src)
}

/// `bytes::Buf::get_i8`: takes the first byte, as a two's complement number. It
/// panics on an empty buffer.
#[verifier::external_body]
pub(crate) fn get_i8(src: &mut bytes::BytesMut) -> (x: i8)
    requires
        contents(*old(src)).len() >= 1,
    ensures
        x as int % 256 == contents(*old(src))[0],
        contents(*final(src)) == contents(*old(src)).skip(1),
{
    bytes::Buf::get_i8(src)
}

/// `bytes::Buf::get_u32_le`: takes four bytes, least significant first. It panics
/// where there are fewer.
#[verifier::external_body]
pub(crate) fn get_u32_le(src: &mut bytes::BytesMut) -> (x: u32)
    requires
        contents(*old(src)).len() >= 4,
    ensures
        x as nat == le_number(contents(*old(src)), 4),
        contents(*final(src)) == contents(*old(src)).skip(4),
{
    bytes::Buf::get_u32_le(src)
}

/// `bytes::Buf::get_u64_le`: takes eight bytes, least significant first. It panics
/// where there are fewer.
#[verifier::external_body]
pub(crate) fn get_u64_le(src: &mut bytes::BytesMut) -> (x: u64)
    requires
        contents(*old(src)).len() >= 8,
    ensures
        x as nat == le_number(contents(*old(src)), 8),
        contents(*final(src)) == contents(*old(src)).skip(8),
{
    bytes::Buf::get_u64_le(src)
}

/// `bytes::BytesMut::split_to`: takes the first `n` bytes. It panics where there
/// are fewer.
#[verifier::external_body]
pub(crate) fn split_to(src: &mut bytes::BytesMut, n: usize) -> (taken: Vec<u8>)
    requires
        n <= contents(*old(src)).len(),
    ensures
        taken@ == contents(*old(src)).take(n as int),
        contents(*final(src)) == contents(*old(src)).skip(n as int),
{
    src.split_to(n).to_vec()
}

/// `wasm_tokio::Leb128Encoder` on a `u16`: appends its unsigned LEB128 form.
#[verifier::external_body]
pub(crate) fn put_u16_leb128(dst: &mut bytes::BytesMut, x: u16) -> (r: Result<(), std::io::Error>)
    ensures
        r is Ok,
        contents(*final(dst)) == contents(*old(dst)) + uleb(x as nat),
{
    tokio_util::codec::Encoder::encode(&mut wasm_tokio::Leb128Encoder, x, dst)
}

/// `wasm_tokio::Leb128Encoder` on a `u32`: appends its unsigned LEB128 form.
#[verifier::external_body]
pub(crate) fn put_u32_leb128(dst: &mut bytes::BytesMut, x: u32) -> (r: Result<(), std::io::Error>)
    ensures
        r is Ok,
        contents(*final(dst)) == contents(*old(dst)) + uleb(x as nat),
{
    tokio_util::codec::Encoder::encode(&mut wasm_tokio::Leb128Encoder, x, dst)
}

/// `wasm_tokio::Leb128Encoder` on a `u64`: appends its unsigned LEB128 form.
#[verifier::external_body]
pub(crate) fn put_u64_leb128(dst: &mut bytes::BytesMut, x: u64) -> (r: Result<(), std::io::Error>)
    ensures
        r is Ok,
        contents(*final(dst)) == contents(*old(dst)) + uleb(x as nat),
{
    tokio_util::codec::Encoder::encode(&mut wasm_tokio::Leb128Encoder, x, dst)
}

/// `wasm_tokio::Leb128Encoder` on an `i16`: appends its signed LEB128 form.
#[verifier::external_body]
pub(crate) fn put_i16_leb128(dst: &mut bytes::BytesMut, x: i16) -> (r: Result<(), std::io::Error>)
    ensures
        r is Ok,
        contents(*final(dst)) == contents(*old(dst)) + sleb(x as int),
{
    tokio_util::codec::Encoder::encode(&mut wasm_tokio::Leb128Encoder, x, dst)
}

/// `wasm_tokio::Leb128Encoder` on an `i32`: appends its signed LEB128 form.
#[verifier::external_body]
pub(crate) fn put_i32_leb128(dst: &mut bytes::BytesMut, x: i32) -> (r: Result<(), std::io::Error>)
    ensures
        r is Ok,
        contents(*final(dst)) == contents(*old(dst)) + sleb(x as int),
{
    tokio_util::codec::Encoder::encode(&mut wasm_tokio::Leb128Encoder, x, dst)
}

/// `wasm_tokio::Leb128Encoder` on an `i64`: appends its signed LEB128 form.
#[verifier::external_body]
pub(crate) fn put_i64_leb128(dst: &mut bytes::BytesMut, x: i64) -> (r: Result<(), std::io::Error>)
    ensures
        r is Ok,
        contents(*final(dst)) == contents(*old(dst)) + sleb(x as int),
{
    tokio_util::codec::Encoder::encode(&mut wasm_tokio::Leb128Encoder, x, dst)
}

/// `wasm_tokio::Leb128DecoderU16`: takes an unsigned LEB128 integer off the front.
/// Where there is none, the buffer keeps its bytes.
#[verifier::external_body]
pub(crate) fn get_u16_leb128(src: &mut bytes::BytesMut) -> (r: Result<Option<u16>, std::io::Error>)
    ensures
        match uleb_read(contents(*old(src)), 16) {
            Leb::More => r matches Ok(None),
            Leb::Overflow => r is Err,
            Leb::Number(v, _) => r matches Ok(Some(x)) && x == v,
        },
        leb_step(uleb_read(contents(*old(src)), 16), contents(*old(src)), contents(*final(src))),
{
    tokio_util::codec::Decoder::decode(&mut wasm_tokio::Leb128DecoderU16, src)
}

/// `wasm_tokio::Leb128DecoderU32`: takes an unsigned LEB128 integer off the front.
/// Where there is none, the buffer keeps its bytes.
#[verifier::external_body]
pub(crate) fn get_u32_leb128(src: &mut bytes::BytesMut) -> (r: Result<Option<u32>, std::io::Error>)
    ensures
        match uleb_read(contents(*old(src)), 32) {
            Leb::More => r matches Ok(None),
            Leb::Overflow => r is Err,
            Leb::Number(v, _) => r matches Ok(Some(x)) && x == v,
        },
        leb_step(uleb_read(contents(*old(src)), 32), contents(*old(src)), contents(*final(src))),
{
    tokio_util::codec::Decoder::decode(&mut wasm_tokio::Leb128DecoderU32, src)
}

/// `wasm_tokio::Leb128DecoderU64`: takes an unsigned LEB128 integer off the front.
/// Where there is none, the buffer keeps its bytes.
#[verifier::external_body]
pub(crate) fn get_u64_leb128(src: &mut bytes::BytesMut) -> (r: Result<Option<u64>, std::io::Error>)
    ensures
        match uleb_read(contents(*old(src)), 64) {
            Leb::More => r matches Ok(None),
            Leb::Overflow => r is Err,
            Leb::Number(v, _) => r matches Ok(Some(x)) && x == v,
        },
        leb_step(uleb_read(contents(*old(src)), 64), contents(*old(src)), contents(*final(src))),
{
    tokio_util::codec::Decoder::decode(&mut wasm_tokio::Leb128DecoderU64, src)
}

/// `wasm_tokio::Leb128DecoderI16`: takes a signed LEB128 integer off the front.
/// Where there is none, the buffer keeps its bytes.
#[verifier::external_body]
pub(crate) fn get_i16_leb128(src: &mut bytes::BytesMut) -> (r: Result<Option<i16>, std::io::Error>)
    ensures
        match sleb_read(contents(*old(src)), 16) {
            Leb::More => r matches Ok(None),
            Leb::Overflow => r is Err,
            Leb::Number(v, _) => r matches Ok(Some(x)) && x == v,
        },
        leb_step(sleb_read(contents(*old(src)), 16), contents(*old(src)), contents(*final(src))),
{
    tokio_util::codec::Decoder::decode(&mut wasm_tokio::Leb128DecoderI16, src)
}

/// `wasm_tokio::Leb128DecoderI32`: takes a signed LEB128 integer off the front.
/// Where there is none, the buffer keeps its bytes.
#[verifier::external_body]
pub(crate) fn get_i32_leb128(src: &mut bytes::BytesMut) -> (r: Result<Option<i32>, std::io::Error>)
    ensures
        match sleb_read(contents(*old(src)), 32) {
            Leb::More => r matches Ok(None),
            Leb::Overflow => r is Err,
            Leb::Number(v, _) => r matches Ok(Some(x)) && x == v,
        },
        leb_step(sleb_read(contents(*old(src)), 32), contents(*old(src)), contents(*final(src))),
{
    tokio_util::codec::Decoder::decode(&mut wasm_tokio::Leb128DecoderI32, src)
}

/// `wasm_tokio::Leb128DecoderI64`: takes a signed LEB128 integer off the front.
/// Where there is none, the buffer keeps its bytes.
#[verifier::external_body]
pub(crate) fn get_i64_leb128(src: &mut bytes::BytesMut) -> (r: Result<Option<i64>, std::io::Error>)
    ensures
        match sleb_read(contents(*old(src)), 64) {
            Leb::More => r matches Ok(None),
            Leb::Overflow => r is Err,
            Leb::Number(v, _) => r matches Ok(Some(x)) && x == v,
        },
        leb_step(sleb_read(contents(*old(src)), 64), contents(*old(src)), contents(*final(src))),
{
    tokio_util::codec::Decoder::decode(&mut wasm_tokio::Leb128DecoderI64, src)
}

/// `wasm_tokio::Utf8Codec` on a `char`: appends its UTF-8 form.
#[verifier::external_body]
pub(crate) fn put_char(dst: &mut bytes::BytesMut, c: char) -> (r: Result<(), std::io::Error>)
    ensures
        r is Ok,
        contents(*final(dst)) == contents(*old(dst)) + encode_scalar(c as u32),
{
    tokio_util::codec::Encoder::encode(&mut wasm_tokio::Utf8Codec, c, dst)
}

/// `wasm_tokio::Utf8Codec` as a decoder: takes one UTF-8 scalar off the front.
/// Where the bytes are wrong it drops those of a code point that is no scalar, and no
/// others.
#[verifier::external_body]
pub(crate) fn get_char(src: &mut bytes::BytesMut) -> (r: Result<Option<char>, std::io::Error>)
    ensures
        valid_first_scalar(contents(*old(src))) ==> {
            &&& r matches Ok(Some(c)) && c as u32 == decode_first_scalar(contents(*old(src)))
            &&& contents(*final(src)) == contents(*old(src)).skip(
                length_of_first_scalar(contents(*old(src))),
            )
        },
        !valid_first_scalar(contents(*old(src))) ==> {
            &&& contents(*final(src)) == contents(*old(src)).skip(
                scalar_dropped(contents(*old(src))) as int,
            )
            &&& if scalar_pending(contents(*old(src))) {
                r matches Ok(None)
            } else {
                r is Err
            }
        },
{
    tokio_util::codec::Decoder::decode(&mut wasm_tokio::Utf8Codec, src)
}

/// `wasm_tokio::CoreNameEncoder`: appends the number of UTF-8 bytes of `s`, as an
/// unsigned LEB128 `u32`, and those bytes. It fails, and writes nothing, where the
/// number does not fit.
#[verifier::external_body]
pub(crate) fn put_core_name(dst: &mut bytes::BytesMut, s: &str) -> (r: Result<(), std::io::Error>)
    ensures
        r is Ok <==> encode_utf8(s@).len() <= u32::MAX,
        r is Ok ==> contents(*final(dst)) == contents(*old(dst)) + uleb(encode_utf8(s@).len())
            + encode_utf8(s@),
        r is Err ==> contents(*final(dst)) == contents(*old(dst)),
{
    tokio_util::codec::Encoder::encode(&mut wasm_tokio::CoreNameEncoder, s, dst)
}

/// `std::string::String::from_utf8`: the text that the bytes encode, where they
/// are UTF-8.
#[verifier::external_body]
pub(crate) fn from_utf8(bytes: Vec<u8>) -> (r: Option<String>)
    ensures
        r is Some <==> valid_utf8(bytes@),
        r matches Some(s) ==> s@ == decode_utf8(bytes@),
{
    String::from_utf8(bytes).ok()
}

} // verus!

//! Codec layer: typed keys and values become byte buffers and come back.
//!
//! Serialization is done by `bincode` (fixed-width integers, little-endian,
//! length-prefixed strings and sequences). Each call into `bincode` sits
//! behind a trusted wrapper whose contract states the exact byte layout; the
//! typed [`FasterKey`] and [`FasterValue`] implementations are verified
//! against those contracts, so decoding provably inverts encoding.

use vstd::bytes::lemma_auto_spec_u32_to_from_le_bytes;
use vstd::bytes::lemma_auto_spec_u64_to_from_le_bytes;
use vstd::bytes::spec_u32_from_le_bytes;
use vstd::bytes::spec_u32_to_le_bytes;
use vstd::bytes::spec_u64_from_le_bytes;
use vstd::bytes::spec_u64_to_le_bytes;
use vstd::prelude::*;
use vstd::utf8::encode_utf8;
use vstd::utf8::encode_utf8_valid_utf8;
use vstd::utf8::valid_utf8;

verus! {

/// The little-endian bytes of a 32-bit signed integer: the four bytes of its
/// two's-complement bit pattern.
pub open spec fn spec_i32_to_le_bytes(v: i32) -> Seq<u8> {
    spec_u32_to_le_bytes(v as u32)
}

/// The encoding of a string: the eight little-endian bytes of its UTF-8 byte
/// length, followed by its UTF-8 bytes.
pub open spec fn spec_string_encoding(s: Seq<char>) -> Seq<u8> {
    spec_u64_to_le_bytes(encode_utf8(s).len() as u64) + encode_utf8(s)
}

/// The concatenated little-endian bytes of a sequence of 32-bit integers.
pub open spec fn spec_i32_seq_bytes(s: Seq<i32>) -> Seq<u8>
    decreases s.len(),
{
    if s.len() == 0 {
        Seq::empty()
    } else {
        spec_i32_to_le_bytes(s[0]) + spec_i32_seq_bytes(s.skip(1))
    }
}

/// The encoding of a vector of 32-bit integers: the eight little-endian
/// bytes of its element count, followed by each element's four bytes.
pub open spec fn spec_vec_i32_encoding(s: Seq<i32>) -> Seq<u8> {
    spec_u64_to_le_bytes(s.len() as u64) + spec_i32_seq_bytes(s)
}

pub proof fn lemma_i32_seq_bytes_len(s: Seq<i32>)
    ensures
        spec_i32_seq_bytes(s).len() == 4 * s.len(),
    decreases s.len(),
{
    lemma_auto_spec_u32_to_from_le_bytes();
    if s.len() > 0 {
        lemma_i32_seq_bytes_len(s.skip(1));
    }
}

/// A type that can serve as a key: it has a deterministic byte encoding.
pub trait FasterKey: Sized {
    /// The byte encoding of this key.
    spec fn key_encoding(self) -> Seq<u8>;

    /// Encode the key into the byte buffer handed to the engine.
    fn encode_key(&self) -> (r: Vec<u8>)
        ensures
            r@ == self.key_encoding(),
    ;
}

/// A type that can serve as a stored value: it has a deterministic byte
/// encoding, and decoding succeeds exactly on well-formed encodings.
pub trait FasterValue: Sized {
    /// The byte encoding of this value.
    spec fn encoding(self) -> Seq<u8>;

    /// Encode the value into the byte buffer handed to the engine.
    fn encode(&self) -> (r: Vec<u8>)
        ensures
            r@ == self.encoding(),
    ;

    /// Decode a value from bytes handed back by the engine. Succeeds on
    /// every byte sequence some value encodes to, and only ever yields a
    /// value that encodes back to exactly the input.
    fn decode(bytes: &[u8]) -> (r: Option<Self>)
        ensures
            (exists|v: Self| v.encoding() == bytes@) ==> r is Some,
            r is Some ==> r.unwrap().encoding() == bytes@,
    ;
}

/// Relies on `bincode::serialize`: a `u64` is serialized as its eight
/// little-endian bytes (fixed-width integer encoding), and serializing a
/// `u64` cannot fail.
#[verifier::external_body]
fn bincode_serialize_u64(v: &u64) -> (r: Vec<u8>)
    ensures
        r@ == spec_u64_to_le_bytes(*v),
{
    bincode::serialize(v).unwrap()
}

/// Relies on `bincode::deserialize`: a `u64` is read from the first eight
/// bytes, little-endian; fewer than eight bytes is an error; trailing bytes
/// are ignored.
#[verifier::external_body]
fn bincode_deserialize_u64(bytes: &[u8]) -> (r: Option<u64>)
    ensures
        bytes@.len() >= 8 ==> r == Some(spec_u64_from_le_bytes(bytes@.take(8))),
        bytes@.len() < 8 ==> r is None,
{
    bincode::deserialize(bytes).ok()
}

/// Relies on `bincode::serialize`: an `i32` is serialized as the four
/// little-endian bytes of its two's-complement bit pattern, and serializing
/// an `i32` cannot fail.
#[verifier::external_body]
fn bincode_serialize_i32(v: &i32) -> (r: Vec<u8>)
    ensures
        r@ == spec_i32_to_le_bytes(*v),
{
    bincode::serialize(v).unwrap()
}

/// Relies on `bincode::deserialize`: an `i32` is read from the first four
/// bytes, little-endian two's complement; fewer than four bytes is an error;
/// trailing bytes are ignored.
#[verifier::external_body]
fn bincode_deserialize_i32(bytes: &[u8]) -> (r: Option<i32>)
    ensures
        bytes@.len() >= 4 ==> r == Some(spec_u32_from_le_bytes(bytes@.take(4)) as i32),
        bytes@.len() < 4 ==> r is None,
{
    bincode::deserialize(bytes).ok()
}

/// Relies on `bincode::serialize`: a `String` is serialized as the eight
/// little-endian bytes of its UTF-8 byte length followed by its UTF-8
/// bytes, and serializing a `String` cannot fail.
#[verifier::external_body]
fn bincode_serialize_string(v: &String) -> (r: Vec<u8>)
    ensures
        r@ == spec_string_encoding(v@),
{
    bincode::serialize(v).unwrap()
}

/// Relies on `bincode::deserialize`: a `String` is read as an eight-byte
/// little-endian length followed by that many UTF-8 bytes; a short buffer or
/// invalid UTF-8 is an error; trailing bytes are ignored.
#[verifier::external_body]
fn bincode_deserialize_string(bytes: &[u8]) -> (r: Option<String>)
    ensures
        r is Some ==> bytes@.len() >= 8 + encode_utf8(r.unwrap()@).len(),
        r is Some ==> bytes@.take(8) == spec_u64_to_le_bytes(
            encode_utf8(r.unwrap()@).len() as u64,
        ),
        r is Some ==> encode_utf8(r.unwrap()@) == bytes@.subrange(
            8,
            8 + encode_utf8(r.unwrap()@).len() as int,
        ),
        (bytes@.len() >= 8 && bytes@.take(8) == spec_u64_to_le_bytes((bytes@.len() - 8) as u64)
            && valid_utf8(bytes@.skip(8))) ==> r is Some,
{
    bincode::deserialize(bytes).ok()
}

/// Relies on `bincode::serialize`: a `Vec<i32>` is serialized as the eight
/// little-endian bytes of its element count followed by each element's four
/// little-endian bytes, and serializing a `Vec<i32>` cannot fail.
#[verifier::external_body]
fn bincode_serialize_vec_i32(v: &Vec<i32>) -> (r: Vec<u8>)
    ensures
        r@ == spec_vec_i32_encoding(v@),
{
    bincode::serialize(v).unwrap()
}

/// Relies on `bincode::deserialize`: a `Vec<i32>` is read as an eight-byte
/// little-endian element count followed by that many four-byte elements; a
/// short buffer is an error; trailing bytes are ignored.
#[verifier::external_body]
fn bincode_deserialize_vec_i32(bytes: &[u8]) -> (r: Option<Vec<i32>>)
    ensures
        r is Some ==> bytes@.len() >= 8 + 4 * r.unwrap()@.len(),
        r is Some ==> bytes@.take(8) == spec_u64_to_le_bytes(r.unwrap()@.len() as u64),
        r is Some ==> spec_i32_seq_bytes(r.unwrap()@) == bytes@.subrange(
            8,
            8 + 4 * r.unwrap()@.len() as int,
        ),
        (bytes@.len() >= 8 && (bytes@.len() - 8) % 4 == 0 && bytes@.take(8)
            == spec_u64_to_le_bytes(((bytes@.len() - 8) / 4) as u64)) ==> r is Some,
{
    bincode::deserialize(bytes).ok()
}

impl FasterKey for u64 {
    open spec fn key_encoding(self) -> Seq<u8> {
        spec_u64_to_le_bytes(self)
    }

    fn encode_key(&self) -> (r: Vec<u8>) {
        bincode_serialize_u64(self)
    }
}

impl FasterValue for u64 {
    open spec fn encoding(self) -> Seq<u8> {
        spec_u64_to_le_bytes(self)
    }

    fn encode(&self) -> (r: Vec<u8>) {
        bincode_serialize_u64(self)
    }

    fn decode(bytes: &[u8]) -> (r: Option<u64>) {
        proof {
            lemma_auto_spec_u64_to_from_le_bytes();
        }
        if bytes.len() == 8 {
            let r = bincode_deserialize_u64(bytes);
            proof {
                assert(bytes@.take(8) =~= bytes@);
            }
            r
        } else {
            None
        }
    }
}

impl FasterKey for String {
    open spec fn key_encoding(self) -> Seq<u8> {
        spec_string_encoding(self@)
    }

    fn encode_key(&self) -> (r: Vec<u8>) {
        bincode_serialize_string(self)
    }
}

impl FasterValue for String {
    open spec fn encoding(self) -> Seq<u8> {
        spec_string_encoding(self@)
    }

    fn encode(&self) -> (r: Vec<u8>) {
        bincode_serialize_string(self)
    }

    fn decode(bytes: &[u8]) -> (r: Option<String>) {
        proof {
            lemma_auto_spec_u64_to_from_le_bytes();
        }
        match bincode_deserialize_string(bytes) {
            Some(s) => {
                let utf8_len = s.as_str().len();
                if utf8_len <= usize::MAX - 8 && 8 + utf8_len == bytes.len() {
                    proof {
                        assert(s.encoding() =~= bytes@);
                    }
                    Some(s)
                } else {
                    proof {
                        if exists|v: String| v.encoding() == bytes@ {
                            let v = choose|v: String| v.encoding() == bytes@;
                            assert(bytes@.take(8) =~= spec_u64_to_le_bytes(
                                encode_utf8(v@).len() as u64,
                            ));
                            assert(encode_utf8(s@).len() as u64 == encode_utf8(v@).len() as u64);
                            assert(bytes@.len() == 8 + encode_utf8(v@).len());
                            vstd::slice::axiom_spec_len::<u8>(bytes);
                            assert(encode_utf8(s@).len() == encode_utf8(v@).len());
                            assert(false);
                        }
                    }
                    None
                }
            },
            None => {
                proof {
                    if exists|v: String| v.encoding() == bytes@ {
                        let v = choose|v: String| v.encoding() == bytes@;
                        encode_utf8_valid_utf8(v@);
                        assert(bytes@.take(8) =~= spec_u64_to_le_bytes(
                            (bytes@.len() - 8) as u64,
                        ));
                        assert(bytes@.skip(8) =~= encode_utf8(v@));
                        assert(false);
                    }
                }
                None
            },
        }
    }
}

impl FasterValue for i32 {
    open spec fn encoding(self) -> Seq<u8> {
        spec_i32_to_le_bytes(self)
    }

    fn encode(&self) -> (r: Vec<u8>) {
        bincode_serialize_i32(self)
    }

    fn decode(bytes: &[u8]) -> (r: Option<i32>) {
        proof {
            lemma_auto_spec_u32_to_from_le_bytes();
        }
        if bytes.len() == 4 {
            let r = bincode_deserialize_i32(bytes);
            proof {
                assert(bytes@.take(4) =~= bytes@);
                let v = spec_u32_from_le_bytes(bytes@);
                assert((v as i32) as u32 == v) by (bit_vector);
            }
            r
        } else {
            None
        }
    }
}

impl FasterValue for Vec<i32> {
    open spec fn encoding(self) -> Seq<u8> {
        spec_vec_i32_encoding(self@)
    }

    fn encode(&self) -> (r: Vec<u8>) {
        bincode_serialize_vec_i32(self)
    }

    fn decode(bytes: &[u8]) -> (r: Option<Vec<i32>>) {
        proof {
            lemma_auto_spec_u64_to_from_le_bytes();
        }
        match bincode_deserialize_vec_i32(bytes) {
            Some(s) => {
                let n = s.len();
                let total = bytes.len();
                if n <= (usize::MAX - 8) / 4 && 8 + 4 * n == total {
                    proof {
                        lemma_i32_seq_bytes_len(s@);
                        assert(s.encoding() =~= bytes@);
                    }
                    Some(s)
                } else {
                    proof {
                        lemma_i32_seq_bytes_len(s@);
                        if exists|v: Vec<i32>| v.encoding() == bytes@ {
                            let v = choose|v: Vec<i32>| v.encoding() == bytes@;
                            lemma_i32_seq_bytes_len(v@);
                            assert(bytes@.len() == 8 + 4 * v@.len());
                            assert(bytes@.take(8) =~= spec_u64_to_le_bytes(v@.len() as u64));
                            assert(v@.len() as u64 == s@.len() as u64);
                            assert(false);
                        }
                    }
                    None
                }
            },
            None => {
                proof {
                    if exists|v: Vec<i32>| v.encoding() == bytes@ {
                        let v = choose|v: Vec<i32>| v.encoding() == bytes@;
                        lemma_i32_seq_bytes_len(v@);
                        assert(bytes@.take(8) =~= spec_u64_to_le_bytes(v@.len() as u64));
                        assert(false);
                    }
                }
                None
            },
        }
    }
}

} // verus!

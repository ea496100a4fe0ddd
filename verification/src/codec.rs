//! Tag-prefixed binary encoding for `Either`.
//!
//! A value encodes as one leading tag byte — 0 for `Left`, 1 for `Right` —
//! followed by the live payload's own borsh encoding.  Decoding reads the tag
//! byte first and then dispatches to the matching payload decoder, rejecting
//! anything that is not the exact encoding of some value.  The encoding is
//! given here for byte payloads on the left and `u128` payloads on the right;
//! the payload bytes themselves are produced and consumed by borsh.

use vstd::prelude::*;

verus! {

use crate::Either;

/// The 16 little-endian bytes of a `u128`, as borsh writes them.
pub open spec fn u128_le_bytes(x: u128) -> Seq<u8> {
    seq![
        (x & 0xff) as u8,
        ((x >> 8) & 0xff) as u8,
        ((x >> 16) & 0xff) as u8,
        ((x >> 24) & 0xff) as u8,
        ((x >> 32) & 0xff) as u8,
        ((x >> 40) & 0xff) as u8,
        ((x >> 48) & 0xff) as u8,
        ((x >> 56) & 0xff) as u8,
        ((x >> 64) & 0xff) as u8,
        ((x >> 72) & 0xff) as u8,
        ((x >> 80) & 0xff) as u8,
        ((x >> 88) & 0xff) as u8,
        ((x >> 96) & 0xff) as u8,
        ((x >> 104) & 0xff) as u8,
        ((x >> 112) & 0xff) as u8,
        ((x >> 120) & 0xff) as u8,
    ]
}

/// The exact byte encoding of a value: a tag byte, then the payload's bytes.
pub open spec fn spec_encode(e: Either<u8, u128>) -> Seq<u8> {
    match e {
        Either::Left(v) => seq![0u8, v],
        Either::Right(v) => seq![1u8] + u128_le_bytes(v),
    }
}

/// Why a byte string failed to decode.
#[derive(Copy, Clone, PartialEq, Eq, Debug)]
pub enum DecodeError {
    /// The input is empty, or its payload has the wrong length for its tag.
    WrongLength,
    /// The leading tag byte is neither 0 (`Left`) nor 1 (`Right`).
    BadTag,
}

/// Relies on `borsh::to_vec` with the `BorshSerialize` impl for `u8`:
/// a `u8` is written as its single byte.  Writing into the fresh vector that
/// `to_vec` allocates cannot fail.
#[verifier::external_body]
fn borsh_bytes_u8(x: u8) -> (r: Vec<u8>)
    ensures
        r@ == seq![x],
{
    borsh::to_vec(&x).unwrap()
}

/// Relies on `borsh::to_vec` with the `BorshSerialize` impl for `u128`:
/// a `u128` is written as its 16 little-endian bytes.  Writing into the
/// fresh vector that `to_vec` allocates cannot fail.
#[verifier::external_body]
fn borsh_bytes_u128(x: u128) -> (r: Vec<u8>)
    ensures
        r@ == u128_le_bytes(x),
{
    borsh::to_vec(&x).unwrap()
}

/// Relies on `borsh::from_slice` with the `BorshDeserialize` impl for `u8`:
/// exactly one byte is read back as itself; any other length is rejected.
#[verifier::external_body]
fn borsh_parse_u8(b: &[u8]) -> (r: Option<u8>)
    ensures
        r is Some <==> b@.len() == 1,
        b@.len() == 1 ==> r == Some(b@[0]),
{
    borsh::from_slice::<u8>(b).ok()
}

/// Relies on `borsh::from_slice` with the `BorshDeserialize` impl for
/// `u128`: exactly 16 little-endian bytes are read back; any other length is
/// rejected.
#[verifier::external_body]
fn borsh_parse_u128(b: &[u8]) -> (r: Option<u128>)
    ensures
        r is Some <==> b@.len() == 16,
        r matches Some(v) ==> b@ == u128_le_bytes(v),
{
    borsh::from_slice::<u128>(b).ok()
}

impl Either<u8, u128> {
    /// Encodes this value as its tag byte followed by the payload's borsh
    /// bytes.
    pub fn encode(&self) -> (r: Vec<u8>)
        ensures
            r@ == spec_encode(*self),
    {
        let mut out: Vec<u8> = Vec::new();
        match *self {
            Either::Left(v) => {
                out.push(0u8);
                let mut payload = borsh_bytes_u8(v);
                out.append(&mut payload);
            },
            Either::Right(v) => {
                out.push(1u8);
                let mut payload = borsh_bytes_u128(v);
                out.append(&mut payload);
            },
        }
        proof {
            assert(out@ =~= spec_encode(*self));
        }
        out
    }

    /// Decodes a byte string: accepts exactly the encodings that `encode`
    /// produces, and reproduces the encoded tag and payload.
    pub fn decode(bytes: &Vec<u8>) -> (r: Result<Either<u8, u128>, DecodeError>)
        ensures
            r matches Ok(e) ==> bytes@ == spec_encode(e),
            forall|e: Either<u8, u128>| bytes@ == spec_encode(e) ==> r == Ok::<
                Either<u8, u128>,
                DecodeError,
            >(e),
    {
        if bytes.len() == 0 {
            proof {
                assert forall|e: Either<u8, u128>| bytes@ != spec_encode(e) by {
                    assert(spec_encode(e).len() == if e is Left {
                        2int
                    } else {
                        17int
                    });
                }
            }
            return Err(DecodeError::WrongLength);
        }
        let tag = bytes[0];
        let mut payload: Vec<u8> = Vec::new();
        let mut i: usize = 1;
        while i < bytes.len()
            invariant
                1 <= i <= bytes@.len(),
                payload@ == bytes@.subrange(1, i as int),
            decreases bytes@.len() - i,
        {
            payload.push(bytes[i]);
            proof {
                assert(payload@ =~= bytes@.subrange(1, i + 1));
            }
            i = i + 1;
        }
        proof {
            assert(bytes@ =~= seq![bytes@[0]] + payload@);
        }
        if tag == 0 {
            match borsh_parse_u8(payload.as_slice()) {
                Some(v) => {
                    proof {
                        assert(bytes@ =~= spec_encode(Either::Left(v)));
                        lemma_codec_round_trip(Either::Left(v), bytes@);
                    }
                    Ok(Either::Left(v))
                },
                None => {
                    proof {
                        assert forall|e: Either<u8, u128>| bytes@ != spec_encode(e) by {
                            assert(spec_encode(e).len() == if e is Left {
                                2int
                            } else {
                                17int
                            });
                            assert(spec_encode(e)[0] == if e is Left {
                                0u8
                            } else {
                                1u8
                            });
                        }
                    }
                    Err(DecodeError::WrongLength)
                },
            }
        } else if tag == 1 {
            match borsh_parse_u128(payload.as_slice()) {
                Some(v) => {
                    proof {
                        assert(bytes@ =~= spec_encode(Either::Right(v)));
                        lemma_codec_round_trip(Either::Right(v), bytes@);
                    }
                    Ok(Either::Right(v))
                },
                None => {
                    proof {
                        assert forall|e: Either<u8, u128>| bytes@ != spec_encode(e) by {
                            assert(spec_encode(e).len() == if e is Left {
                                2int
                            } else {
                                17int
                            });
                            assert(spec_encode(e)[0] == if e is Left {
                                0u8
                            } else {
                                1u8
                            });
                        }
                    }
                    Err(DecodeError::WrongLength)
                },
            }
        } else {
            proof {
                assert forall|e: Either<u8, u128>| bytes@ != spec_encode(e) by {
                    assert(spec_encode(e)[0] == if e is Left {
                        0u8
                    } else {
                        1u8
                    });
                }
            }
            Err(DecodeError::BadTag)
        }
    }
}

/// Round trip: decoding an encoded value gives back exactly the original tag
/// and payload.  Together with the contract of `decode`, this holds because
/// no two values share an encoding.
pub proof fn lemma_codec_round_trip(e: Either<u8, u128>, bytes: Seq<u8>)
    requires
        bytes == spec_encode(e),
    ensures
        forall|d: Either<u8, u128>| bytes == spec_encode(d) ==> d == e,
{
    assert forall|d: Either<u8, u128>| bytes == spec_encode(d) implies d == e by {
        match (d, e) {
            (Either::Left(a), Either::Left(b)) => {
                assert(spec_encode(d)[1] == spec_encode(e)[1]);
            },
            (Either::Right(a), Either::Right(b)) => {
                assert(u128_le_bytes(a) =~= (seq![1u8] + u128_le_bytes(a)).subrange(1, 17));
                assert(u128_le_bytes(b) =~= (seq![1u8] + u128_le_bytes(b)).subrange(1, 17));
                lemma_u128_le_bytes_injective(a, b);
            },
            (Either::Left(a), Either::Right(b)) => {
                assert(spec_encode(d).len() != spec_encode(e).len());
            },
            (Either::Right(a), Either::Left(b)) => {
                assert(spec_encode(d).len() != spec_encode(e).len());
            },
        }
    }
}

/// Two different `u128` values never share their little-endian bytes.
proof fn lemma_u128_le_bytes_injective(a: u128, b: u128)
    requires
        u128_le_bytes(a) == u128_le_bytes(b),
    ensures
        a == b,
{
    assert(u128_le_bytes(a)[0] == u128_le_bytes(b)[0]);
    assert(u128_le_bytes(a)[1] == u128_le_bytes(b)[1]);
    assert(u128_le_bytes(a)[2] == u128_le_bytes(b)[2]);
    assert(u128_le_bytes(a)[3] == u128_le_bytes(b)[3]);
    assert(u128_le_bytes(a)[4] == u128_le_bytes(b)[4]);
    assert(u128_le_bytes(a)[5] == u128_le_bytes(b)[5]);
    assert(u128_le_bytes(a)[6] == u128_le_bytes(b)[6]);
    assert(u128_le_bytes(a)[7] == u128_le_bytes(b)[7]);
    assert(u128_le_bytes(a)[8] == u128_le_bytes(b)[8]);
    assert(u128_le_bytes(a)[9] == u128_le_bytes(b)[9]);
    assert(u128_le_bytes(a)[10] == u128_le_bytes(b)[10]);
    assert(u128_le_bytes(a)[11] == u128_le_bytes(b)[11]);
    assert(u128_le_bytes(a)[12] == u128_le_bytes(b)[12]);
    assert(u128_le_bytes(a)[13] == u128_le_bytes(b)[13]);
    assert(u128_le_bytes(a)[14] == u128_le_bytes(b)[14]);
    assert(u128_le_bytes(a)[15] == u128_le_bytes(b)[15]);
    assert(a == b) by (bit_vector)
        requires
            (a & 0xff) as u8 == (b & 0xff) as u8,
            ((a >> 8) & 0xff) as u8 == ((b >> 8) & 0xff) as u8,
            ((a >> 16) & 0xff) as u8 == ((b >> 16) & 0xff) as u8,
            ((a >> 24) & 0xff) as u8 == ((b >> 24) & 0xff) as u8,
            ((a >> 32) & 0xff) as u8 == ((b >> 32) & 0xff) as u8,
            ((a >> 40) & 0xff) as u8 == ((b >> 40) & 0xff) as u8,
            ((a >> 48) & 0xff) as u8 == ((b >> 48) & 0xff) as u8,
            ((a >> 56) & 0xff) as u8 == ((b >> 56) & 0xff) as u8,
            ((a >> 64) & 0xff) as u8 == ((b >> 64) & 0xff) as u8,
            ((a >> 72) & 0xff) as u8 == ((b >> 72) & 0xff) as u8,
            ((a >> 80) & 0xff) as u8 == ((b >> 80) & 0xff) as u8,
            ((a >> 88) & 0xff) as u8 == ((b >> 88) & 0xff) as u8,
            ((a >> 96) & 0xff) as u8 == ((b >> 96) & 0xff) as u8,
            ((a >> 104) & 0xff) as u8 == ((b >> 104) & 0xff) as u8,
            ((a >> 112) & 0xff) as u8 == ((b >> 112) & 0xff) as u8,
            ((a >> 120) & 0xff) as u8 == ((b >> 120) & 0xff) as u8,
    ;
}

} // verus!

//! The primitives of the wire format: little-endian integers and
//! length-prefixed blocks.

use crate::Error;
use vstd::bytes::*;
use vstd::prelude::*;
use vstd::slice::slice_subrange;

verus! {

/// The bytes of a length-prefixed block: the payload's length in bytes as a
/// 64-bit little-endian integer, then the payload.
pub open spec fn spec_block(payload: Seq<u8>) -> Seq<u8> {
    spec_u64_to_le_bytes(payload.len() as u64) + payload
}

/// Splits `s` into the payload of the length-prefixed block it starts with
/// and what follows that block. `short` is the error for a buffer that ends
/// before the block does.
pub open spec fn spec_take_block(s: Seq<u8>, short: Error) -> Result<(Seq<u8>, Seq<u8>), Error> {
    if s.len() < 8 {
        Err(short)
    } else {
        let size = spec_u64_from_le_bytes(s.subrange(0, 8));
        if size > usize::MAX {
            Err(Error::IntegerConvertionError)
        } else if size > s.len() - 8 {
            Err(short)
        } else {
            Ok((s.subrange(8, 8 + size), s.subrange(8 + size, s.len() as int)))
        }
    }
}

/// Appends the four little-endian bytes of `x`.
pub fn put_u32(buffer: &mut Vec<u8>, x: u32)
    ensures
        final(buffer)@ == old(buffer)@ + spec_u32_to_le_bytes(x),
{
    let mut bytes = u32_to_le_bytes(x);
    buffer.append(&mut bytes);
}

/// Appends the eight little-endian bytes of `x`.
pub fn put_u64(buffer: &mut Vec<u8>, x: u64)
    ensures
        final(buffer)@ == old(buffer)@ + spec_u64_to_le_bytes(x),
{
    let mut bytes = u64_to_le_bytes(x);
    buffer.append(&mut bytes);
}

/// Reads the 32-bit little-endian integer that starts at `at`.
pub fn get_u32(buffer: &[u8], at: usize) -> (x: u32)
    requires
        at + 4 <= buffer.len(),
    ensures
        x == spec_u32_from_le_bytes(buffer@.subrange(at as int, at + 4)),
{
    u32_from_le_bytes(slice_subrange(buffer, at, at + 4))
}

/// Reads the 64-bit little-endian integer that starts at `at`.
pub fn get_u64(buffer: &[u8], at: usize) -> (x: u64)
    requires
        at + 8 <= buffer.len(),
    ensures
        x == spec_u64_from_le_bytes(buffer@.subrange(at as int, at + 8)),
{
    u64_from_le_bytes(slice_subrange(buffer, at, at + 8))
}

/// Turns a length read from the wire into a native size.
pub fn to_native(x: u64) -> (r: Result<usize, Error>)
    ensures
        x <= usize::MAX ==> r == Ok::<usize, Error>(x as usize),
        x > usize::MAX ==> r == Err::<usize, Error>(Error::IntegerConvertionError),
{
    if x > usize::MAX as u64 {
        Err(Error::IntegerConvertionError)
    } else {
        Ok(x as usize)
    }
}

/// Appends `payload` as a length-prefixed block and leaves `payload` empty.
pub fn put_block(buffer: &mut Vec<u8>, payload: &mut Vec<u8>)
    ensures
        final(buffer)@ == old(buffer)@ + spec_block(old(payload)@),
        final(payload)@ == Seq::<u8>::empty(),
{
    let size = payload.len() as u64;
    put_u64(buffer, size);
    buffer.append(payload);
}

/// Splits `buffer` into the payload of the length-prefixed block it starts
/// with and what follows that block.
pub fn take_block<'a>(buffer: &'a [u8], short: Error) -> (r: Result<(&'a [u8], &'a [u8]), Error>)
    ensures
        match r {
            Ok((block, rest)) => spec_take_block(buffer@, short) == Ok::<
                (Seq<u8>, Seq<u8>),
                Error,
            >((block@, rest@)),
            Err(e) => spec_take_block(buffer@, short) == Err::<(Seq<u8>, Seq<u8>), Error>(e),
        },
{
    if buffer.len() < 8 {
        return Err(short);
    }
    let size = match to_native(get_u64(buffer, 0)) {
        Ok(n) => n,
        Err(e) => { return Err(e); },
    };
    if size > buffer.len() - 8 {
        return Err(short);
    }
    let block = slice_subrange(buffer, 8, 8 + size);
    let rest = slice_subrange(buffer, 8 + size, buffer.len());
    Ok((block, rest))
}

/// Taking a block off its own bytes, whatever follows them, gives the
/// payload and what follows.
pub proof fn lemma_take_block(payload: Seq<u8>, tail: Seq<u8>, short: Error)
    requires
        payload.len() <= usize::MAX,
    ensures
        spec_take_block(spec_block(payload) + tail, short) == Ok::<(Seq<u8>, Seq<u8>), Error>(
            (payload, tail),
        ),
{
    lemma_auto_spec_u64_to_from_le_bytes();
    let s = spec_block(payload) + tail;
    assert(s.subrange(0, 8) =~= spec_u64_to_le_bytes(payload.len() as u64));
    let end = 8 + payload.len() as int;
    assert(s.subrange(8, end) =~= payload);
    assert(s.subrange(end, s.len() as int) =~= tail);
}

/// Taking a block off a strict prefix of its own bytes fails with the error
/// for a buffer that ends too early.
pub proof fn lemma_take_block_truncated(payload: Seq<u8>, n: int, short: Error)
    requires
        payload.len() <= usize::MAX,
        0 <= n < spec_block(payload).len(),
    ensures
        spec_take_block(spec_block(payload).take(n), short) == Err::<(Seq<u8>, Seq<u8>), Error>(
            short,
        ),
{
    lemma_auto_spec_u64_to_from_le_bytes();
    let s = spec_block(payload).take(n);
    if n >= 8 {
        assert(s.subrange(0, 8) =~= spec_u64_to_le_bytes(payload.len() as u64));
    }
}

} // verus!

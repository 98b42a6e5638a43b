//! A single vertex and its fixed-width encoding.

use crate::wire::{get_u32, put_u32};
use crate::Error;
use vstd::bytes::*;
use vstd::prelude::*;

verus! {

/// The number of bytes a vertex takes on the wire.
pub const VERTEX_SIZE: usize = 28;

/// A point in 3D space with a color. Each field holds the bit pattern of a
/// 32-bit IEEE-754 float.
#[derive(Clone, Copy, Debug, PartialEq, Eq)]
pub struct Vertex {
    /// X position
    pub x: u32,
    /// Y position
    pub y: u32,
    /// Z position
    pub z: u32,
    /// The color (r, g, b, a)
    pub color: [u32; 4],
}

impl Vertex {
    /// Creates a vertex from the bit patterns of its position and color.
    pub fn new(x: u32, y: u32, z: u32, color: [u32; 4]) -> (v: Self)
        ensures
            v == (Vertex { x, y, z, color }),
    {
        Self { x, y, z, color }
    }

    /// The 28 bytes of a vertex: x, y, z, then r, g, b, a, each as four
    /// little-endian bytes.
    pub open spec fn spec_encode(self) -> Seq<u8> {
        spec_u32_to_le_bytes(self.x) + spec_u32_to_le_bytes(self.y) + spec_u32_to_le_bytes(self.z)
            + spec_u32_to_le_bytes(self.color[0]) + spec_u32_to_le_bytes(self.color[1])
            + spec_u32_to_le_bytes(self.color[2]) + spec_u32_to_le_bytes(self.color[3])
    }

    /// The `k`-th 32-bit field of the bytes `s`.
    pub open spec fn spec_field(s: Seq<u8>, k: int) -> u32 {
        spec_u32_from_le_bytes(s.subrange(4 * k, 4 * k + 4))
    }

    /// The vertex made of the first seven fields of the bytes `s`.
    pub open spec fn spec_parse(s: Seq<u8>) -> Vertex {
        Vertex {
            x: Self::spec_field(s, 0),
            y: Self::spec_field(s, 1),
            z: Self::spec_field(s, 2),
            color: [
                Self::spec_field(s, 3),
                Self::spec_field(s, 4),
                Self::spec_field(s, 5),
                Self::spec_field(s, 6),
            ],
        }
    }

    /// What decoding the bytes `s` gives: an error when fewer than 28 bytes
    /// are there, else the vertex made of the first seven fields.
    pub open spec fn spec_decode(s: Seq<u8>) -> Result<Vertex, Error> {
        if s.len() < VERTEX_SIZE {
            Err(Error::BufferToSmallVertex)
        } else {
            Ok(Self::spec_parse(s))
        }
    }

    /// Appends the encoding of the vertex to `buffer`. Never fails. What
    /// was appended decodes to the vertex.
    pub fn serialize(&self, buffer: &mut Vec<u8>) -> (r: Result<(), Error>)
        ensures
            r is Ok,
            final(buffer)@ == old(buffer)@ + self.spec_encode(),
            Self::spec_decode(self.spec_encode()) == Ok::<Vertex, Error>(*self),
    {
        proof {
            lemma_vertex_round_trip(*self);
        }
        put_u32(buffer, self.x);
        put_u32(buffer, self.y);
        put_u32(buffer, self.z);
        put_u32(buffer, self.color[0]);
        put_u32(buffer, self.color[1]);
        put_u32(buffer, self.color[2]);
        put_u32(buffer, self.color[3]);
        Ok(())
    }

    /// Reads the vertex whose 28 bytes start at `at`.
    pub fn read_at(buffer: &[u8], at: usize) -> (v: Self)
        requires
            at + VERTEX_SIZE <= buffer.len(),
        ensures
            v == Self::spec_parse(buffer@.subrange(at as int, at + VERTEX_SIZE)),
    {
        let x = get_u32(buffer, at);
        let y = get_u32(buffer, at + 4);
        let z = get_u32(buffer, at + 8);
        let r = get_u32(buffer, at + 12);
        let g = get_u32(buffer, at + 16);
        let b = get_u32(buffer, at + 20);
        let a = get_u32(buffer, at + 24);
        proof {
            let s = buffer@;
            let t = s.subrange(at as int, at + VERTEX_SIZE);
            assert(t.subrange(0, 4) =~= s.subrange(at as int, at + 4));
            assert(t.subrange(4, 8) =~= s.subrange(at + 4, at + 8));
            assert(t.subrange(8, 12) =~= s.subrange(at + 8, at + 12));
            assert(t.subrange(12, 16) =~= s.subrange(at + 12, at + 16));
            assert(t.subrange(16, 20) =~= s.subrange(at + 16, at + 20));
            assert(t.subrange(20, 24) =~= s.subrange(at + 20, at + 24));
            assert(t.subrange(24, 28) =~= s.subrange(at + 24, at + 28));
        }
        Vertex::new(x, y, z, [r, g, b, a])
    }

    /// Decodes the vertex that `buffer` starts with.
    pub fn deserialize(buffer: &[u8]) -> (r: Result<Self, Error>)
        ensures
            r == Self::spec_decode(buffer@),
    {
        if buffer.len() < VERTEX_SIZE {
            return Err(Error::BufferToSmallVertex);
        }
        let v = Self::read_at(buffer, 0);
        proof {
            let s = buffer@;
            let t = s.subrange(0, VERTEX_SIZE as int);
            assert(t.subrange(0, 4) =~= s.subrange(0, 4));
            assert(t.subrange(4, 8) =~= s.subrange(4, 8));
            assert(t.subrange(8, 12) =~= s.subrange(8, 12));
            assert(t.subrange(12, 16) =~= s.subrange(12, 16));
            assert(t.subrange(16, 20) =~= s.subrange(16, 20));
            assert(t.subrange(20, 24) =~= s.subrange(20, 24));
            assert(t.subrange(24, 28) =~= s.subrange(24, 28));
        }
        Ok(v)
    }
}

/// A vertex takes 28 bytes, and decoding the encoding of a vertex gives the
/// vertex back, bit for bit.
pub proof fn lemma_vertex_round_trip(v: Vertex)
    ensures
        v.spec_encode().len() == VERTEX_SIZE,
        Vertex::spec_decode(v.spec_encode()) == Ok::<Vertex, Error>(v),
{
    lemma_auto_spec_u32_to_from_le_bytes();
    let s = v.spec_encode();
    assert(s.subrange(0, 4) =~= spec_u32_to_le_bytes(v.x));
    assert(s.subrange(4, 8) =~= spec_u32_to_le_bytes(v.y));
    assert(s.subrange(8, 12) =~= spec_u32_to_le_bytes(v.z));
    assert(s.subrange(12, 16) =~= spec_u32_to_le_bytes(v.color[0]));
    assert(s.subrange(16, 20) =~= spec_u32_to_le_bytes(v.color[1]));
    assert(s.subrange(20, 24) =~= spec_u32_to_le_bytes(v.color[2]));
    assert(s.subrange(24, 28) =~= spec_u32_to_le_bytes(v.color[3]));
    let d = Vertex::spec_decode(s)->Ok_0;
    assert(d.color =~= v.color);
}

/// Decoding any strict prefix of the encoding of a vertex fails, and the
/// error says that the buffer is too small.
pub proof fn lemma_vertex_truncated(v: Vertex, n: int)
    requires
        0 <= n < v.spec_encode().len(),
    ensures
        Vertex::spec_decode(v.spec_encode().take(n)) == Err::<Vertex, Error>(
            Error::BufferToSmallVertex,
        ),
{
    lemma_vertex_round_trip(v);
}

} // verus!

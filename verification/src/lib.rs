//! A compact binary format for 3D level geometry.
//!
//! A map is a list of sectors, a sector is three meshes (floor, ceiling and
//! wall), a mesh is a vertex buffer with an index buffer, and a vertex is a
//! position with a color. Every integer and every float on the wire is
//! little-endian. Floats are carried as their IEEE-754 bit patterns, so that
//! encoding and decoding are exact transcriptions.

use vstd::prelude::*;

pub mod map;
pub mod mesh;
pub mod sector;
pub mod vertex;
pub mod wire;

pub use map::Mime;
pub use mesh::Mesh;
pub use sector::Sector;
pub use vertex::Vertex;

verus! {

/// Every way in which encoding or decoding can fail.
#[derive(Clone, Copy, Debug, PartialEq, Eq, Structural)]
pub enum Error {
    /// A length does not fit the integer type it has to be stored in.
    IntegerConvertionError,
    /// The buffer does not start with the magic tag.
    IncorrectMagic,
    /// The buffer holds a version other than the supported one.
    IncorrectVersion,
    /// Fewer bytes are left than a vertex takes.
    BufferToSmallVertex,
    /// Fewer bytes are left than a mesh, or a block of a sector, claims.
    BufferToSmallSector,
    /// Fewer bytes are left than the header, or a block of the map, claims.
    BufferToSmallMap,
}

impl Error {
    /// Whether the error reports a buffer that ends too early.
    pub open spec fn is_truncation(self) -> bool {
        self == Error::BufferToSmallVertex || self == Error::BufferToSmallSector || self
            == Error::BufferToSmallMap
    }

    /// Whether the error reports a buffer that ends too early.
    pub fn is_buffer_too_small(&self) -> (b: bool)
        ensures
            b == self.is_truncation(),
    {
        match self {
            Error::BufferToSmallVertex => true,
            Error::BufferToSmallSector => true,
            Error::BufferToSmallMap => true,
            _ => false,
        }
    }
}

} // verus!

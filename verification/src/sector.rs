//! A sector: a floor mesh, a ceiling mesh and a wall mesh, each in a
//! length-prefixed block of its own.

use crate::mesh::{lemma_mesh_round_trip, Mesh, MeshView};
use crate::wire::{
    lemma_take_block, lemma_take_block_truncated, put_block, spec_block, spec_take_block,
    take_block,
};
use crate::Error;
use vstd::prelude::*;

verus! {

/// The floor, the ceiling and the walls of one region of the map.
#[derive(Clone, Debug, PartialEq, Eq)]
pub struct Sector {
    /// The mesh of the floor
    pub floor_mesh: Mesh,
    /// The mesh of the ceiling
    pub ceiling_mesh: Mesh,
    /// The mesh of the walls
    pub wall_mesh: Mesh,
}

/// What a sector holds, as mathematical values.
pub struct SectorView {
    /// The floor
    pub floor: MeshView,
    /// The ceiling
    pub ceiling: MeshView,
    /// The walls
    pub wall: MeshView,
}

impl View for Sector {
    type V = SectorView;

    open spec fn view(&self) -> SectorView {
        SectorView { floor: self.floor_mesh@, ceiling: self.ceiling_mesh@, wall: self.wall_mesh@ }
    }
}

/// Takes a length-prefixed block off the bytes `s` and decodes the mesh in
/// it: the mesh, and what follows the block.
pub open spec fn spec_take_mesh(s: Seq<u8>) -> Result<(MeshView, Seq<u8>), Error> {
    match spec_take_block(s, Error::BufferToSmallSector) {
        Err(e) => Err(e),
        Ok((block, rest)) => match MeshView::spec_decode(block) {
            Err(e) => Err(e),
            Ok(mesh) => Ok((mesh, rest)),
        },
    }
}

impl SectorView {
    /// Whether each mesh, and the encoding of each mesh, fits the native
    /// size, as those of a sector that was encoded in memory do.
    pub open spec fn fits(self) -> bool {
        &&& self.floor.fits() && self.floor.spec_encode().len() <= usize::MAX
        &&& self.ceiling.fits() && self.ceiling.spec_encode().len() <= usize::MAX
        &&& self.wall.fits() && self.wall.spec_encode().len() <= usize::MAX
    }

    /// The bytes of a sector: the floor, the ceiling and the walls, in that
    /// order, each as a block prefixed by its length in bytes.
    pub open spec fn spec_encode(self) -> Seq<u8> {
        spec_block(self.floor.spec_encode()) + spec_block(self.ceiling.spec_encode()) + spec_block(
            self.wall.spec_encode(),
        )
    }

    /// What decoding the bytes `s` gives: the floor, the ceiling and the
    /// walls, each taken off a block in turn, or the first error met on the
    /// way. The buffer is too small when a prefix is cut short or claims
    /// more bytes than are left. Bytes after the third block are ignored.
    pub open spec fn spec_decode(s: Seq<u8>) -> Result<SectorView, Error> {
        match spec_take_mesh(s) {
            Err(e) => Err(e),
            Ok((floor, after_floor)) => match spec_take_mesh(after_floor) {
                Err(e) => Err(e),
                Ok((ceiling, after_ceiling)) => match spec_take_mesh(after_ceiling) {
                    Err(e) => Err(e),
                    Ok((wall, _)) => Ok(SectorView { floor, ceiling, wall }),
                },
            },
        }
    }
}

/// Appends the encoding of `mesh` as a length-prefixed block.
fn put_mesh(buffer: &mut Vec<u8>, mesh: &Mesh)
    ensures
        final(buffer)@ == old(buffer)@ + spec_block(mesh@.spec_encode()),
        mesh@.fits(),
        mesh@.spec_encode().len() <= usize::MAX,
{
    let mut block: Vec<u8> = Vec::new();
    let _ = mesh.serialize(&mut block);
    proof {
        assert(block@ =~= mesh@.spec_encode());
        assert(block@.len() == block.len());
    }
    put_block(buffer, &mut block);
}

/// Takes a length-prefixed block off `buffer` and decodes the mesh in it.
fn take_mesh<'a>(buffer: &'a [u8]) -> (r: Result<(Mesh, &'a [u8]), Error>)
    ensures
        match r {
            Ok((mesh, rest)) => spec_take_mesh(buffer@) == Ok::<(MeshView, Seq<u8>), Error>(
                (mesh@, rest@),
            ),
            Err(e) => spec_take_mesh(buffer@) == Err::<(MeshView, Seq<u8>), Error>(e),
        },
{
    let (block, rest) = match take_block(buffer, Error::BufferToSmallSector) {
        Ok(parts) => parts,
        Err(e) => { return Err(e); },
    };
    match Mesh::deserialize(block) {
        Ok(mesh) => Ok((mesh, rest)),
        Err(e) => Err(e),
    }
}

impl Sector {
    /// Creates a sector from its three meshes.
    pub fn new(floor_mesh: Mesh, ceiling_mesh: Mesh, wall_mesh: Mesh) -> (s: Sector)
        ensures
            s.floor_mesh == floor_mesh,
            s.ceiling_mesh == ceiling_mesh,
            s.wall_mesh == wall_mesh,
    {
        Self { floor_mesh, ceiling_mesh, wall_mesh }
    }

    /// Appends the encoding of the sector to `buffer`. Never fails: a
    /// length always fits 64 bits. What was appended decodes to the sector.
    pub fn serialize(&self, buffer: &mut Vec<u8>) -> (r: Result<(), Error>)
        ensures
            r is Ok,
            final(buffer)@ == old(buffer)@ + self@.spec_encode(),
            self@.fits(),
            SectorView::spec_decode(self@.spec_encode()) == Ok::<SectorView, Error>(self@),
    {
        let ghost start = buffer@;
        put_mesh(buffer, &self.floor_mesh);
        put_mesh(buffer, &self.ceiling_mesh);
        put_mesh(buffer, &self.wall_mesh);
        proof {
            assert(buffer@ =~= start + self@.spec_encode());
            lemma_sector_round_trip(self@);
        }
        Ok(())
    }

    /// Decodes the sector that `buffer` starts with.
    pub fn deserialize(buffer: &[u8]) -> (r: Result<Self, Error>)
        ensures
            match r {
                Ok(s) => SectorView::spec_decode(buffer@) == Ok::<SectorView, Error>(s@),
                Err(e) => SectorView::spec_decode(buffer@) == Err::<SectorView, Error>(e),
            },
    {
        let (floor_mesh, buffer) = match take_mesh(buffer) {
            Ok(parts) => parts,
            Err(e) => { return Err(e); },
        };
        let (ceiling_mesh, buffer) = match take_mesh(buffer) {
            Ok(parts) => parts,
            Err(e) => { return Err(e); },
        };
        let (wall_mesh, _) = match take_mesh(buffer) {
            Ok(parts) => parts,
            Err(e) => { return Err(e); },
        };
        Ok(Sector::new(floor_mesh, ceiling_mesh, wall_mesh))
    }
}

/// Taking a mesh off the block that holds its encoding, whatever follows
/// the block, gives the mesh and what follows.
pub proof fn lemma_take_mesh(m: MeshView, tail: Seq<u8>)
    requires
        m.fits(),
        m.spec_encode().len() <= usize::MAX,
    ensures
        spec_take_mesh(spec_block(m.spec_encode()) + tail) == Ok::<(MeshView, Seq<u8>), Error>(
            (m, tail),
        ),
{
    lemma_take_block(m.spec_encode(), tail, Error::BufferToSmallSector);
    lemma_mesh_round_trip(m);
}

/// Taking a mesh off a strict prefix of the block that holds its encoding
/// fails, and the error says that the buffer is too small.
pub proof fn lemma_take_mesh_truncated(m: MeshView, n: int)
    requires
        m.fits(),
        m.spec_encode().len() <= usize::MAX,
        0 <= n < spec_block(m.spec_encode()).len(),
    ensures
        spec_take_mesh(spec_block(m.spec_encode()).take(n)) == Err::<(MeshView, Seq<u8>), Error>(
            Error::BufferToSmallSector,
        ),
{
    lemma_take_block_truncated(m.spec_encode(), n, Error::BufferToSmallSector);
}

/// Decoding the encoding of a sector gives the sector back: the same three
/// meshes, each in its place.
pub proof fn lemma_sector_round_trip(s: SectorView)
    requires
        s.fits(),
    ensures
        SectorView::spec_decode(s.spec_encode()) == Ok::<SectorView, Error>(s),
{
    let floor = spec_block(s.floor.spec_encode());
    let ceiling = spec_block(s.ceiling.spec_encode());
    let wall = spec_block(s.wall.spec_encode());
    assert(s.spec_encode() =~= floor + (ceiling + wall));
    assert(wall =~= wall + Seq::<u8>::empty());
    lemma_take_mesh(s.floor, ceiling + wall);
    lemma_take_mesh(s.ceiling, wall);
    lemma_take_mesh(s.wall, Seq::<u8>::empty());
}

/// Decoding any strict prefix of the encoding of a sector fails, and the
/// error says that the buffer is too small.
pub proof fn lemma_sector_truncated(s: SectorView, n: int)
    requires
        s.fits(),
        0 <= n < s.spec_encode().len(),
    ensures
        SectorView::spec_decode(s.spec_encode().take(n)) == Err::<SectorView, Error>(
            Error::BufferToSmallSector,
        ),
{
    let floor = spec_block(s.floor.spec_encode());
    let ceiling = spec_block(s.ceiling.spec_encode());
    let wall = spec_block(s.wall.spec_encode());
    let cut = s.spec_encode().take(n);
    if n < floor.len() {
        assert(cut =~= floor.take(n));
        lemma_take_mesh_truncated(s.floor, n);
    } else if n < floor.len() + ceiling.len() {
        let k = n - floor.len();
        assert(cut =~= floor + ceiling.take(k));
        lemma_take_mesh(s.floor, ceiling.take(k));
        lemma_take_mesh_truncated(s.ceiling, k);
    } else {
        let k = n - floor.len() - ceiling.len();
        assert(cut =~= floor + (ceiling + wall.take(k)));
        lemma_take_mesh(s.floor, ceiling + wall.take(k));
        lemma_take_mesh(s.ceiling, wall.take(k));
        lemma_take_mesh_truncated(s.wall, k);
    }
}

} // verus!

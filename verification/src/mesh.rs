//! A mesh: a vertex buffer and an index buffer, each prefixed by its
//! element count.

use crate::vertex::{lemma_vertex_round_trip, Vertex, VERTEX_SIZE};
use crate::wire::{get_u32, get_u64, put_u32, put_u64, to_native};
use crate::Error;
use vstd::bytes::*;
use vstd::prelude::*;

verus! {

/// The number of bytes an index takes on the wire.
pub const INDEX_SIZE: usize = 4;

/// The number of bytes the two counts of a mesh take on the wire.
pub const COUNTS_SIZE: usize = 16;

/// A vertex buffer with an index buffer. The indices are not held to the
/// number of vertices: they are carried as they are.
#[derive(Clone, Debug, PartialEq, Eq)]
pub struct Mesh {
    /// The vertex buffer of the mesh
    pub vertex_buffer: Vec<Vertex>,
    /// The index buffer of the mesh
    pub index_buffer: Vec<u32>,
}

/// What a mesh holds, as mathematical sequences.
pub struct MeshView {
    /// The vertices, in order
    pub vertices: Seq<Vertex>,
    /// The indices, in order
    pub indices: Seq<u32>,
}

impl View for Mesh {
    type V = MeshView;

    open spec fn view(&self) -> MeshView {
        MeshView { vertices: self.vertex_buffer@, indices: self.index_buffer@ }
    }
}

/// The encodings of the vertices `vs`, one after the other.
pub open spec fn spec_encode_vertices(vs: Seq<Vertex>) -> Seq<u8>
    decreases vs.len(),
{
    if vs.len() == 0 {
        Seq::empty()
    } else {
        spec_encode_vertices(vs.drop_last()) + vs.last().spec_encode()
    }
}

/// The indices `ixs`, each as four little-endian bytes, one after the other.
pub open spec fn spec_encode_indices(ixs: Seq<u32>) -> Seq<u8>
    decreases ixs.len(),
{
    if ixs.len() == 0 {
        Seq::empty()
    } else {
        spec_encode_indices(ixs.drop_last()) + spec_u32_to_le_bytes(ixs.last())
    }
}

impl MeshView {
    /// Whether both counts fit the native size, as those of a `Mesh` do.
    pub open spec fn fits(self) -> bool {
        self.vertices.len() <= usize::MAX && self.indices.len() <= usize::MAX
    }

    /// The bytes of a mesh: the vertex count and the index count as 64-bit
    /// little-endian integers, the vertices, then the indices.
    pub open spec fn spec_encode(self) -> Seq<u8> {
        spec_u64_to_le_bytes(self.vertices.len() as u64) + spec_u64_to_le_bytes(
            self.indices.len() as u64,
        ) + spec_encode_vertices(self.vertices) + spec_encode_indices(self.indices)
    }

    /// The vertex count that the bytes `s` claim.
    pub open spec fn spec_vertex_count(s: Seq<u8>) -> u64 {
        spec_u64_from_le_bytes(s.subrange(0, 8))
    }

    /// The index count that the bytes `s` claim.
    pub open spec fn spec_index_count(s: Seq<u8>) -> u64 {
        spec_u64_from_le_bytes(s.subrange(8, 16))
    }

    /// The `i`-th vertex in the bytes `s` of a mesh.
    pub open spec fn spec_vertex_at(s: Seq<u8>, i: int) -> Vertex {
        Vertex::spec_parse(
            s.subrange(COUNTS_SIZE + VERTEX_SIZE * i, COUNTS_SIZE + VERTEX_SIZE * i + VERTEX_SIZE),
        )
    }

    /// The `i`-th index in the bytes `s` of a mesh with `vc` vertices.
    pub open spec fn spec_index_at(s: Seq<u8>, vc: int, i: int) -> u32 {
        spec_u32_from_le_bytes(
            s.subrange(
                COUNTS_SIZE + VERTEX_SIZE * vc + INDEX_SIZE * i,
                COUNTS_SIZE + VERTEX_SIZE * vc + INDEX_SIZE * i + INDEX_SIZE,
            ),
        )
    }

    /// What decoding the bytes `s` gives. The buffer is too small when it
    /// cannot hold the two counts, the vertices that the first count claims,
    /// or after them the indices that the second count claims. A count that
    /// does not fit the native size is a conversion error. Else the mesh
    /// holds the claimed vertices and indices, in order; bytes after them
    /// are ignored.
    pub open spec fn spec_decode(s: Seq<u8>) -> Result<MeshView, Error> {
        if s.len() < COUNTS_SIZE {
            Err(Error::BufferToSmallSector)
        } else {
            let vc = Self::spec_vertex_count(s);
            let ic = Self::spec_index_count(s);
            if vc > usize::MAX || ic > usize::MAX {
                Err(Error::IntegerConvertionError)
            } else if s.len() - COUNTS_SIZE < VERTEX_SIZE * vc {
                Err(Error::BufferToSmallSector)
            } else if s.len() - COUNTS_SIZE - VERTEX_SIZE * vc < INDEX_SIZE * ic {
                Err(Error::BufferToSmallSector)
            } else {
                Ok(
                    MeshView {
                        vertices: Seq::new(vc as nat, |i: int| Self::spec_vertex_at(s, i)),
                        indices: Seq::new(ic as nat, |i: int| Self::spec_index_at(s, vc as int, i)),
                    },
                )
            }
        }
    }
}

impl Mesh {
    /// Creates a mesh from its two buffers.
    pub fn new(vertex_buffer: Vec<Vertex>, index_buffer: Vec<u32>) -> (m: Self)
        ensures
            m.vertex_buffer == vertex_buffer,
            m.index_buffer == index_buffer,
    {
        Self { vertex_buffer, index_buffer }
    }

    /// Appends the encoding of the mesh to `buffer`. Never fails: a count
    /// always fits 64 bits. What was appended decodes to the mesh.
    pub fn serialize(&self, buffer: &mut Vec<u8>) -> (r: Result<(), Error>)
        ensures
            r is Ok,
            final(buffer)@ == old(buffer)@ + self@.spec_encode(),
            self@.fits(),
            MeshView::spec_decode(self@.spec_encode()) == Ok::<MeshView, Error>(self@),
    {
        proof {
            assert(self@.vertices.len() == self.vertex_buffer.len());
            assert(self@.indices.len() == self.index_buffer.len());
            lemma_mesh_round_trip(self@);
        }
        let ghost start = buffer@;
        let vertex_count = self.vertex_buffer.len();
        let index_count = self.index_buffer.len();
        put_u64(buffer, vertex_count as u64);
        put_u64(buffer, index_count as u64);
        let ghost head = buffer@;

        let mut i: usize = 0;
        while i < vertex_count
            invariant
                i <= vertex_count,
                vertex_count == self.vertex_buffer@.len(),
                buffer@ == head + spec_encode_vertices(self.vertex_buffer@.take(i as int)),
            decreases vertex_count - i,
        {
            let vertex = &self.vertex_buffer[i];
            let _ = vertex.serialize(buffer);
            proof {
                let next = self.vertex_buffer@.take(i + 1);
                assert(next.drop_last() =~= self.vertex_buffer@.take(i as int));
                assert(buffer@ =~= head + spec_encode_vertices(next));
            }
            i = i + 1;
        }
        proof {
            assert(self.vertex_buffer@.take(vertex_count as int) =~= self.vertex_buffer@);
        }
        let ghost middle = buffer@;

        let mut j: usize = 0;
        while j < index_count
            invariant
                j <= index_count,
                index_count == self.index_buffer@.len(),
                buffer@ == middle + spec_encode_indices(self.index_buffer@.take(j as int)),
            decreases index_count - j,
        {
            put_u32(buffer, self.index_buffer[j]);
            proof {
                let next = self.index_buffer@.take(j + 1);
                assert(next.drop_last() =~= self.index_buffer@.take(j as int));
                assert(buffer@ =~= middle + spec_encode_indices(next));
            }
            j = j + 1;
        }
        proof {
            assert(self.index_buffer@.take(index_count as int) =~= self.index_buffer@);
            assert(buffer@ =~= start + self@.spec_encode());
        }
        Ok(())
    }

    /// Decodes the mesh that `buffer` starts with.
    pub fn deserialize(buffer: &[u8]) -> (r: Result<Self, Error>)
        ensures
            match r {
                Ok(m) => MeshView::spec_decode(buffer@) == Ok::<MeshView, Error>(m@),
                Err(e) => MeshView::spec_decode(buffer@) == Err::<MeshView, Error>(e),
            },
    {
        if buffer.len() < COUNTS_SIZE {
            return Err(Error::BufferToSmallSector);
        }
        let vertex_count = match to_native(get_u64(buffer, 0)) {
            Ok(n) => n,
            Err(e) => { return Err(e); },
        };
        let index_count = match to_native(get_u64(buffer, 8)) {
            Ok(n) => n,
            Err(e) => { return Err(e); },
        };

        let room = buffer.len() - COUNTS_SIZE;
        if vertex_count > room / VERTEX_SIZE {
            return Err(Error::BufferToSmallSector);
        }
        let indices_at = COUNTS_SIZE + vertex_count * VERTEX_SIZE;

        let mut vertex_buffer: Vec<Vertex> = Vec::new();
        let mut i: usize = 0;
        while i < vertex_count
            invariant
                i <= vertex_count,
                COUNTS_SIZE + vertex_count * VERTEX_SIZE <= buffer.len(),
                vertex_buffer@.len() == i,
                forall|k: int|
                    0 <= k < i ==> vertex_buffer@[k] == MeshView::spec_vertex_at(buffer@, k),
            decreases vertex_count - i,
        {
            let at = COUNTS_SIZE + i * VERTEX_SIZE;
            let vertex = Vertex::read_at(buffer, at);
            vertex_buffer.push(vertex);
            i = i + 1;
        }

        let room = buffer.len() - indices_at;
        if index_count > room / INDEX_SIZE {
            return Err(Error::BufferToSmallSector);
        }
        let mut index_buffer: Vec<u32> = Vec::new();
        let mut j: usize = 0;
        while j < index_count
            invariant
                j <= index_count,
                indices_at == COUNTS_SIZE + vertex_count * VERTEX_SIZE,
                indices_at + index_count * INDEX_SIZE <= buffer.len(),
                index_buffer@.len() == j,
                forall|k: int|
                    0 <= k < j ==> index_buffer@[k] == MeshView::spec_index_at(
                        buffer@,
                        vertex_count as int,
                        k,
                    ),
            decreases index_count - j,
        {
            let at = indices_at + j * INDEX_SIZE;
            let index = get_u32(buffer, at);
            index_buffer.push(index);
            j = j + 1;
        }

        let mesh = Self::new(vertex_buffer, index_buffer);
        proof {
            let want = MeshView::spec_decode(buffer@)->Ok_0;
            assert(mesh@.vertices =~= want.vertices);
            assert(mesh@.indices =~= want.indices);
        }
        Ok(mesh)
    }
}

/// The encoding of a sequence of vertices takes 28 bytes for each.
pub proof fn lemma_encode_vertices_len(vs: Seq<Vertex>)
    ensures
        spec_encode_vertices(vs).len() == VERTEX_SIZE * vs.len(),
    decreases vs.len(),
{
    if vs.len() > 0 {
        lemma_encode_vertices_len(vs.drop_last());
        lemma_vertex_round_trip(vs.last());
    }
}

/// The `i`-th 28 bytes of the encoding of a sequence of vertices are the
/// encoding of its `i`-th vertex.
pub proof fn lemma_encode_vertices_at(vs: Seq<Vertex>, i: int)
    requires
        0 <= i < vs.len(),
    ensures
        spec_encode_vertices(vs).subrange(VERTEX_SIZE * i, VERTEX_SIZE * i + VERTEX_SIZE)
            == vs[i].spec_encode(),
    decreases vs.len(),
{
    let init = vs.drop_last();
    let all = spec_encode_vertices(vs);
    let lo = VERTEX_SIZE * i;
    lemma_encode_vertices_len(init);
    lemma_vertex_round_trip(vs.last());
    if i < init.len() {
        lemma_encode_vertices_at(init, i);
        assert(all.subrange(lo, lo + VERTEX_SIZE) =~= spec_encode_vertices(init).subrange(
            lo,
            lo + VERTEX_SIZE,
        ));
    } else {
        assert(all.subrange(lo, lo + VERTEX_SIZE) =~= vs.last().spec_encode());
    }
}

/// The encoding of a sequence of indices takes 4 bytes for each.
pub proof fn lemma_encode_indices_len(ixs: Seq<u32>)
    ensures
        spec_encode_indices(ixs).len() == INDEX_SIZE * ixs.len(),
    decreases ixs.len(),
{
    lemma_auto_spec_u32_to_from_le_bytes();
    if ixs.len() > 0 {
        lemma_encode_indices_len(ixs.drop_last());
    }
}

/// The `i`-th 4 bytes of the encoding of a sequence of indices are the
/// little-endian bytes of its `i`-th index.
pub proof fn lemma_encode_indices_at(ixs: Seq<u32>, i: int)
    requires
        0 <= i < ixs.len(),
    ensures
        spec_encode_indices(ixs).subrange(INDEX_SIZE * i, INDEX_SIZE * i + INDEX_SIZE)
            == spec_u32_to_le_bytes(ixs[i]),
    decreases ixs.len(),
{
    lemma_auto_spec_u32_to_from_le_bytes();
    let init = ixs.drop_last();
    let all = spec_encode_indices(ixs);
    let lo = INDEX_SIZE * i;
    lemma_encode_indices_len(init);
    if i < init.len() {
        lemma_encode_indices_at(init, i);
        assert(all.subrange(lo, lo + INDEX_SIZE) =~= spec_encode_indices(init).subrange(
            lo,
            lo + INDEX_SIZE,
        ));
    } else {
        assert(all.subrange(lo, lo + INDEX_SIZE) =~= spec_u32_to_le_bytes(ixs.last()));
    }
}

/// The encoding of a mesh takes 16 bytes, 28 for each vertex and 4 for each
/// index.
pub proof fn lemma_mesh_encode_len(m: MeshView)
    ensures
        m.spec_encode().len() == COUNTS_SIZE + VERTEX_SIZE * m.vertices.len() + INDEX_SIZE
            * m.indices.len(),
{
    lemma_auto_spec_u64_to_from_le_bytes();
    lemma_encode_vertices_len(m.vertices);
    lemma_encode_indices_len(m.indices);
}

/// The two counts that the bytes of a mesh start with are read back from
/// any prefix of its encoding that holds them.
pub proof fn lemma_mesh_counts(m: MeshView, n: int)
    requires
        m.fits(),
        COUNTS_SIZE <= n <= m.spec_encode().len(),
    ensures
        MeshView::spec_vertex_count(m.spec_encode().take(n)) == m.vertices.len(),
        MeshView::spec_index_count(m.spec_encode().take(n)) == m.indices.len(),
{
    lemma_auto_spec_u64_to_from_le_bytes();
    let s = m.spec_encode().take(n);
    assert(s.subrange(0, 8) =~= spec_u64_to_le_bytes(m.vertices.len() as u64));
    assert(s.subrange(8, 16) =~= spec_u64_to_le_bytes(m.indices.len() as u64));
}

/// Decoding the encoding of a mesh gives the mesh back: the same vertices
/// and the same indices, in order, whatever the indices are.
pub proof fn lemma_mesh_round_trip(m: MeshView)
    requires
        m.fits(),
    ensures
        MeshView::spec_decode(m.spec_encode()) == Ok::<MeshView, Error>(m),
{
    let s = m.spec_encode();
    let vc = m.vertices.len() as int;
    let ic = m.indices.len() as int;
    lemma_mesh_encode_len(m);
    lemma_mesh_counts(m, s.len() as int);
    assert(s.take(s.len() as int) =~= s);
    lemma_encode_vertices_len(m.vertices);
    lemma_encode_indices_len(m.indices);
    let got = MeshView::spec_decode(s)->Ok_0;
    assert forall|i: int| 0 <= i < vc implies got.vertices[i] == m.vertices[i] by {
        lemma_encode_vertices_at(m.vertices, i);
        lemma_vertex_round_trip(m.vertices[i]);
        let lo = COUNTS_SIZE + VERTEX_SIZE * i;
        assert(s.subrange(lo, lo + VERTEX_SIZE) =~= spec_encode_vertices(m.vertices).subrange(
            VERTEX_SIZE * i,
            VERTEX_SIZE * i + VERTEX_SIZE,
        ));
    }
    assert forall|i: int| 0 <= i < ic implies got.indices[i] == m.indices[i] by {
        lemma_encode_indices_at(m.indices, i);
        lemma_auto_spec_u32_to_from_le_bytes();
        let lo = COUNTS_SIZE + VERTEX_SIZE * vc + INDEX_SIZE * i;
        assert(s.subrange(lo, lo + INDEX_SIZE) =~= spec_encode_indices(m.indices).subrange(
            INDEX_SIZE * i,
            INDEX_SIZE * i + INDEX_SIZE,
        ));
    }
    assert(got.vertices =~= m.vertices);
    assert(got.indices =~= m.indices);
}

/// Decoding any strict prefix of the encoding of a mesh fails, and the error
/// says that the buffer is too small.
pub proof fn lemma_mesh_truncated(m: MeshView, n: int)
    requires
        m.fits(),
        0 <= n < m.spec_encode().len(),
    ensures
        MeshView::spec_decode(m.spec_encode().take(n)) == Err::<MeshView, Error>(
            Error::BufferToSmallSector,
        ),
{
    lemma_mesh_encode_len(m);
    if n >= COUNTS_SIZE {
        lemma_mesh_counts(m, n);
    }
}

} // verus!

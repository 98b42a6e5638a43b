use mime::map::{Mime, CURRENT_VERSION, HEADER_SIZE, PREAMBLE_SIZE};
use mime::mesh::{Mesh, COUNTS_SIZE, INDEX_SIZE};
use mime::sector::Sector;
use mime::vertex::{Vertex, VERTEX_SIZE};
use mime::wire::{get_u32, get_u64, put_block, put_u32, put_u64, take_block, to_native};
use mime::Error;

fn bits(values: [f32; 7]) -> Vertex {
    Vertex::new(
        values[0].to_bits(),
        values[1].to_bits(),
        values[2].to_bits(),
        [values[3].to_bits(), values[4].to_bits(), values[5].to_bits(), values[6].to_bits()],
    )
}

fn square() -> Mesh {
    let vertices = vec![
        bits([0.0, 0.0, 0.0, 1.0, 1.0, 1.0, 1.0]),
        bits([0.0, 1.0, 0.0, 1.0, 1.0, 1.0, 1.0]),
        bits([1.0, 1.0, 0.0, 1.0, 1.0, 1.0, 1.0]),
        bits([1.0, 0.0, 0.0, 1.0, 1.0, 1.0, 1.0]),
    ];
    Mesh::new(vertices, vec![0, 1, 2, 2, 3, 0])
}

fn triangle() -> Mesh {
    let vertices = vec![
        bits([0.5, -2.0, 8.25, 0.0, 0.25, 0.5, 1.0]),
        bits([-1.5, 3.0, 0.0, 1.0, 0.0, 0.0, 1.0]),
        bits([7.0, 7.0, 7.0, 0.0, 0.0, 1.0, 0.5]),
    ];
    Mesh::new(vertices, vec![2, 1, 0])
}

fn empty_mesh() -> Mesh {
    Mesh::new(Vec::new(), Vec::new())
}

fn room() -> Sector {
    Sector::new(square(), square(), square())
}

fn encode_vertex(v: &Vertex) -> Vec<u8> {
    let mut buffer = Vec::new();
    v.serialize(&mut buffer).unwrap();
    buffer
}

fn encode_mesh(m: &Mesh) -> Vec<u8> {
    let mut buffer = Vec::new();
    m.serialize(&mut buffer).unwrap();
    buffer
}

fn encode_sector(s: &Sector) -> Vec<u8> {
    let mut buffer = Vec::new();
    s.serialize(&mut buffer).unwrap();
    buffer
}

fn encode_map(m: &Mime) -> Vec<u8> {
    let mut buffer = Vec::new();
    m.serialize(&mut buffer).unwrap();
    buffer
}

#[test]
fn vertex_bytes_are_little_endian_floats() {
    let v = bits([0.0, 1.0, 2.0, 3.0, 4.0, 5.0, 6.0]);
    let buffer = encode_vertex(&v);
    assert_eq!(buffer.len(), 28);
    assert_eq!(buffer.len(), VERTEX_SIZE);
    for k in 0..7 {
        let field = f32::from_le_bytes(buffer[4 * k..4 * k + 4].try_into().unwrap());
        assert_eq!(field, k as f32);
    }
    assert_eq!(
        buffer,
        vec![
            0x00, 0x00, 0x00, 0x00, 0x00, 0x00, 0x80, 0x3f, 0x00, 0x00, 0x00, 0x40, 0x00, 0x00,
            0x40, 0x40, 0x00, 0x00, 0x80, 0x40, 0x00, 0x00, 0xa0, 0x40, 0x00, 0x00, 0xc0, 0x40,
        ]
    );
}

#[test]
fn vertex_serialize_appends() {
    let v = Vertex::new(0x0403_0201, 0x0807_0605, 0x0c0b_0a09, [1, 2, 3, 0xffff_fffe]);
    let mut buffer = vec![0xaa, 0xbb];
    v.serialize(&mut buffer).unwrap();
    assert_eq!(
        buffer,
        vec![
            0xaa, 0xbb, 1, 2, 3, 4, 5, 6, 7, 8, 9, 10, 11, 12, 1, 0, 0, 0, 2, 0, 0, 0, 3, 0, 0,
            0, 0xfe, 0xff, 0xff, 0xff,
        ]
    );
}

#[test]
fn vertex_round_trip_is_bit_exact() {
    let values = [
        bits([0.0, 1.0, 2.0, 3.0, 4.0, 5.0, 6.0]),
        bits([-0.0, f32::MIN, f32::MAX, f32::EPSILON, f32::MIN_POSITIVE, 1.0e-40, -1.5]),
        bits([f32::NAN, f32::INFINITY, f32::NEG_INFINITY, 0.1, 0.2, 0.3, 0.4]),
        Vertex::new(0x7fc0_0001, 0xffff_ffff, 0, [0x8000_0000, 0x7f80_0001, 1, 0xdead_beef]),
    ];
    for v in values.iter() {
        let buffer = encode_vertex(v);
        assert_eq!(Vertex::deserialize(&buffer), Ok(*v));
    }
}

#[test]
fn vertex_deserialize_reads_the_first_28_bytes() {
    let v = bits([9.0, 8.0, 7.0, 6.0, 5.0, 4.0, 3.0]);
    let mut buffer = encode_vertex(&v);
    buffer.extend_from_slice(&[0xff; 5]);
    assert_eq!(Vertex::deserialize(&buffer), Ok(v));
    assert_eq!(Vertex::read_at(&buffer, 0), v);
}

#[test]
fn vertex_read_at_an_offset() {
    let a = bits([1.0, 2.0, 3.0, 4.0, 5.0, 6.0, 7.0]);
    let b = bits([-1.0, -2.0, -3.0, -4.0, -5.0, -6.0, -7.0]);
    let mut buffer = vec![0u8; 3];
    a.serialize(&mut buffer).unwrap();
    b.serialize(&mut buffer).unwrap();
    assert_eq!(Vertex::read_at(&buffer, 3), a);
    assert_eq!(Vertex::read_at(&buffer, 31), b);
}

#[test]
fn vertex_truncated_at_every_point() {
    let buffer = encode_vertex(&bits([0.0, 1.0, 2.0, 3.0, 4.0, 5.0, 6.0]));
    for n in 0..buffer.len() {
        assert_eq!(Vertex::deserialize(&buffer[..n]), Err(Error::BufferToSmallVertex));
    }
}

#[test]
fn mesh_layout() {
    let mesh = square();
    let buffer = encode_mesh(&mesh);
    assert_eq!(buffer.len(), 16 + 4 * 28 + 6 * 4);
    assert_eq!(buffer.len(), COUNTS_SIZE + 4 * VERTEX_SIZE + 6 * INDEX_SIZE);
    assert_eq!(&buffer[0..8], &[4, 0, 0, 0, 0, 0, 0, 0]);
    assert_eq!(&buffer[8..16], &[6, 0, 0, 0, 0, 0, 0, 0]);
    for (k, v) in mesh.vertex_buffer.iter().enumerate() {
        assert_eq!(&buffer[16 + 28 * k..16 + 28 * k + 28], &encode_vertex(v)[..]);
    }
    assert_eq!(
        &buffer[128..152],
        &[0, 0, 0, 0, 1, 0, 0, 0, 2, 0, 0, 0, 2, 0, 0, 0, 3, 0, 0, 0, 0, 0, 0, 0]
    );
}

#[test]
fn mesh_round_trip() {
    for mesh in [square(), triangle(), empty_mesh()].iter() {
        let buffer = encode_mesh(mesh);
        assert_eq!(Mesh::deserialize(&buffer).as_ref(), Ok(mesh));
    }
}

#[test]
fn mesh_keeps_out_of_range_indices() {
    let mesh = Mesh::new(
        vec![bits([0.0, 0.0, 0.0, 0.0, 0.0, 0.0, 0.0])],
        vec![0, 1, 7, u32::MAX, 0x8000_0000],
    );
    let decoded = Mesh::deserialize(&encode_mesh(&mesh)).unwrap();
    assert_eq!(decoded.vertex_buffer.len(), 1);
    assert_eq!(decoded.index_buffer, vec![0, 1, 7, u32::MAX, 0x8000_0000]);
}

#[test]
fn mesh_without_vertices_keeps_its_indices() {
    let mesh = Mesh::new(Vec::new(), vec![5, 6]);
    let buffer = encode_mesh(&mesh);
    assert_eq!(buffer.len(), 24);
    assert_eq!(Mesh::deserialize(&buffer), Ok(mesh));
}

#[test]
fn mesh_empty_is_sixteen_zero_bytes() {
    assert_eq!(encode_mesh(&empty_mesh()), vec![0u8; 16]);
    assert_eq!(Mesh::deserialize(&[0u8; 16]), Ok(empty_mesh()));
}

#[test]
fn mesh_ignores_trailing_bytes() {
    let mesh = triangle();
    let mut buffer = encode_mesh(&mesh);
    buffer.extend_from_slice(&[1, 2, 3]);
    assert_eq!(Mesh::deserialize(&buffer), Ok(mesh));
}

#[test]
fn mesh_truncated_at_every_point() {
    for mesh in [square(), triangle(), Mesh::new(Vec::new(), vec![1])].iter() {
        let buffer = encode_mesh(mesh);
        for n in 0..buffer.len() {
            assert_eq!(Mesh::deserialize(&buffer[..n]), Err(Error::BufferToSmallSector));
        }
    }
}

#[test]
fn mesh_rejects_short_counts() {
    assert_eq!(Mesh::deserialize(&[]), Err(Error::BufferToSmallSector));
    assert_eq!(Mesh::deserialize(&[0u8; 15]), Err(Error::BufferToSmallSector));
}

#[test]
fn mesh_rejects_claimed_vertices_and_indices() {
    let mut buffer = Vec::new();
    put_u64(&mut buffer, 1);
    put_u64(&mut buffer, 0);
    buffer.extend_from_slice(&[0u8; 27]);
    assert_eq!(Mesh::deserialize(&buffer), Err(Error::BufferToSmallSector));
    buffer.push(0);
    assert!(Mesh::deserialize(&buffer).is_ok());

    let mut buffer = Vec::new();
    put_u64(&mut buffer, 1);
    put_u64(&mut buffer, 2);
    buffer.extend_from_slice(&[0u8; 28 + 7]);
    assert_eq!(Mesh::deserialize(&buffer), Err(Error::BufferToSmallSector));
    buffer.push(0);
    assert!(Mesh::deserialize(&buffer).is_ok());
}

#[test]
fn mesh_rejects_huge_counts() {
    let wide = (usize::MAX as u64) == u64::MAX;
    let expected = if wide { Error::BufferToSmallSector } else { Error::IntegerConvertionError };

    let mut buffer = Vec::new();
    put_u64(&mut buffer, u64::MAX);
    put_u64(&mut buffer, 0);
    buffer.extend_from_slice(&[0u8; 64]);
    assert_eq!(Mesh::deserialize(&buffer), Err(expected));

    let mut buffer = Vec::new();
    put_u64(&mut buffer, 0);
    put_u64(&mut buffer, u64::MAX);
    buffer.extend_from_slice(&[0u8; 64]);
    assert_eq!(Mesh::deserialize(&buffer), Err(expected));

    let mut buffer = Vec::new();
    put_u64(&mut buffer, u64::MAX / 28 + 1);
    put_u64(&mut buffer, u64::MAX / 4 + 1);
    assert_eq!(Mesh::deserialize(&buffer), Err(expected));
}

#[test]
fn sector_layout() {
    let sector = Sector::new(square(), triangle(), empty_mesh());
    let buffer = encode_sector(&sector);
    let floor = encode_mesh(&sector.floor_mesh);
    let ceiling = encode_mesh(&sector.ceiling_mesh);
    let wall = encode_mesh(&sector.wall_mesh);
    assert_eq!(floor.len(), 152);
    assert_eq!(ceiling.len(), 16 + 3 * 28 + 3 * 4);
    assert_eq!(wall.len(), 16);

    let mut expected = Vec::new();
    expected.extend_from_slice(&152u64.to_le_bytes());
    expected.extend_from_slice(&floor);
    expected.extend_from_slice(&112u64.to_le_bytes());
    expected.extend_from_slice(&ceiling);
    expected.extend_from_slice(&16u64.to_le_bytes());
    expected.extend_from_slice(&wall);
    assert_eq!(buffer, expected);
    assert_eq!(buffer.len(), 24 + 152 + 112 + 16);
}

#[test]
fn sector_round_trip_keeps_the_roles() {
    let sector = Sector::new(square(), triangle(), empty_mesh());
    let decoded = Sector::deserialize(&encode_sector(&sector)).unwrap();
    assert_eq!(decoded.floor_mesh, square());
    assert_eq!(decoded.ceiling_mesh, triangle());
    assert_eq!(decoded.wall_mesh, empty_mesh());
    assert_eq!(decoded, sector);
}

#[test]
fn sector_ignores_trailing_bytes() {
    let sector = room();
    let mut buffer = encode_sector(&sector);
    buffer.extend_from_slice(&[9; 11]);
    assert_eq!(Sector::deserialize(&buffer), Ok(sector));
}

#[test]
fn sector_truncated_at_every_point() {
    for sector in [room(), Sector::new(triangle(), empty_mesh(), square())].iter() {
        let buffer = encode_sector(sector);
        for n in 0..buffer.len() {
            assert_eq!(Sector::deserialize(&buffer[..n]), Err(Error::BufferToSmallSector));
        }
    }
}

#[test]
fn sector_rejects_a_prefix_that_overruns() {
    let mut buffer = Vec::new();
    put_u64(&mut buffer, 17);
    buffer.extend_from_slice(&[0u8; 16]);
    assert_eq!(Sector::deserialize(&buffer), Err(Error::BufferToSmallSector));
}

#[test]
fn sector_passes_on_the_error_of_a_mesh() {
    // A block of 16 bytes whose mesh claims one vertex.
    let mut buffer = Vec::new();
    put_u64(&mut buffer, 16);
    put_u64(&mut buffer, 1);
    put_u64(&mut buffer, 0);
    assert_eq!(Sector::deserialize(&buffer), Err(Error::BufferToSmallSector));
}

#[test]
fn sector_does_not_trust_a_prefix_beyond_its_bounds() {
    // The prefix is within bounds but cuts the mesh short.
    let mesh = encode_mesh(&square());
    let mut buffer = Vec::new();
    put_u64(&mut buffer, (mesh.len() - 1) as u64);
    buffer.extend_from_slice(&mesh);
    assert_eq!(Sector::deserialize(&buffer), Err(Error::BufferToSmallSector));
}

#[test]
fn map_with_one_sector() {
    let map = Mime::new(vec![room()]);
    let buffer = encode_map(&map);
    assert_eq!(&buffer[0..4], b"MIME");
    assert_eq!(&buffer[4..8], &[1, 0, 0, 0]);
    assert_eq!(&buffer[8..16], &[1, 0, 0, 0, 0, 0, 0, 0]);
    let sector = encode_sector(&room());
    assert_eq!(sector.len(), 480);
    assert_eq!(&buffer[16..24], &480u64.to_le_bytes());
    assert_eq!(&buffer[24..], &sector[..]);
    assert_eq!(buffer.len(), 16 + 8 + 480);

    let decoded = Mime::deserialize(&buffer).unwrap();
    assert_eq!(decoded.sectors.len(), 1);
    let sector = &decoded.sectors[0];
    for mesh in [&sector.floor_mesh, &sector.ceiling_mesh, &sector.wall_mesh] {
        assert_eq!(mesh.vertex_buffer.len(), 4);
        assert_eq!(mesh.index_buffer, vec![0, 1, 2, 2, 3, 0]);
    }
}

#[test]
fn map_empty() {
    let map = Mime::new(Vec::new());
    let buffer = encode_map(&map);
    assert_eq!(buffer.len(), 16);
    assert_eq!(buffer.len(), PREAMBLE_SIZE);
    assert_eq!(buffer, vec![0x4d, 0x49, 0x4d, 0x45, 1, 0, 0, 0, 0, 0, 0, 0, 0, 0, 0, 0]);
    let decoded = Mime::deserialize(&buffer).unwrap();
    assert!(decoded.sectors.is_empty());
}

#[test]
fn map_round_trip_keeps_the_order() {
    let map = Mime::new(vec![
        room(),
        Sector::new(triangle(), empty_mesh(), square()),
        Sector::new(empty_mesh(), empty_mesh(), empty_mesh()),
    ]);
    let decoded = Mime::deserialize(&encode_map(&map)).unwrap();
    assert_eq!(decoded.sectors.len(), 3);
    assert_eq!(decoded.sectors[1].floor_mesh, triangle());
    assert_eq!(decoded.sectors[2].wall_mesh, empty_mesh());
    assert_eq!(decoded, map);
}

#[test]
fn map_serialize_appends() {
    let map = Mime::new(vec![room()]);
    let mut buffer = vec![7, 7, 7];
    map.serialize(&mut buffer).unwrap();
    assert_eq!(&buffer[..3], &[7, 7, 7]);
    assert_eq!(&buffer[3..], &encode_map(&map)[..]);
}

#[test]
fn map_ignores_trailing_bytes() {
    let map = Mime::new(vec![room()]);
    let mut buffer = encode_map(&map);
    buffer.extend_from_slice(b"trailer");
    assert_eq!(Mime::deserialize(&buffer), Ok(map));
}

#[test]
fn map_truncated_at_every_point() {
    let maps = [
        Mime::new(vec![room()]),
        Mime::new(vec![Sector::new(triangle(), empty_mesh(), square()), room()]),
    ];
    for map in maps.iter() {
        let buffer = encode_map(map);
        for n in 0..buffer.len() {
            let result = Mime::deserialize(&buffer[..n]);
            assert_eq!(result, Err(Error::BufferToSmallMap));
            assert!(result.unwrap_err().is_buffer_too_small());
        }
    }
}

#[test]
fn map_header_too_small() {
    assert_eq!(HEADER_SIZE, 8);
    assert_eq!(Mime::deserialize(&[]), Err(Error::BufferToSmallMap));
    assert_eq!(Mime::deserialize(b"MIME"), Err(Error::BufferToSmallMap));
    assert_eq!(Mime::deserialize(b"ABCD"), Err(Error::BufferToSmallMap));
    assert_eq!(Mime::deserialize(b"MIME\x01\x00\x00"), Err(Error::BufferToSmallMap));
    assert_eq!(Mime::deserialize(b"MIME\x01\x00\x00\x00"), Err(Error::BufferToSmallMap));
    assert_eq!(
        Mime::deserialize(b"MIME\x01\x00\x00\x00\x00\x00\x00\x00\x00\x00\x00"),
        Err(Error::BufferToSmallMap)
    );
}

#[test]
fn map_incorrect_magic() {
    let good = encode_map(&Mime::new(vec![room()]));
    for k in 0..4 {
        let mut buffer = good.clone();
        buffer[k] ^= 0x20;
        assert_eq!(Mime::deserialize(&buffer), Err(Error::IncorrectMagic));
    }
    assert_eq!(Mime::deserialize(b"mime\x01\x00\x00\x00"), Err(Error::IncorrectMagic));
    assert_eq!(Mime::deserialize(b"EMIM\x02\x00\x00\x00"), Err(Error::IncorrectMagic));
    assert_eq!(Mime::deserialize(&[0u8; 8]), Err(Error::IncorrectMagic));
    assert_eq!(Mime::deserialize(&[0xffu8; 600]), Err(Error::IncorrectMagic));
}

#[test]
fn map_incorrect_version() {
    let good = encode_map(&Mime::new(vec![room()]));
    for version in [0u32, 2, 3, 0x100, 0x0100_0000, u32::MAX] {
        let mut buffer = good.clone();
        buffer[4..8].copy_from_slice(&version.to_le_bytes());
        assert_eq!(Mime::deserialize(&buffer), Err(Error::IncorrectVersion));
    }
    assert_eq!(Mime::deserialize(b"MIME\x00\x00\x00\x01"), Err(Error::IncorrectVersion));
    assert_eq!(CURRENT_VERSION, 1);
}

#[test]
fn map_rejects_claimed_sectors() {
    let mut buffer = encode_map(&Mime::new(vec![room()]));
    buffer[8] = 2;
    assert_eq!(Mime::deserialize(&buffer), Err(Error::BufferToSmallMap));

    let mut buffer = encode_map(&Mime::new(Vec::new()));
    buffer[8..16].copy_from_slice(&u64::MAX.to_le_bytes());
    let wide = (usize::MAX as u64) == u64::MAX;
    let expected = if wide { Error::BufferToSmallMap } else { Error::IntegerConvertionError };
    assert_eq!(Mime::deserialize(&buffer), Err(expected));
}

#[test]
fn map_rejects_a_prefix_that_overruns() {
    let mut buffer = encode_map(&Mime::new(vec![room()]));
    buffer[16..24].copy_from_slice(&481u64.to_le_bytes());
    assert_eq!(Mime::deserialize(&buffer), Err(Error::BufferToSmallMap));
}

#[test]
fn map_passes_on_the_error_of_a_sector() {
    // The sector block is within bounds but one byte short of its sector.
    let mut buffer = encode_map(&Mime::new(vec![room()]));
    buffer[16..24].copy_from_slice(&479u64.to_le_bytes());
    assert_eq!(Mime::deserialize(&buffer), Err(Error::BufferToSmallSector));
}

#[test]
fn map_counts_fewer_sectors_than_it_holds() {
    let mut buffer = encode_map(&Mime::new(vec![room(), room()]));
    buffer[8] = 1;
    let decoded = Mime::deserialize(&buffer).unwrap();
    assert_eq!(decoded, Mime::new(vec![room()]));
}

#[test]
fn wire_integers() {
    let mut buffer = vec![0xee];
    put_u32(&mut buffer, 0x1234_5678);
    put_u64(&mut buffer, 0x0102_0304_0506_0708);
    assert_eq!(
        buffer,
        vec![0xee, 0x78, 0x56, 0x34, 0x12, 0x08, 0x07, 0x06, 0x05, 0x04, 0x03, 0x02, 0x01]
    );
    assert_eq!(get_u32(&buffer, 1), 0x1234_5678);
    assert_eq!(get_u64(&buffer, 5), 0x0102_0304_0506_0708);
    assert_eq!(get_u32(&buffer, 0), 0x3456_78ee);
}

#[test]
fn wire_native_sizes() {
    assert_eq!(to_native(0), Ok(0));
    assert_eq!(to_native(152), Ok(152));
    assert_eq!(to_native(usize::MAX as u64), Ok(usize::MAX));
    if (usize::MAX as u64) < u64::MAX {
        assert_eq!(to_native(usize::MAX as u64 + 1), Err(Error::IntegerConvertionError));
        assert_eq!(to_native(u64::MAX), Err(Error::IntegerConvertionError));
    } else {
        assert_eq!(to_native(u64::MAX), Ok(usize::MAX));
    }
}

#[test]
fn wire_blocks() {
    let mut buffer = vec![1];
    let mut payload = vec![10, 20, 30];
    put_block(&mut buffer, &mut payload);
    assert!(payload.is_empty());
    assert_eq!(buffer, vec![1, 3, 0, 0, 0, 0, 0, 0, 0, 10, 20, 30]);

    buffer.extend_from_slice(&[40, 50]);
    let (block, rest) = take_block(&buffer[1..], Error::BufferToSmallMap).unwrap();
    assert_eq!(block, &[10, 20, 30]);
    assert_eq!(rest, &[40, 50]);

    let (block, rest) = take_block(&[0, 0, 0, 0, 0, 0, 0, 0], Error::BufferToSmallMap).unwrap();
    assert!(block.is_empty());
    assert!(rest.is_empty());
}

#[test]
fn wire_blocks_cut_short() {
    for short in [Error::BufferToSmallSector, Error::BufferToSmallMap] {
        assert_eq!(take_block(&[], short), Err(short));
        assert_eq!(take_block(&[3, 0, 0, 0, 0, 0, 0], short), Err(short));
        assert_eq!(take_block(&[3, 0, 0, 0, 0, 0, 0, 0, 10, 20], short), Err(short));
        let expected = if (usize::MAX as u64) == u64::MAX {
            short
        } else {
            Error::IntegerConvertionError
        };
        assert_eq!(take_block(&[0xff; 12], short), Err(expected));
    }
}

#[test]
fn errors_that_say_too_small() {
    assert!(Error::BufferToSmallVertex.is_buffer_too_small());
    assert!(Error::BufferToSmallSector.is_buffer_too_small());
    assert!(Error::BufferToSmallMap.is_buffer_too_small());
    assert!(!Error::IncorrectMagic.is_buffer_too_small());
    assert!(!Error::IncorrectVersion.is_buffer_too_small());
    assert!(!Error::IntegerConvertionError.is_buffer_too_small());
}

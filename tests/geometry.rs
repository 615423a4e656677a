use rusty_knight_core::geometry::{
    decode_u16s, decode_u32s, make_quad, make_triangle, IndexFormat, Mesh, Vertex, VERTEX_STRIDE,
};

fn floats_bytes(fs: &[f32]) -> Vec<u8> {
    let mut out = Vec::new();
    for f in fs {
        out.extend_from_slice(&f.to_le_bytes());
    }
    out
}

#[test]
fn quad_buffer_splits_into_vertices_and_indices() {
    let m = make_quad();
    assert_eq!(m.index_format, IndexFormat::Uint16);
    assert_eq!(m.offset, 4 * VERTEX_STRIDE);
    assert_eq!(m.offset, 96);
    assert_eq!(m.bytes.len(), 96 + 12);
    let expected_vertices = floats_bytes(&[
        -0.75, -0.75, 0.0, 1.0, 0.0, 0.0, //
        0.75, -0.75, 0.0, 0.0, 1.0, 0.0, //
        0.75, 0.75, 0.0, 0.0, 0.0, 1.0, //
        -0.75, 0.75, 0.0, 1.0, 0.0, 0.0,
    ]);
    assert_eq!(m.vertex_region(), expected_vertices);
    let index_bytes = m.index_region();
    assert_eq!(index_bytes, vec![0, 0, 1, 0, 2, 0, 2, 0, 3, 0, 0, 0]);
    assert_eq!(decode_u16s(&index_bytes), vec![0u16, 1, 2, 2, 3, 0]);
    assert_eq!(m.indices(), vec![0u32, 1, 2, 2, 3, 0]);
}

#[test]
fn triangle_buffer_has_no_index_region() {
    let m = make_triangle();
    assert_eq!(m.offset, 72);
    assert_eq!(m.bytes.len(), 72);
    let expected = floats_bytes(&[
        -0.75, -0.75, 0.0, 1.0, 0.0, 0.0, //
        0.75, -0.75, 0.0, 0.0, 1.0, 0.0, //
        0.0, 0.75, 0.0, 0.0, 0.0, 1.0,
    ]);
    assert_eq!(m.vertex_region(), expected);
    assert!(m.index_region().is_empty());
    assert!(m.indices().is_empty());
}

#[test]
fn u32_mesh_round_trips() {
    let vertex_bytes: Vec<u8> = (0u8..20).collect();
    let indices: Vec<u32> = vec![0, 1, 70000, 0x0102_0304, u32::MAX];
    let m = Mesh::with_u32_indices(&vertex_bytes, &indices);
    assert_eq!(m.offset, 20);
    assert_eq!(m.bytes.len(), 20 + 4 * 5);
    assert_eq!(m.vertex_region(), vertex_bytes);
    assert_eq!(&m.index_region()[12..16], &[4, 3, 2, 1]);
    assert_eq!(decode_u32s(&m.index_region()), indices);
    assert_eq!(m.indices(), indices);
}

#[test]
fn u16_mesh_round_trips_with_empty_vertex_region() {
    let indices: Vec<u16> = vec![513, 65535, 0];
    let m = Mesh::with_u16_indices(&Vec::new(), &indices);
    assert_eq!(m.offset, 0);
    assert!(m.vertex_region().is_empty());
    assert_eq!(m.index_region(), vec![1, 2, 255, 255, 0, 0]);
    assert_eq!(decode_u16s(&m.index_region()), indices);
}

#[test]
fn decoders_ignore_trailing_bytes() {
    assert_eq!(decode_u16s(&vec![1, 0, 7]), vec![1u16]);
    assert_eq!(decode_u32s(&vec![1, 0, 0, 0, 9, 9]), vec![1u32]);
    assert!(decode_u16s(&Vec::new()).is_empty());
}

#[test]
fn primitive_vertex_layout_matches_stride() {
    let (stride, attrs) = Vertex::get_layout();
    assert_eq!(stride as usize, VERTEX_STRIDE);
    assert_eq!(attrs.len(), 2);
    assert_eq!(attrs[1].offset, 12);
}

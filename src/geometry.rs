use vstd::prelude::*;

use crate::pipeline::{attributes_of, stride_of, vertex_layout, VertexAttribute, VertexLayout};

verus! {

/// Two little-endian bytes of a 16-bit index.
pub open spec fn le16(x: u16) -> Seq<u8> {
    seq![(x % 256) as u8, (x / 256) as u8]
}

/// Four little-endian bytes of a 32-bit word.
pub open spec fn le32(x: u32) -> Seq<u8> {
    seq![(x % 256) as u8, ((x / 256) % 256) as u8, ((x / 65536) % 256) as u8, (x / 16777216) as u8]
}

/// The byte image of a sequence of 16-bit values, each little-endian.
pub open spec fn u16s_bytes(s: Seq<u16>) -> Seq<u8>
    decreases s.len(),
{
    if s.len() == 0 {
        Seq::empty()
    } else {
        u16s_bytes(s.drop_last()) + le16(s.last())
    }
}

/// The byte image of a sequence of 32-bit values, each little-endian.
pub open spec fn u32s_bytes(s: Seq<u32>) -> Seq<u8>
    decreases s.len(),
{
    if s.len() == 0 {
        Seq::empty()
    } else {
        u32s_bytes(s.drop_last()) + le32(s.last())
    }
}

/// The 16-bit values read back from little-endian pairs of bytes.
pub open spec fn read_u16s(b: Seq<u8>) -> Seq<u16> {
    Seq::new(b.len() / 2, |i: int| (b[2 * i] as int + 256 * b[2 * i + 1] as int) as u16)
}

/// The 32-bit values read back from little-endian quadruples of bytes.
pub open spec fn read_u32s(b: Seq<u8>) -> Seq<u32> {
    Seq::new(
        b.len() / 4,
        |i: int|
            (b[4 * i] as int + 256 * b[4 * i + 1] as int + 65536 * b[4 * i + 2] as int
                + 16777216 * b[4 * i + 3] as int) as u32,
    )
}

pub proof fn lemma_u16s_bytes_len(s: Seq<u16>)
    ensures
        u16s_bytes(s).len() == 2 * s.len(),
    decreases s.len(),
{
    if s.len() > 0 {
        lemma_u16s_bytes_len(s.drop_last());
    }
}

pub proof fn lemma_u32s_bytes_len(s: Seq<u32>)
    ensures
        u32s_bytes(s).len() == 4 * s.len(),
    decreases s.len(),
{
    if s.len() > 0 {
        lemma_u32s_bytes_len(s.drop_last());
    }
}

/// Byte `2i + k` of the image of `s` is byte `k` of value `i`.
proof fn lemma_u16s_bytes_index(s: Seq<u16>, i: int)
    requires
        0 <= i < s.len(),
    ensures
        u16s_bytes(s).len() == 2 * s.len(),
        u16s_bytes(s)[2 * i] == (s[i] % 256) as u8,
        u16s_bytes(s)[2 * i + 1] == (s[i] / 256) as u8,
    decreases s.len(),
{
    lemma_u16s_bytes_len(s);
    lemma_u16s_bytes_len(s.drop_last());
    if i < s.len() - 1 {
        lemma_u16s_bytes_index(s.drop_last(), i);
    }
}

proof fn lemma_u32s_bytes_index(s: Seq<u32>, i: int)
    requires
        0 <= i < s.len(),
    ensures
        u32s_bytes(s).len() == 4 * s.len(),
        u32s_bytes(s)[4 * i] == (s[i] % 256) as u8,
        u32s_bytes(s)[4 * i + 1] == ((s[i] / 256) % 256) as u8,
        u32s_bytes(s)[4 * i + 2] == ((s[i] / 65536) % 256) as u8,
        u32s_bytes(s)[4 * i + 3] == (s[i] / 16777216) as u8,
    decreases s.len(),
{
    lemma_u32s_bytes_len(s);
    lemma_u32s_bytes_len(s.drop_last());
    if i < s.len() - 1 {
        lemma_u32s_bytes_index(s.drop_last(), i);
    }
}

/// Reading back the image of 16-bit values gives the values.
pub proof fn lemma_read_u16s_inverse(s: Seq<u16>)
    ensures
        read_u16s(u16s_bytes(s)) == s,
{
    lemma_u16s_bytes_len(s);
    let b = u16s_bytes(s);
    assert forall|i: int| 0 <= i < s.len() implies #[trigger] read_u16s(b)[i] == s[i] by {
        lemma_u16s_bytes_index(s, i);
        let x = s[i];
        assert((x % 256) as u8 as int + 256 * ((x / 256) as u8 as int) == x as int);
    }
    assert(read_u16s(b) =~= s);
}

/// Reading back the image of 32-bit values gives the values.
pub proof fn lemma_read_u32s_inverse(s: Seq<u32>)
    ensures
        read_u32s(u32s_bytes(s)) == s,
{
    lemma_u32s_bytes_len(s);
    let b = u32s_bytes(s);
    assert forall|i: int| 0 <= i < s.len() implies #[trigger] read_u32s(b)[i] == s[i] by {
        lemma_u32s_bytes_index(s, i);
        let x = s[i];
        assert(((x % 256) as u8) as int + 256 * (((x / 256) % 256) as u8) as int + 65536 * (((x
            / 65536) % 256) as u8) as int + 16777216 * ((x / 16777216) as u8) as int == x as int);
    }
    assert(read_u32s(b) =~= s);
}

/// Appends the little-endian image of each 16-bit value to `out`.
pub fn push_u16s(out: &mut Vec<u8>, s: &Vec<u16>)
    requires
        old(out)@.len() + 2 * s@.len() <= usize::MAX,
    ensures
        final(out)@ == old(out)@ + u16s_bytes(s@),
{
    let mut i: usize = 0;
    while i < s.len()
        invariant
            i <= s@.len(),
            old(out)@.len() + 2 * s@.len() <= usize::MAX,
            out@ == old(out)@ + u16s_bytes(s@.subrange(0, i as int)),
        decreases s@.len() - i,
    {
        let x = s[i];
        out.push((x % 256) as u8);
        out.push((x / 256) as u8);
        proof {
            let p = s@.subrange(0, i as int + 1);
            assert(p.drop_last() =~= s@.subrange(0, i as int));
        }
        i = i + 1;
    }
    assert(s@.subrange(0, s@.len() as int) =~= s@);
}

/// Appends the little-endian image of each 32-bit value to `out`.
pub fn push_u32s(out: &mut Vec<u8>, s: &Vec<u32>)
    requires
        old(out)@.len() + 4 * s@.len() <= usize::MAX,
    ensures
        final(out)@ == old(out)@ + u32s_bytes(s@),
{
    let mut i: usize = 0;
    while i < s.len()
        invariant
            i <= s@.len(),
            old(out)@.len() + 4 * s@.len() <= usize::MAX,
            out@ == old(out)@ + u32s_bytes(s@.subrange(0, i as int)),
        decreases s@.len() - i,
    {
        let x = s[i];
        out.push((x % 256) as u8);
        out.push(((x / 256) % 256) as u8);
        out.push(((x / 65536) % 256) as u8);
        out.push((x / 16777216) as u8);
        proof {
            let p = s@.subrange(0, i as int + 1);
            assert(p.drop_last() =~= s@.subrange(0, i as int));
        }
        i = i + 1;
    }
    assert(s@.subrange(0, s@.len() as int) =~= s@);
}


/// Width of one index in the index region of a mesh.
#[derive(Clone, Copy, Debug, PartialEq, Eq, Structural)]
pub enum IndexFormat {
    Uint16,
    Uint32,
}

/// Three IEEE-754 single-precision values held as their bit patterns.
#[derive(Clone, Copy, Debug, PartialEq, Eq, Structural)]
pub struct Vec3Bits {
    pub x: u32,
    pub y: u32,
    pub z: u32,
}

/// A primitive vertex: position, then color.
#[derive(Clone, Copy, Debug, PartialEq, Eq, Structural)]
pub struct Vertex {
    pub position: Vec3Bits,
    pub color: Vec3Bits,
}

/// Bytes of one primitive vertex as the shader reads it.
pub const VERTEX_STRIDE: usize = 24;

impl Vertex {
    /// The buffer layout of primitive vertices: stride and attributes.
    pub fn get_layout() -> (r: (u64, Vec<VertexAttribute>))
        ensures
            r.0 == stride_of(VertexLayout::Primitive),
            r.0 == VERTEX_STRIDE,
            r.1@ == attributes_of(VertexLayout::Primitive),
    {
        vertex_layout(VertexLayout::Primitive)
    }
}

pub open spec fn vertex_words(v: Vertex) -> Seq<u32> {
    seq![v.position.x, v.position.y, v.position.z, v.color.x, v.color.y, v.color.z]
}

/// The byte image of a sequence of primitive vertices.
pub open spec fn vertices_bytes(vs: Seq<Vertex>) -> Seq<u8>
    decreases vs.len(),
{
    if vs.len() == 0 {
        Seq::empty()
    } else {
        vertices_bytes(vs.drop_last()) + u32s_bytes(vertex_words(vs.last()))
    }
}

pub proof fn lemma_vertices_bytes_len(vs: Seq<Vertex>)
    ensures
        vertices_bytes(vs).len() == VERTEX_STRIDE * vs.len(),
    decreases vs.len(),
{
    if vs.len() > 0 {
        lemma_vertices_bytes_len(vs.drop_last());
        lemma_u32s_bytes_len(vertex_words(vs.last()));
    }
}

/// One GPU buffer holding a vertex region followed by an index region.
/// `offset` is the byte length of the vertex region.
pub struct Mesh {
    pub bytes: Vec<u8>,
    pub offset: usize,
    pub index_format: IndexFormat,
}

impl Mesh {
    pub open spec fn wf(&self) -> bool {
        &&& self.offset <= self.bytes@.len()
        &&& match self.index_format {
            IndexFormat::Uint16 => (self.bytes@.len() - self.offset) % 2 == 0,
            IndexFormat::Uint32 => (self.bytes@.len() - self.offset) % 4 == 0,
        }
    }

    pub open spec fn vertex_view(&self) -> Seq<u8> {
        self.bytes@.subrange(0, self.offset as int)
    }

    pub open spec fn index_view(&self) -> Seq<u8> {
        self.bytes@.subrange(self.offset as int, self.bytes@.len() as int)
    }

    /// Builds a mesh whose vertex region is `vertex_bytes` and whose index region
    /// holds `indices`, 16 bits each.
    pub fn with_u16_indices(vertex_bytes: &Vec<u8>, indices: &Vec<u16>) -> (m: Mesh)
        requires
            vertex_bytes@.len() + 2 * indices@.len() <= usize::MAX,
        ensures
            m.wf(),
            m.index_format == IndexFormat::Uint16,
            m.offset == vertex_bytes@.len(),
            m.bytes@ == vertex_bytes@ + u16s_bytes(indices@),
    {
        let mut bytes: Vec<u8> = Vec::new();
        append_bytes(&mut bytes, vertex_bytes);
        let offset = bytes.len();
        push_u16s(&mut bytes, indices);
        proof {
            lemma_u16s_bytes_len(indices@);
        }
        Mesh { bytes, offset, index_format: IndexFormat::Uint16 }
    }

    /// Builds a mesh whose vertex region is `vertex_bytes` and whose index region
    /// holds `indices`, 32 bits each.
    pub fn with_u32_indices(vertex_bytes: &Vec<u8>, indices: &Vec<u32>) -> (m: Mesh)
        requires
            vertex_bytes@.len() + 4 * indices@.len() <= usize::MAX,
        ensures
            m.wf(),
            m.index_format == IndexFormat::Uint32,
            m.offset == vertex_bytes@.len(),
            m.bytes@ == vertex_bytes@ + u32s_bytes(indices@),
    {
        let mut bytes: Vec<u8> = Vec::new();
        append_bytes(&mut bytes, vertex_bytes);
        let offset = bytes.len();
        push_u32s(&mut bytes, indices);
        proof {
            lemma_u32s_bytes_len(indices@);
        }
        Mesh { bytes, offset, index_format: IndexFormat::Uint32 }
    }

    /// The bytes `[0, offset)`: the vertex region.
    pub fn vertex_region(&self) -> (r: Vec<u8>)
        requires
            self.wf(),
        ensures
            r@ == self.vertex_view(),
    {
        copy_range(&self.bytes, 0, self.offset)
    }

    /// The bytes `[offset, end)`: the index region.
    pub fn index_region(&self) -> (r: Vec<u8>)
        requires
            self.wf(),
        ensures
            r@ == self.index_view(),
    {
        copy_range(&self.bytes, self.offset, self.bytes.len())
    }

    /// The indices that the index region holds, whatever their width.
    pub fn indices(&self) -> (r: Vec<u32>)
        requires
            self.wf(),
        ensures
            self.index_format == IndexFormat::Uint16 ==> r@ == read_u16s(self.index_view()).map_values(
                |x: u16| x as u32,
            ),
            self.index_format == IndexFormat::Uint32 ==> r@ == read_u32s(self.index_view()),
    {
        let region = self.index_region();
        match self.index_format {
            IndexFormat::Uint16 => {
                let wide = decode_u16s(&region);
                let mut r: Vec<u32> = Vec::new();
                let mut i: usize = 0;
                while i < wide.len()
                    invariant
                        i <= wide@.len(),
                        r@ == wide@.subrange(0, i as int).map_values(|x: u16| x as u32),
                    decreases wide@.len() - i,
                {
                    r.push(wide[i] as u32);
                    i = i + 1;
                    assert(r@ =~= wide@.subrange(0, i as int).map_values(|x: u16| x as u32));
                }
                assert(wide@.subrange(0, wide@.len() as int) =~= wide@);
                r
            },
            IndexFormat::Uint32 => decode_u32s(&region),
        }
    }
}

/// Appends every byte of `src` to `out`.
pub fn append_bytes(out: &mut Vec<u8>, src: &Vec<u8>)
    requires
        old(out)@.len() + src@.len() <= usize::MAX,
    ensures
        final(out)@ == old(out)@ + src@,
{
    let mut i: usize = 0;
    while i < src.len()
        invariant
            i <= src@.len(),
            out@ == old(out)@ + src@.subrange(0, i as int),
        decreases src@.len() - i,
    {
        out.push(src[i]);
        i = i + 1;
        assert(out@ =~= old(out)@ + src@.subrange(0, i as int));
    }
    assert(src@.subrange(0, src@.len() as int) =~= src@);
}

/// A copy of `b[lo..hi]`.
pub fn copy_range(b: &Vec<u8>, lo: usize, hi: usize) -> (r: Vec<u8>)
    requires
        lo <= hi <= b@.len(),
    ensures
        r@ == b@.subrange(lo as int, hi as int),
{
    let mut r: Vec<u8> = Vec::new();
    let mut i: usize = lo;
    while i < hi
        invariant
            lo <= i <= hi <= b@.len(),
            r@ == b@.subrange(lo as int, i as int),
        decreases hi - i,
    {
        r.push(b[i]);
        i = i + 1;
        assert(r@ =~= b@.subrange(lo as int, i as int));
    }
    r
}

/// Reads little-endian 16-bit values from `b`; a trailing odd byte is ignored.
pub fn decode_u16s(b: &Vec<u8>) -> (r: Vec<u16>)
    ensures
        r@ == read_u16s(b@),
{
    let mut r: Vec<u16> = Vec::new();
    let len = b.len();
    let n = len / 2;
    let mut i: usize = 0;
    let mut j: usize = 0;
    while i < n
        invariant
            len == b@.len(),
            n == len / 2,
            i <= n,
            j == 2 * i,
            r@ =~= read_u16s(b@).subrange(0, i as int),
        decreases n - i,
    {
        let x: u16 = (b[j] as u16) + 256 * (b[j + 1] as u16);
        r.push(x);
        i = i + 1;
        j = j + 2;
    }
    r
}

/// Reads little-endian 32-bit values from `b`; trailing bytes short of a word are ignored.
pub fn decode_u32s(b: &Vec<u8>) -> (r: Vec<u32>)
    ensures
        r@ == read_u32s(b@),
{
    let mut r: Vec<u32> = Vec::new();
    let len = b.len();
    let n = len / 4;
    let mut i: usize = 0;
    let mut j: usize = 0;
    while i < n
        invariant
            len == b@.len(),
            n == len / 4,
            i <= n,
            j == 4 * i,
            r@ =~= read_u32s(b@).subrange(0, i as int),
        decreases n - i,
    {
        let x: u32 = (b[j] as u32) + 256 * (b[j + 1] as u32) + 65536 * (b[j + 2] as u32)
            + 16777216 * (b[j + 3] as u32);
        r.push(x);
        i = i + 1;
        j = j + 4;
    }
    r
}

/// A mesh built from vertex bytes and indices splits back into exactly those
/// vertex bytes and those indices: the vertex region is `[0, offset)`, the index
/// region is `[offset, end)`, and the index region reads back as the indices.
pub proof fn lemma_mesh_round_trip_u16(vertex_bytes: Seq<u8>, indices: Seq<u16>, m: Mesh)
    requires
        m.offset == vertex_bytes.len(),
        m.bytes@ == vertex_bytes + u16s_bytes(indices),
    ensures
        m.vertex_view() == vertex_bytes,
        m.index_view() == u16s_bytes(indices),
        read_u16s(m.index_view()) == indices,
{
    assert(m.vertex_view() =~= vertex_bytes);
    assert(m.index_view() =~= u16s_bytes(indices));
    lemma_read_u16s_inverse(indices);
}

/// The same law for meshes with 32-bit indices.
pub proof fn lemma_mesh_round_trip_u32(vertex_bytes: Seq<u8>, indices: Seq<u32>, m: Mesh)
    requires
        m.offset == vertex_bytes.len(),
        m.bytes@ == vertex_bytes + u32s_bytes(indices),
    ensures
        m.vertex_view() == vertex_bytes,
        m.index_view() == u32s_bytes(indices),
        read_u32s(m.index_view()) == indices,
{
    assert(m.vertex_view() =~= vertex_bytes);
    assert(m.index_view() =~= u32s_bytes(indices));
    lemma_read_u32s_inverse(indices);
}


/// Bit pattern of the single-precision value 0.0.
pub const F32_ZERO: u32 = 0x0000_0000;

/// Bit pattern of the single-precision value 1.0.
pub const F32_ONE: u32 = 0x3F80_0000;

/// Bit pattern of the single-precision value 0.75.
pub const F32_THREE_QUARTERS: u32 = 0x3F40_0000;

/// Bit pattern of the single-precision value -0.75.
pub const F32_NEG_THREE_QUARTERS: u32 = 0xBF40_0000;

pub open spec fn vec3(x: u32, y: u32, z: u32) -> Vec3Bits {
    Vec3Bits { x, y, z }
}

pub open spec fn red() -> Vec3Bits {
    vec3(F32_ONE, F32_ZERO, F32_ZERO)
}

pub open spec fn green() -> Vec3Bits {
    vec3(F32_ZERO, F32_ONE, F32_ZERO)
}

pub open spec fn blue() -> Vec3Bits {
    vec3(F32_ZERO, F32_ZERO, F32_ONE)
}

/// The built-in triangle: corners (-0.75, -0.75), (0.75, -0.75), (0, 0.75) in the
/// plane z = 0, colored red, green and blue.
pub open spec fn triangle_vertices() -> Seq<Vertex> {
    seq![
        Vertex { position: vec3(F32_NEG_THREE_QUARTERS, F32_NEG_THREE_QUARTERS, F32_ZERO), color: red() },
        Vertex { position: vec3(F32_THREE_QUARTERS, F32_NEG_THREE_QUARTERS, F32_ZERO), color: green() },
        Vertex { position: vec3(F32_ZERO, F32_THREE_QUARTERS, F32_ZERO), color: blue() },
    ]
}

/// The built-in quad: corners (-0.75, -0.75), (0.75, -0.75), (0.75, 0.75),
/// (-0.75, 0.75) in the plane z = 0, colored red, green, blue and red.
pub open spec fn quad_vertices() -> Seq<Vertex> {
    seq![
        Vertex { position: vec3(F32_NEG_THREE_QUARTERS, F32_NEG_THREE_QUARTERS, F32_ZERO), color: red() },
        Vertex { position: vec3(F32_THREE_QUARTERS, F32_NEG_THREE_QUARTERS, F32_ZERO), color: green() },
        Vertex { position: vec3(F32_THREE_QUARTERS, F32_THREE_QUARTERS, F32_ZERO), color: blue() },
        Vertex { position: vec3(F32_NEG_THREE_QUARTERS, F32_THREE_QUARTERS, F32_ZERO), color: red() },
    ]
}

/// The quad's two triangles, wound the same way.
pub open spec fn quad_indices() -> Seq<u16> {
    seq![0u16, 1u16, 2u16, 2u16, 3u16, 0u16]
}

fn vertex(px: u32, py: u32, pz: u32, cx: u32, cy: u32, cz: u32) -> (v: Vertex)
    ensures
        v == (Vertex { position: vec3(px, py, pz), color: vec3(cx, cy, cz) }),
{
    Vertex { position: Vec3Bits { x: px, y: py, z: pz }, color: Vec3Bits { x: cx, y: cy, z: cz } }
}

/// The byte image of `vs`, each vertex as six little-endian words.
pub fn vertices_to_bytes(vs: &Vec<Vertex>) -> (r: Vec<u8>)
    requires
        VERTEX_STRIDE * vs@.len() <= usize::MAX,
    ensures
        r@ == vertices_bytes(vs@),
{
    let mut r: Vec<u8> = Vec::new();
    let mut i: usize = 0;
    while i < vs.len()
        invariant
            i <= vs@.len(),
            VERTEX_STRIDE * vs@.len() <= usize::MAX,
            r@ == vertices_bytes(vs@.subrange(0, i as int)),
        decreases vs@.len() - i,
    {
        let v = vs[i];
        let mut words: Vec<u32> = Vec::new();
        words.push(v.position.x);
        words.push(v.position.y);
        words.push(v.position.z);
        words.push(v.color.x);
        words.push(v.color.y);
        words.push(v.color.z);
        proof {
            lemma_vertices_bytes_len(vs@.subrange(0, i as int));
            assert(words@ =~= vertex_words(v));
            let p = vs@.subrange(0, i as int + 1);
            assert(p.drop_last() =~= vs@.subrange(0, i as int));
        }
        push_u32s(&mut r, &words);
        i = i + 1;
    }
    assert(vs@.subrange(0, vs@.len() as int) =~= vs@);
    r
}

/// The built-in triangle as a mesh with an empty index region: it is drawn
/// without indices.
pub fn make_triangle() -> (m: Mesh)
    ensures
        m.wf(),
        m.index_format == IndexFormat::Uint16,
        m.bytes@ == vertices_bytes(triangle_vertices()),
        m.offset == m.bytes@.len(),
        m.offset == 3 * VERTEX_STRIDE,
{
    let mut vs: Vec<Vertex> = Vec::new();
    vs.push(vertex(F32_NEG_THREE_QUARTERS, F32_NEG_THREE_QUARTERS, F32_ZERO, F32_ONE, F32_ZERO, F32_ZERO));
    vs.push(vertex(F32_THREE_QUARTERS, F32_NEG_THREE_QUARTERS, F32_ZERO, F32_ZERO, F32_ONE, F32_ZERO));
    vs.push(vertex(F32_ZERO, F32_THREE_QUARTERS, F32_ZERO, F32_ZERO, F32_ZERO, F32_ONE));
    assert(vs@ =~= triangle_vertices());
    let bytes = vertices_to_bytes(&vs);
    let none: Vec<u16> = Vec::new();
    proof {
        lemma_vertices_bytes_len(vs@);
    }
    let m = Mesh::with_u16_indices(&bytes, &none);
    assert(u16s_bytes(none@) =~= Seq::<u8>::empty());
    assert(m.bytes@ =~= bytes@);
    m
}

/// The built-in quad: four vertices followed by six 16-bit indices.
pub fn make_quad() -> (m: Mesh)
    ensures
        m.wf(),
        m.index_format == IndexFormat::Uint16,
        m.bytes@ == vertices_bytes(quad_vertices()) + u16s_bytes(quad_indices()),
        m.offset == vertices_bytes(quad_vertices()).len(),
        m.offset == 4 * VERTEX_STRIDE,
{
    let mut vs: Vec<Vertex> = Vec::new();
    vs.push(vertex(F32_NEG_THREE_QUARTERS, F32_NEG_THREE_QUARTERS, F32_ZERO, F32_ONE, F32_ZERO, F32_ZERO));
    vs.push(vertex(F32_THREE_QUARTERS, F32_NEG_THREE_QUARTERS, F32_ZERO, F32_ZERO, F32_ONE, F32_ZERO));
    vs.push(vertex(F32_THREE_QUARTERS, F32_THREE_QUARTERS, F32_ZERO, F32_ZERO, F32_ZERO, F32_ONE));
    vs.push(vertex(F32_NEG_THREE_QUARTERS, F32_THREE_QUARTERS, F32_ZERO, F32_ONE, F32_ZERO, F32_ZERO));
    assert(vs@ =~= quad_vertices());
    let bytes = vertices_to_bytes(&vs);
    let mut indices: Vec<u16> = Vec::new();
    indices.push(0);
    indices.push(1);
    indices.push(2);
    indices.push(2);
    indices.push(3);
    indices.push(0);
    assert(indices@ =~= quad_indices());
    proof {
        lemma_vertices_bytes_len(vs@);
    }
    Mesh::with_u16_indices(&bytes, &indices)
}


/// The words of a sequence of vertices, six per vertex.
pub open spec fn all_words(vs: Seq<Vertex>) -> Seq<u32>
    decreases vs.len(),
{
    if vs.len() == 0 {
        Seq::empty()
    } else {
        all_words(vs.drop_last()) + vertex_words(vs.last())
    }
}

/// The vertices read back from a vertex region, six little-endian words each.
pub open spec fn read_vertices(b: Seq<u8>) -> Seq<Vertex> {
    let w = read_u32s(b);
    Seq::new(
        w.len() / 6,
        |i: int|
            Vertex {
                position: vec3(w[6 * i], w[6 * i + 1], w[6 * i + 2]),
                color: vec3(w[6 * i + 3], w[6 * i + 4], w[6 * i + 5]),
            },
    )
}

proof fn lemma_u32s_bytes_concat(a: Seq<u32>, b: Seq<u32>)
    ensures
        u32s_bytes(a + b) == u32s_bytes(a) + u32s_bytes(b),
    decreases b.len(),
{
    if b.len() == 0 {
        assert(a + b =~= a);
        assert(u32s_bytes(a) + u32s_bytes(b) =~= u32s_bytes(a));
    } else {
        assert((a + b).drop_last() =~= a + b.drop_last());
        assert((a + b).last() == b.last());
        lemma_u32s_bytes_concat(a, b.drop_last());
        assert(u32s_bytes(a) + u32s_bytes(b.drop_last()) + le32(b.last()) =~= u32s_bytes(a) + (u32s_bytes(
            b.drop_last(),
        ) + le32(b.last())));
    }
}

proof fn lemma_vertices_bytes_words(vs: Seq<Vertex>)
    ensures
        vertices_bytes(vs) == u32s_bytes(all_words(vs)),
        all_words(vs).len() == 6 * vs.len(),
        forall|i: int, k: int| 0 <= i < vs.len() && 0 <= k < 6 ==> #[trigger] all_words(vs)[6 * i + k]
            == vertex_words(vs[i])[k],
    decreases vs.len(),
{
    if vs.len() > 0 {
        let init = vs.drop_last();
        lemma_vertices_bytes_words(init);
        lemma_u32s_bytes_concat(all_words(init), vertex_words(vs.last()));
        assert forall|i: int, k: int| 0 <= i < vs.len() && 0 <= k < 6 implies #[trigger] all_words(vs)[6 * i
            + k] == vertex_words(vs[i])[k] by {
            if i < vs.len() - 1 {
                assert(init[i] == vs[i]);
                assert(all_words(init)[6 * i + k] == vertex_words(init[i])[k]);
            }
        }
    }
}

/// Reading back the image of vertices gives the vertices.
pub proof fn lemma_read_vertices_inverse(vs: Seq<Vertex>)
    ensures
        read_vertices(vertices_bytes(vs)) == vs,
{
    lemma_vertices_bytes_words(vs);
    let w = all_words(vs);
    lemma_read_u32s_inverse(w);
    let r = read_vertices(vertices_bytes(vs));
    assert(r.len() == vs.len());
    assert forall|i: int| 0 <= i < vs.len() implies #[trigger] r[i] == vs[i] by {
        assert(w[6 * i + 0] == vertex_words(vs[i])[0]);
        assert(w[6 * i + 1] == vertex_words(vs[i])[1]);
        assert(w[6 * i + 2] == vertex_words(vs[i])[2]);
        assert(w[6 * i + 3] == vertex_words(vs[i])[3]);
        assert(w[6 * i + 4] == vertex_words(vs[i])[4]);
        assert(w[6 * i + 5] == vertex_words(vs[i])[5]);
    }
    assert(r =~= vs);
}

/// A primitive mesh built from vertices and 16-bit indices splits back into
/// exactly those vertices and those indices: `[0, offset)` reads back as the
/// vertices, `[offset, end)` as the indices.
pub proof fn lemma_primitive_mesh_round_trip(vs: Seq<Vertex>, indices: Seq<u16>, m: Mesh)
    requires
        m.offset == vertices_bytes(vs).len(),
        m.bytes@ == vertices_bytes(vs) + u16s_bytes(indices),
    ensures
        read_vertices(m.vertex_view()) == vs,
        read_u16s(m.index_view()) == indices,
{
    lemma_mesh_round_trip_u16(vertices_bytes(vs), indices, m);
    lemma_read_vertices_inverse(vs);
}

} // verus!

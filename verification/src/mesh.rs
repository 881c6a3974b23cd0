//! Roblox `.mesh` files: recognising the format version, and reading the
//! binary (`version 2.00` / `version 3.00`) layout.
//!
//! Coordinates are kept as the raw IEEE-754 bit patterns read from the file;
//! turning them into floats, flipping texture `v`, and the bounding box are
//! the renderer's business.

use vstd::prelude::*;
use vstd::string::*;
use crate::text::{chars_of, trim, trim_range, utf8_lossy, utf8_lossy_chars};

verus! {

/// The two families of `.mesh` files.
#[derive(PartialEq, Eq, Debug, Clone, Copy)]
pub enum MeshFormat {
    /// `version 1.00` / `version 1.01`: text, one face per line.
    Ascii,
    /// `version 2.00` / `version 3.00`: little-endian binary.
    Binary,
}

/// A mesh read from a binary file.
pub struct MeshData {
    /// The first line of the file, trimmed (e.g. `version 2.00`).
    pub version: String,
    /// Number of vertices read.
    pub vertex_count: usize,
    /// Number of faces read.
    pub face_count: usize,
    /// Positions (x, y, z), as `f32` bit patterns.
    pub vertices: Vec<(u32, u32, u32)>,
    /// Normals (x, y, z), as `f32` bit patterns.
    pub normals: Vec<(u32, u32, u32)>,
    /// Texture coordinates (u, v) as stored, as `f32` bit patterns.
    pub uvs: Vec<(u32, u32)>,
    /// Triangles, as three vertex indices each.
    pub faces: Vec<(u32, u32, u32)>,
}

/// `b` starts with the ASCII text `p`.
pub open spec fn bytes_start_with(b: Seq<u8>, p: Seq<u8>) -> bool {
    p.len() <= b.len() && b.take(p.len() as int) == p
}

/// `version 1.0` as bytes; a file of the text format continues with `0` or `1`.
pub open spec fn version_1_0() -> Seq<u8> {
    seq![0x76u8, 0x65, 0x72, 0x73, 0x69, 0x6f, 0x6e, 0x20, 0x31, 0x2e, 0x30]
}

/// `version ` as bytes.
pub open spec fn version_prefix() -> Seq<u8> {
    seq![0x76u8, 0x65, 0x72, 0x73, 0x69, 0x6f, 0x6e, 0x20]
}

/// The format a mesh file declares in its first twelve bytes:
/// `version 1.00`/`version 1.01` is text, `version 2.00`/`version 3.00` is
/// binary, anything else (or a file shorter than twelve bytes) is neither.
pub open spec fn mesh_format_of(b: Seq<u8>) -> Option<MeshFormat> {
    if b.len() < 12 {
        None
    } else if bytes_start_with(b, version_1_0()) && (b[11] == 0x30u8 || b[11] == 0x31u8) {
        Some(MeshFormat::Ascii)
    } else if bytes_start_with(b, version_prefix()) && (b[8] == 0x32u8 || b[8] == 0x33u8)
        && b[9] == 0x2eu8 && b[10] == 0x30u8 && b[11] == 0x30u8 {
        Some(MeshFormat::Binary)
    } else {
        None
    }
}

/// The format `bytes` declares (see `mesh_format_of`).
pub fn mesh_format(bytes: &[u8]) -> (r: Option<MeshFormat>)
    ensures
        r == mesh_format_of(bytes@),
{
    if bytes.len() < 12 {
        return None;
    }
    let prefix: [u8; 8] = [0x76, 0x65, 0x72, 0x73, 0x69, 0x6f, 0x6e, 0x20];
    let mut k: usize = 0;
    while k < 8
        invariant
            bytes@.len() >= 12,
            prefix@ == version_prefix(),
            k <= 8,
            forall|j: int| 0 <= j < k ==> bytes@[j] == prefix@[j],
        decreases 8 - k,
    {
        if bytes[k] != prefix[k] {
            assert(bytes@.take(8)[k as int] != version_prefix()[k as int]);
            assert(bytes@.take(11)[k as int] != version_1_0()[k as int]);
            return None;
        }
        k = k + 1;
    }
    assert(bytes@.take(8) =~= version_prefix());
    if bytes[8] == 0x31 && bytes[9] == 0x2e && bytes[10] == 0x30 && (bytes[11] == 0x30
        || bytes[11] == 0x31) {
        assert(bytes@.take(11) =~= version_1_0());
        Some(MeshFormat::Ascii)
    } else if (bytes[8] == 0x32 || bytes[8] == 0x33) && bytes[9] == 0x2e && bytes[10] == 0x30
        && bytes[11] == 0x30 {
        assert(!bytes_start_with(bytes@, version_1_0()) || bytes@[8] == 0x31u8) by {
            if bytes_start_with(bytes@, version_1_0()) {
                assert(bytes@.take(11)[8] == version_1_0()[8]);
            }
        }
        Some(MeshFormat::Binary)
    } else {
        assert(!bytes_start_with(bytes@, version_1_0()) || (bytes@[8] == 0x31u8 && bytes@[9]
            == 0x2eu8 && bytes@[10] == 0x30u8)) by {
            if bytes_start_with(bytes@, version_1_0()) {
                assert(bytes@.take(11)[8] == version_1_0()[8]);
                assert(bytes@.take(11)[9] == version_1_0()[9]);
                assert(bytes@.take(11)[10] == version_1_0()[10]);
            }
        }
        None
    }
}

// ---------------------------------------------------------------------------
// Binary layout
// ---------------------------------------------------------------------------

/// The little-endian `u16` at `i`.
pub open spec fn le16(b: Seq<u8>, i: int) -> int {
    b[i] + 256 * b[i + 1]
}

/// The little-endian `u32` at `i`.
pub open spec fn le32(b: Seq<u8>, i: int) -> int {
    b[i] + 256 * b[i + 1] + 65536 * b[i + 2] + 16777216 * b[i + 3]
}

/// Index of the first newline byte of `b`, or `b.len()` when there is none.
pub open spec fn first_newline(b: Seq<u8>) -> int
    decreases b.len(),
{
    if b.len() == 0 {
        0
    } else if b[0] == 10u8 {
        0
    } else {
        1 + first_newline(b.drop_first())
    }
}

/// Where the binary header starts: just after the first line.
pub open spec fn header_start(b: Seq<u8>) -> int {
    first_newline(b) + 1
}

/// Size of the binary header, as it declares.
pub open spec fn header_size(b: Seq<u8>) -> int {
    le16(b, header_start(b))
}

/// Size of one vertex record.
pub open spec fn vertex_size(b: Seq<u8>) -> int {
    b[header_start(b) + 2] as int
}

/// Size of one face record.
pub open spec fn face_size(b: Seq<u8>) -> int {
    b[header_start(b) + 3] as int
}

/// Number of vertices the header declares: at offset 8 of a header longer
/// than twelve bytes, at offset 4 otherwise.
pub open spec fn declared_vertices(b: Seq<u8>) -> int {
    if header_size(b) > 12 {
        le32(b, header_start(b) + 8)
    } else {
        le32(b, header_start(b) + 4)
    }
}

/// Number of faces the header declares: at offset 12 of a header longer
/// than twelve bytes, at offset 8 otherwise.
pub open spec fn declared_faces(b: Seq<u8>) -> int {
    if header_size(b) > 12 {
        le32(b, header_start(b) + 12)
    } else {
        le32(b, header_start(b) + 8)
    }
}

/// Offset of the vertex records.
pub open spec fn vertices_start(b: Seq<u8>) -> int {
    header_start(b) + header_size(b)
}

/// Offset just past the declared vertex records, where the faces start.
pub open spec fn faces_start(b: Seq<u8>) -> int {
    vertices_start(b) + declared_vertices(b) * vertex_size(b)
}

/// The header declares a size over twelve bytes but the file ends before
/// the face count it then holds: the counts cannot be read.
pub open spec fn counts_cut_off(b: Seq<u8>) -> bool {
    &&& first_newline(b) < b.len()
    &&& b.len() >= header_start(b) + 12
    &&& header_size(b) > 12
    &&& b.len() < header_start(b) + 16
}

/// A binary mesh yields a mesh: it has a first line, a twelve-byte header
/// after it, and the declared vertex records fit in the file.
pub open spec fn binary_mesh_parses(b: Seq<u8>) -> bool {
    &&& first_newline(b) < b.len()
    &&& b.len() >= header_start(b) + 12
    &&& b.len() >= faces_start(b)
}

/// The 32 bytes of vertex record `i` lie within the file.
pub open spec fn vertex_fits(b: Seq<u8>, i: int) -> bool {
    vertices_start(b) + i * vertex_size(b) + 32 <= b.len()
}

/// `k` vertices are read: the first `k` declared records fit, and reading
/// stops at the declared count or at the first record that does not fit.
pub open spec fn vertices_read(b: Seq<u8>, k: int) -> bool {
    &&& 0 <= k <= declared_vertices(b)
    &&& forall|i: int| 0 <= i < k ==> vertex_fits(b, i)
    &&& (k == declared_vertices(b) || !vertex_fits(b, k))
}

/// The face records are read: all declared ones when they fit in the file
/// and are at least twelve bytes each, none otherwise.
pub open spec fn faces_read(b: Seq<u8>) -> int {
    if b.len() >= faces_start(b) + declared_faces(b) * face_size(b) && face_size(b) >= 12 {
        declared_faces(b)
    } else {
        0
    }
}

/// Three little-endian `u32`s at `c`.
pub open spec fn triple_at(b: Seq<u8>, c: int) -> (u32, u32, u32) {
    (le32(b, c) as u32, le32(b, c + 4) as u32, le32(b, c + 8) as u32)
}

/// `m` is the mesh the binary file `b` holds.
pub open spec fn binary_mesh_ok(b: Seq<u8>, m: MeshData) -> bool {
    let vs = vertices_start(b);
    let sv = vertex_size(b);
    let fs = faces_start(b);
    let sf = face_size(b);
    &&& m.version@ == trim(utf8_lossy_chars(b.take(first_newline(b))))
    &&& vertices_read(b, m.vertices@.len() as int)
    &&& m.normals@.len() == m.vertices@.len()
    &&& m.uvs@.len() == m.vertices@.len()
    &&& forall|i: int|
        0 <= i < m.vertices@.len() ==> {
            &&& #[trigger] m.vertices@[i] == triple_at(b, vs + i * sv)
            &&& m.normals@[i] == triple_at(b, vs + i * sv + 12)
            &&& m.uvs@[i] == (le32(b, vs + i * sv + 24) as u32, le32(b, vs + i * sv + 28) as u32)
        }
    &&& m.faces@.len() == faces_read(b)
    &&& forall|j: int| 0 <= j < m.faces@.len() ==> #[trigger] m.faces@[j] == triple_at(b, fs + j * sf)
    &&& m.vertex_count == m.vertices@.len()
    &&& m.face_count == m.faces@.len()
}

pub proof fn lemma_first_newline(b: Seq<u8>)
    ensures
        0 <= first_newline(b) <= b.len(),
        first_newline(b) < b.len() ==> b[first_newline(b)] == 10u8,
        forall|j: int| 0 <= j < first_newline(b) ==> b[j] != 10u8,
    decreases b.len(),
{
    if b.len() > 0 && b[0] != 10u8 {
        lemma_first_newline(b.drop_first());
        assert forall|j: int| 0 <= j < first_newline(b) implies b[j] != 10u8 by {
            if j > 0 {
                assert(b[j] == b.drop_first()[j - 1]);
            }
        }
    }
}

/// The little-endian `u32` at `i`.
fn read_le32(b: &[u8], i: usize) -> (r: u32)
    requires
        i + 4 <= b@.len(),
    ensures
        r == le32(b@, i as int),
{
    b[i] as u32 + (b[i + 1] as u32) * 256 + (b[i + 2] as u32) * 65536 + (b[i + 3] as u32)
        * 16777216
}

/// Three little-endian `u32`s at `c`.
fn read_triple(b: &[u8], c: usize) -> (r: (u32, u32, u32))
    requires
        c + 12 <= b@.len(),
    ensures
        r == triple_at(b@, c as int),
{
    let n = b.len();
    assert(c + 12 <= n);
    (read_le32(b, c), read_le32(b, c + 4), read_le32(b, c + 8))
}

/// Index of the first newline in `b`, or its length.
fn find_newline(b: &[u8]) -> (r: usize)
    ensures
        r == first_newline(b@),
{
    let n = b.len();
    let mut i: usize = 0;
    assert(b@.skip(0) =~= b@);
    while i < n && b[i] != 10
        invariant
            n == b@.len(),
            i <= n,
            first_newline(b@) == i + first_newline(b@.skip(i as int)),
        decreases n - i,
    {
        assert(b@.skip(i as int).drop_first() =~= b@.skip(i + 1));
        i = i + 1;
    }
    assert(b@.skip(i as int).len() == 0 || b@.skip(i as int)[0] == 10u8);
    i
}

/// Whether the header of a binary mesh is cut off before its face count
/// (see `counts_cut_off`).
pub fn mesh_counts_cut_off(bytes: &[u8]) -> (r: bool)
    ensures
        r == counts_cut_off(bytes@),
{
    let n = bytes.len();
    let nl = find_newline(bytes);
    if nl >= n {
        return false;
    }
    let hs = nl + 1;
    if n < hs || n - hs < 12 {
        return false;
    }
    let size: usize = bytes[hs] as usize + (bytes[hs + 1] as usize) * 256;
    size > 12 && n - hs < 16
}

/// Reads a binary (`version 2.00` / `version 3.00`) mesh: the version line,
/// the header's record sizes and counts, the vertex records (position,
/// normal, texture coordinates; reading stops at the first record that runs
/// past the end of the file) and the face records (all of them when they
/// fit, none otherwise). Gives `None` when there is no version line, no
/// complete header, or the declared vertex records do not fit.
pub fn parse_binary_mesh_v2_v3(bytes: &[u8]) -> (r: Option<MeshData>)
    requires
        !counts_cut_off(bytes@),
    ensures
        r is Some <==> binary_mesh_parses(bytes@),
        r is Some ==> binary_mesh_ok(bytes@, r->Some_0),
{
    let ghost b = bytes@;
    let n = bytes.len();
    let header_end = find_newline(bytes);
    proof {
        lemma_first_newline(b);
    }
    if header_end >= n {
        return None;
    }
    let line = utf8_lossy(vstd::slice::slice_subrange(bytes, 0, header_end));
    assert(bytes@.subrange(0, header_end as int) =~= b.take(header_end as int));
    let lc = chars_of(line.as_str());
    let lcn = lc.len();
    let (va, vb) = trim_range(&lc, 0, lcn);
    assert(lc@.subrange(0, lcn as int) =~= line@);
    let version = String::from_str(line.as_str().substring_char(va, vb));
    let hs = header_end + 1;
    if n - hs < 12 || n < hs {
        return None;
    }
    let sizeof_header: u128 = bytes[hs] as u128 + (bytes[hs + 1] as u128) * 256;
    let sizeof_vertex: u128 = bytes[hs + 2] as u128;
    let sizeof_face: u128 = bytes[hs + 3] as u128;
    let (num_verts, num_faces): (u128, u128) = if sizeof_header > 12 {
        (read_le32(bytes, hs + 8) as u128, read_le32(bytes, hs + 12) as u128)
    } else {
        (read_le32(bytes, hs + 4) as u128, read_le32(bytes, hs + 8) as u128)
    };
    assert(num_verts == declared_vertices(b) && num_faces == declared_faces(b));
    let len = n as u128;
    let v_start: u128 = hs as u128 + sizeof_header;
    assert(num_verts * sizeof_vertex <= 0xffff_ffff * 255) by (nonlinear_arith)
        requires
            num_verts <= 0xffff_ffff,
            sizeof_vertex <= 255,
    ;
    let v_end: u128 = v_start + num_verts * sizeof_vertex;
    if len < v_end {
        return None;
    }
    let mut vertices: Vec<(u32, u32, u32)> = Vec::new();
    let mut normals: Vec<(u32, u32, u32)> = Vec::new();
    let mut uvs: Vec<(u32, u32)> = Vec::new();
    let mut i: u128 = 0;
    while i < num_verts && v_start + i * sizeof_vertex + 32 <= len
        invariant
            b == bytes@,
            len == b.len(),
            len <= usize::MAX,
            v_start == vertices_start(b),
            sizeof_vertex == vertex_size(b),
            num_verts == declared_vertices(b),
            num_verts <= 0xffff_ffff,
            sizeof_vertex <= 255,
            v_start <= len,
            i <= num_verts,
            i * sizeof_vertex <= 0xffff_ffff * 255,
            vertices@.len() == i,
            normals@.len() == i,
            uvs@.len() == i,
            forall|j: int| 0 <= j < i ==> vertex_fits(b, j),
            forall|j: int|
                0 <= j < i ==> {
                    &&& #[trigger] vertices@[j] == triple_at(b, v_start + j * sizeof_vertex)
                    &&& normals@[j] == triple_at(b, v_start + j * sizeof_vertex + 12)
                    &&& uvs@[j] == (
                        le32(b, v_start + j * sizeof_vertex + 24) as u32,
                        le32(b, v_start + j * sizeof_vertex + 28) as u32,
                    )
                },
        decreases num_verts - i,
    {
        let c = (v_start + i * sizeof_vertex) as usize;
        let p = read_triple(bytes, c);
        let nrm = read_triple(bytes, c + 12);
        let u = read_le32(bytes, c + 24);
        let v = read_le32(bytes, c + 28);
        vertices.push(p);
        normals.push(nrm);
        uvs.push((u, v));
        assert((i + 1) * sizeof_vertex <= 0xffff_ffff * 255) by (nonlinear_arith)
            requires
                i + 1 <= 0xffff_ffff,
                sizeof_vertex <= 255,
        ;
        i = i + 1;
    }
    let f_start: u128 = v_end;
    assert(num_faces * sizeof_face <= 0xffff_ffff * 255) by (nonlinear_arith)
        requires
            num_faces <= 0xffff_ffff,
            sizeof_face <= 255,
    ;
    let f_end: u128 = f_start + num_faces * sizeof_face;
    let mut faces: Vec<(u32, u32, u32)> = Vec::new();
    if len >= f_end && sizeof_face >= 12 {
        let mut j: u128 = 0;
        while j < num_faces
            invariant
                b == bytes@,
                len == b.len(),
                len <= usize::MAX,
                f_start == faces_start(b),
                sizeof_face == face_size(b),
                num_faces == declared_faces(b),
                num_faces <= 0xffff_ffff,
                12 <= sizeof_face <= 255,
                f_end == f_start + num_faces * sizeof_face,
                f_end <= len,
                j <= num_faces,
                faces@.len() == j,
                forall|q: int|
                    0 <= q < j ==> #[trigger] faces@[q] == triple_at(b, f_start + q * sizeof_face),
            decreases num_faces - j,
        {
            assert(j * sizeof_face + sizeof_face <= num_faces * sizeof_face) by (nonlinear_arith)
                requires
                    j < num_faces,
                    sizeof_face >= 0,
            ;
            let c = (f_start + j * sizeof_face) as usize;
            faces.push(read_triple(bytes, c));
            j = j + 1;
        }
    }
    let vertex_count = vertices.len();
    let face_count = faces.len();
    Some(MeshData { version, vertex_count, face_count, vertices, normals, uvs, faces })
}

// ---------------------------------------------------------------------------
// Laws
// ---------------------------------------------------------------------------

/// `version M.0N` as twelve bytes.
pub open spec fn version_bytes(major: u8, minor: u8) -> Seq<u8> {
    version_prefix() + seq![major, 0x2eu8, 0x30u8, minor]
}

/// A file starting `version 1.00` or `version 1.01` is a text mesh, one
/// starting `version 2.00` or `version 3.00` a binary mesh, and anything
/// else (a file shorter than twelve bytes among them) is neither.
pub proof fn law_mesh_format_by_version(b: Seq<u8>)
    ensures
        mesh_format_of(b) == (if bytes_start_with(b, version_bytes(0x31, 0x30)) || bytes_start_with(
            b,
            version_bytes(0x31, 0x31),
        ) {
            Some(MeshFormat::Ascii)
        } else if bytes_start_with(b, version_bytes(0x32, 0x30)) || bytes_start_with(
            b,
            version_bytes(0x33, 0x30),
        ) {
            Some(MeshFormat::Binary)
        } else {
            None
        }),
{
    if b.len() >= 12 {
        let t = b.take(12);
        assert forall|maj: u8, min: u8| #[trigger] bytes_start_with(b, version_bytes(maj, min)) <==> (
        bytes_start_with(b, version_prefix()) && b[8] == maj && b[9] == 0x2eu8 && b[10] == 0x30u8
            && b[11] == min) by {
            let v = version_bytes(maj, min);
            if bytes_start_with(b, v) {
                assert forall|k: int| 0 <= k < 8 implies b.take(8)[k] == version_prefix()[k] by {
                    assert(b.take(12)[k] == v[k]);
                }
                assert(b.take(8) =~= version_prefix());
                assert(b.take(12)[8] == v[8] && b.take(12)[9] == v[9] && b.take(12)[10] == v[10]
                    && b.take(12)[11] == v[11]);
            }
            if bytes_start_with(b, version_prefix()) && b[8] == maj && b[9] == 0x2eu8 && b[10]
                == 0x30u8 && b[11] == min {
                assert forall|k: int| 0 <= k < 12 implies b.take(12)[k] == v[k] by {
                    if k < 8 {
                        assert(b.take(8)[k] == version_prefix()[k]);
                    }
                }
                assert(b.take(12) =~= v);
            }
        }
        assert(bytes_start_with(b, version_1_0()) <==> (bytes_start_with(b, version_prefix())
            && b[8] == 0x31u8 && b[9] == 0x2eu8 && b[10] == 0x30u8)) by {
            if bytes_start_with(b, version_1_0()) {
                assert forall|k: int| 0 <= k < 8 implies b.take(8)[k] == version_prefix()[k] by {
                    assert(b.take(11)[k] == version_1_0()[k]);
                }
                assert(b.take(8) =~= version_prefix());
                assert(b.take(11)[8] == version_1_0()[8] && b.take(11)[9] == version_1_0()[9]
                    && b.take(11)[10] == version_1_0()[10]);
            }
            if bytes_start_with(b, version_prefix()) && b[8] == 0x31u8 && b[9] == 0x2eu8 && b[10]
                == 0x30u8 {
                assert forall|k: int| 0 <= k < 11 implies b.take(11)[k] == version_1_0()[k] by {
                    if k < 8 {
                        assert(b.take(8)[k] == version_prefix()[k]);
                    }
                }
                assert(b.take(11) =~= version_1_0());
            }
        }
    }
}

/// A binary mesh yields nothing exactly when it has no first line, or the
/// twelve header bytes after it, or the declared vertex records, are cut
/// short.
pub proof fn law_binary_mesh_none_when_cut_short(b: Seq<u8>)
    ensures
        !binary_mesh_parses(b) <==> (first_newline(b) >= b.len() || b.len() < header_start(b) + 12
            || b.len() < vertices_start(b) + declared_vertices(b) * vertex_size(b)),
{
}

/// What a binary mesh holds: as many normals and texture coordinates as
/// vertices, no more vertices or faces than declared, no faces when the
/// face records are shorter than twelve bytes, and counts that match.
pub proof fn law_binary_mesh_shape(b: Seq<u8>, m: MeshData)
    requires
        binary_mesh_ok(b, m),
    ensures
        m.vertex_count == m.vertices@.len(),
        m.normals@.len() == m.vertices@.len(),
        m.uvs@.len() == m.vertices@.len(),
        m.vertices@.len() <= declared_vertices(b),
        m.face_count == m.faces@.len(),
        m.faces@.len() <= declared_faces(b),
        face_size(b) < 12 ==> m.faces@.len() == 0,
{
}

/// Where a binary mesh's records come from: the header starts right after
/// the first line and gives its own size in its first two bytes
/// (little-endian), the vertex size in its third and the face size in its
/// fourth byte. Vertex record `i` starts that many header bytes after the
/// header's start plus `i` vertex sizes, and holds the position, then the
/// normal 12 bytes later, then the texture coordinates 24 and 28 bytes
/// later; the face records follow the declared vertex records.
pub proof fn law_binary_mesh_records(b: Seq<u8>, m: MeshData)
    requires
        binary_mesh_ok(b, m),
    ensures
        ({
            let h = first_newline(b) + 1;
            let vs = h + (b[h] + 256 * b[h + 1]);
            let sv = b[h + 2] as int;
            let sf = b[h + 3] as int;
            let nv = if b[h] + 256 * b[h + 1] > 12 {
                le32(b, h + 8)
            } else {
                le32(b, h + 4)
            };
            &&& forall|i: int|
                0 <= i < m.vertices@.len() ==> {
                    &&& #[trigger] m.vertices@[i] == triple_at(b, vs + i * sv)
                    &&& m.normals@[i] == triple_at(b, vs + i * sv + 12)
                    &&& m.uvs@[i] == (
                        le32(b, vs + i * sv + 24) as u32,
                        le32(b, vs + i * sv + 28) as u32,
                    )
                }
            &&& forall|j: int|
                0 <= j < m.faces@.len() ==> #[trigger] m.faces@[j] == triple_at(
                    b,
                    vs + nv * sv + j * sf,
                )
        }),
{
    let h = first_newline(b) + 1;
    assert(header_start(b) == h);
    assert(header_size(b) == b[h] + 256 * b[h + 1]);
    assert(vertices_start(b) == h + (b[h] + 256 * b[h + 1]));
    assert(vertex_size(b) == b[h + 2] as int);
    assert(face_size(b) == b[h + 3] as int);
    assert(faces_start(b) == vertices_start(b) + declared_vertices(b) * vertex_size(b));
}

} // verus!

//! Mesh reconstruction: reads each child mesh's vertex, index and strip
//! tables, expands triangle strips into triangles, and joins the children
//! into one mesh whose strips are ordered by transparency class.
use vstd::prelude::*;
use crate::bytes::{fits, i32_at, read_i32, read_u16, read_u32, read_u8, u16_at, u32_at, EdbError, Endian};
use crate::entity::{mesh_platform, Entity, EntityModel, NormalEntity, Platform};

verus! {

/// Three single-precision floats, each held as its IEEE-754 bit pattern.
#[derive(Clone, Copy, Debug, PartialEq, Eq, Structural)]
pub struct Vec3Bits {
    pub x: u32,
    pub y: u32,
    pub z: u32,
}

/// Two single-precision floats, each held as its IEEE-754 bit pattern.
#[derive(Clone, Copy, Debug, PartialEq, Eq, Structural)]
pub struct Vec2Bits {
    pub x: u32,
    pub y: u32,
}

/// One vertex of a mesh. `color` is packed RGBA, one byte per channel.
#[derive(Clone, Copy, Debug, PartialEq, Eq, Structural)]
pub struct UXVertex {
    pub pos: Vec3Bits,
    pub norm: Vec3Bits,
    pub uv: Vec2Bits,
    pub color: u32,
}

/// The color of a vertex whose record carries none.
pub const WHITE: u32 = 0xFFFF_FFFF;

/// A strip descriptor as stored in a child mesh.
#[derive(Clone, Copy, Debug, PartialEq, Eq, Structural)]
pub struct RawStrip {
    pub tri_count: u32,
    pub texture_index: i32,
    pub transparency: u8,
    pub flags: u16,
}

/// A strip of an assembled mesh: `tri_count + 2` indices of the mesh's index
/// list, starting at `start_index`, drawn as a triangle strip.
#[derive(Clone, Copy, Debug, PartialEq, Eq, Structural)]
pub struct TriStrip {
    pub tri_count: u32,
    pub start_index: u32,
    pub texture_index: i32,
    pub transparency: u8,
    pub flags: u16,
}

/// Strip flag: transparent, or blended by vertex alpha.
pub const STRIP_BLENDED: u16 = 0x1;

/// Strip flag: the alternative transparent mode.
pub const STRIP_ALT_TRANSPARENT: u16 = 0x8;

/// Strip flag: not drawn.
pub const STRIP_INVISIBLE: u16 = 0x10;

/// Strip flag: drawn from both sides.
pub const STRIP_DOUBLE_SIDED: u16 = 0x40;

/// A triangle: three vertex indices.
pub type Tri = (u32, u32, u32);

/// An assembled mesh: vertices, the joined index lists of its children,
/// the triangles that its strips expand to, and its strips in drawing order.
pub struct ProcessedEntityMesh {
    pub vertices: Vec<UXVertex>,
    pub indices: Vec<u32>,
    pub triangles: Vec<Tri>,
    pub strips: Vec<TriStrip>,
}

pub struct MeshModel {
    pub vertices: Seq<UXVertex>,
    pub indices: Seq<u32>,
    pub triangles: Seq<Tri>,
    pub strips: Seq<TriStrip>,
}

impl View for ProcessedEntityMesh {
    type V = MeshModel;

    open spec fn view(&self) -> MeshModel {
        MeshModel {
            vertices: self.vertices@,
            indices: self.indices@,
            triangles: self.triangles@,
            strips: self.strips@,
        }
    }
}

/// Versions whose vertices carry a packed color and no normal.
pub open spec fn packed_color_version(v: u32) -> bool {
    v == 240 || v == 250 || v == 252
}

pub open spec fn vertex_size(v: u32) -> int {
    if packed_color_version(v) {
        24
    } else {
        32
    }
}

/// Stride of the strip table: versions up to 252 pad each record by four bytes.
pub open spec fn strip_size(v: u32) -> int {
    if v <= 252 {
        20
    } else {
        16
    }
}

pub open spec fn vec3_at(d: Seq<u8>, p: int, e: Endian) -> Vec3Bits {
    Vec3Bits { x: u32_at(d, p, e), y: u32_at(d, p + 4, e), z: u32_at(d, p + 8, e) }
}

pub open spec fn vec2_at(d: Seq<u8>, p: int, e: Endian) -> Vec2Bits {
    Vec2Bits { x: u32_at(d, p, e), y: u32_at(d, p + 4, e) }
}

/// The vertex record at `p`: position, packed color, uv for the versions
/// with packed colors (normal zero); position, normal, uv for the others.
pub open spec fn vertex_at(d: Seq<u8>, p: int, v: u32, e: Endian) -> UXVertex {
    if packed_color_version(v) {
        UXVertex {
            pos: vec3_at(d, p, e),
            norm: Vec3Bits { x: 0, y: 0, z: 0 },
            uv: vec2_at(d, p + 16, e),
            color: u32_at(d, p + 12, e),
        }
    } else {
        UXVertex { pos: vec3_at(d, p, e), norm: vec3_at(d, p + 12, e), uv: vec2_at(d, p + 24, e), color: WHITE }
    }
}

pub open spec fn vertices_at(d: Seq<u8>, p: int, n: int, v: u32, e: Endian) -> Seq<UXVertex> {
    Seq::new(n as nat, |i: int| vertex_at(d, p + vertex_size(v) * i, v, e))
}

/// Decoded vertex normals are zero for the versions with packed colors; for
/// the others they are the three words that follow the position, read as
/// they stand.
pub proof fn lemma_vertex_layout(d: Seq<u8>, p: int, n: int, v: u32, e: Endian, i: int)
    requires
        0 <= i < n,
    ensures
        packed_color_version(v) ==> vertices_at(d, p, n, v, e)[i].norm == (Vec3Bits { x: 0, y: 0, z: 0 }),
        !packed_color_version(v) ==> vertices_at(d, p, n, v, e)[i].norm == vec3_at(d, p + 32 * i + 12, e),
{
}

pub open spec fn u16s_at(d: Seq<u8>, p: int, n: int, e: Endian) -> Seq<u16> {
    Seq::new(n as nat, |i: int| u16_at(d, p + 2 * i, e))
}

pub open spec fn raw_strip_at(d: Seq<u8>, p: int, e: Endian) -> RawStrip {
    RawStrip {
        tri_count: u32_at(d, p, e),
        texture_index: i32_at(d, p + 4, e),
        transparency: d[p + 8],
        flags: u16_at(d, p + 10, e),
    }
}

pub open spec fn raw_strips_at(d: Seq<u8>, p: int, n: int, v: u32, e: Endian) -> Seq<RawStrip> {
    Seq::new(n as nat, |i: int| raw_strip_at(d, p + strip_size(v) * i, e))
}

/// The `tc` triangles of a strip whose indices start at `c`: even
/// triangles keep the strip's order, odd ones are reversed.
pub open spec fn strip_tris(idx: Seq<u16>, c: int, tc: int) -> Seq<Tri> {
    Seq::new(
        tc as nat,
        |i: int|
            if i % 2 == 0 {
                (idx[c + i] as u32, idx[c + i + 1] as u32, idx[c + i + 2] as u32)
            } else {
                (idx[c + i + 2] as u32, idx[c + i + 1] as u32, idx[c + i] as u32)
            },
    )
}

/// What the strips of one child expand to: triangles, the strips that are
/// drawn (start indices local to the child), and how many indices the
/// strips consumed.
pub struct Expansion {
    pub tris: Seq<Tri>,
    pub strips: Seq<TriStrip>,
    pub consumed: int,
}

/// Expands strips in order. A strip of fewer than two triangles is skipped;
/// each other strip starts where the previous one's count left off and must
/// stay inside the index list.
pub open spec fn expand(idx: Seq<u16>, raw: Seq<RawStrip>) -> Result<Expansion, EdbError>
    decreases raw.len(),
{
    if raw.len() == 0 {
        Ok(Expansion { tris: Seq::empty(), strips: Seq::empty(), consumed: 0 })
    } else {
        match expand(idx, raw.drop_last()) {
            Err(x) => Err(x),
            Ok(x) => {
                let s = raw.last();
                let tc = s.tri_count as int;
                if tc < 2 {
                    Ok(x)
                } else if x.consumed + tc + 2 > idx.len() {
                    Err(EdbError::Malformed)
                } else {
                    Ok(
                        Expansion {
                            tris: x.tris + strip_tris(idx, x.consumed, tc),
                            strips: x.strips.push(
                                TriStrip {
                                    tri_count: s.tri_count,
                                    start_index: x.consumed as u32,
                                    texture_index: s.texture_index,
                                    transparency: s.transparency,
                                    flags: s.flags,
                                },
                            ),
                            consumed: x.consumed + tc,
                        },
                    )
                }
            },
        }
    }
}

/// The sum of the triangle counts of the strips of two or more triangles.
pub open spec fn drawn_tri_total(raw: Seq<RawStrip>) -> int
    decreases raw.len(),
{
    if raw.len() == 0 {
        0
    } else if raw.last().tri_count >= 2 {
        drawn_tri_total(raw.drop_last()) + raw.last().tri_count
    } else {
        drawn_tri_total(raw.drop_last())
    }
}

/// One child mesh: its vertices, its index list, and its expanded strips.
/// Every index must name one of the child's vertices.
pub open spec fn child_at(d: Seq<u8>, n: NormalEntity, v: u32, e: Endian) -> Result<(Seq<UXVertex>, Seq<u16>, Expansion), EdbError> {
    if !fits(d, n.vertex_data as int, vertex_size(v) * n.vertex_count) {
        Err(EdbError::Io)
    } else if !fits(d, n.index_data as int, 2 * n.index_count) {
        Err(EdbError::Io)
    } else if !fits(d, n.tristrip_data as int, strip_size(v) * n.tristrip_count) {
        Err(EdbError::Io)
    } else {
        let idx = u16s_at(d, n.index_data as int, n.index_count as int, e);
        if exists|j: int| 0 <= j < idx.len() && idx[j] >= n.vertex_count {
            Err(EdbError::Malformed)
        } else {
            match expand(idx, raw_strips_at(d, n.tristrip_data as int, n.tristrip_count as int, v, e)) {
                Err(x) => Err(x),
                Ok(x) => Ok((vertices_at(d, n.vertex_data as int, n.vertex_count as int, v, e), idx, x)),
            }
        }
    }
}

pub open spec fn offset_tri(t: Tri, b: int) -> Tri {
    ((t.0 + b) as u32, (t.1 + b) as u32, (t.2 + b) as u32)
}

pub open spec fn offset_strip(s: TriStrip, b: int) -> TriStrip {
    TriStrip {
        tri_count: s.tri_count,
        start_index: (s.start_index + b) as u32,
        texture_index: s.texture_index,
        transparency: s.transparency,
        flags: s.flags,
    }
}

/// Appends a child to a mesh: its vertex indices move past the vertices
/// already there, its strip starts past the indices already there.
pub open spec fn append_child(m: MeshModel, verts: Seq<UXVertex>, idx: Seq<u16>, x: Expansion) -> MeshModel {
    let vb = m.vertices.len() as int;
    let ib = m.indices.len() as int;
    MeshModel {
        vertices: m.vertices + verts,
        indices: m.indices + Seq::new(idx.len(), |j: int| (idx[j] + vb) as u32),
        triangles: m.triangles + Seq::new(x.tris.len(), |j: int| offset_tri(x.tris[j], vb)),
        strips: m.strips + Seq::new(x.strips.len(), |j: int| offset_strip(x.strips[j], ib)),
    }
}

pub open spec fn empty_mesh() -> MeshModel {
    MeshModel { vertices: Seq::empty(), indices: Seq::empty(), triangles: Seq::empty(), strips: Seq::empty() }
}

/// The children joined in order. The joined vertex and index lists must be
/// countable in 32 bits.
pub open spec fn join_children(d: Seq<u8>, kids: Seq<NormalEntity>, v: u32, e: Endian) -> Result<MeshModel, EdbError>
    decreases kids.len(),
{
    if kids.len() == 0 {
        Ok(empty_mesh())
    } else {
        match join_children(d, kids.drop_last(), v, e) {
            Err(x) => Err(x),
            Ok(m) => match child_at(d, kids.last(), v, e) {
                Err(x) => Err(x),
                Ok((verts, idx, x)) => if m.vertices.len() + verts.len() > u32::MAX || m.indices.len()
                    + idx.len() > u32::MAX {
                    Err(EdbError::Malformed)
                } else {
                    Ok(append_child(m, verts, idx, x))
                },
            },
        }
    }
}

/// `x` put after every strip of `s` whose transparency is not above its own.
pub open spec fn insert_strip(s: Seq<TriStrip>, x: TriStrip) -> Seq<TriStrip>
    decreases s.len(),
{
    if s.len() == 0 {
        seq![x]
    } else if s.last().transparency <= x.transparency {
        s.push(x)
    } else {
        insert_strip(s.drop_last(), x).push(s.last())
    }
}

/// The strips ordered by transparency, keeping the order of equal ones.
pub open spec fn sort_by_transparency(s: Seq<TriStrip>) -> Seq<TriStrip>
    decreases s.len(),
{
    if s.len() == 0 {
        s
    } else {
        insert_strip(sort_by_transparency(s.drop_last()), s.last())
    }
}

pub open spec fn transparency_sorted(s: Seq<TriStrip>) -> bool {
    forall|i: int, j: int| 0 <= i < j < s.len() ==> s[i].transparency <= s[j].transparency
}

/// The meshes that an entity is made of.
pub open spec fn mesh_children(ent: EntityModel) -> Option<Seq<NormalEntity>> {
    match ent {
        EntityModel::Normal(_, n) => Some(seq![n]),
        EntityModel::Split(_, c) => Some(c),
        _ => None,
    }
}

/// The mesh of an entity.
pub open spec fn mesh_of(d: Seq<u8>, ent: EntityModel, v: u32, p: Platform, e: Endian) -> Result<MeshModel, EdbError> {
    if !mesh_platform(p) {
        Err(EdbError::UnsupportedPlatform)
    } else {
        match mesh_children(ent) {
            None => Err(EdbError::UnsupportedEntity),
            Some(kids) => match join_children(d, kids, v, e) {
                Err(x) => Err(x),
                Ok(m) => Ok(MeshModel { strips: sort_by_transparency(m.strips), ..m }),
            },
        }
    }
}

fn read_vec3(d: &[u8], p: usize, e: Endian) -> (r: Result<Vec3Bits, EdbError>)
    requires
        fits(d@, p as int, 12),
    ensures
        r == Ok::<Vec3Bits, EdbError>(vec3_at(d@, p as int, e)),
{
    let _len = d.len();
    let x = read_u32(d, p, e)?;
    let y = read_u32(d, p + 4, e)?;
    let z = read_u32(d, p + 8, e)?;
    Ok(Vec3Bits { x, y, z })
}

fn read_vec2(d: &[u8], p: usize, e: Endian) -> (r: Result<Vec2Bits, EdbError>)
    requires
        fits(d@, p as int, 8),
    ensures
        r == Ok::<Vec2Bits, EdbError>(vec2_at(d@, p as int, e)),
{
    let _len = d.len();
    let x = read_u32(d, p, e)?;
    let y = read_u32(d, p + 4, e)?;
    Ok(Vec2Bits { x, y })
}

fn read_vertex(d: &[u8], p: usize, v: u32, e: Endian) -> (r: Result<UXVertex, EdbError>)
    requires
        fits(d@, p as int, vertex_size(v)),
    ensures
        r == Ok::<UXVertex, EdbError>(vertex_at(d@, p as int, v, e)),
{
    let _len = d.len();
    let pos = read_vec3(d, p, e)?;
    if v == 240 || v == 250 || v == 252 {
        let color = read_u32(d, p + 12, e)?;
        let uv = read_vec2(d, p + 16, e)?;
        Ok(UXVertex { pos, norm: Vec3Bits { x: 0, y: 0, z: 0 }, uv, color })
    } else {
        let norm = read_vec3(d, p + 12, e)?;
        let uv = read_vec2(d, p + 24, e)?;
        Ok(UXVertex { pos, norm, uv, color: WHITE })
    }
}

/// Reads `n` vertex records starting at `p`.
pub fn read_vertices(d: &[u8], p: usize, n: u32, v: u32, e: Endian) -> (r: Result<Vec<UXVertex>, EdbError>)
    ensures
        match r {
            Ok(x) => fits(d@, p as int, vertex_size(v) * n) && x@ == vertices_at(d@, p as int, n as int, v, e),
            Err(x) => !fits(d@, p as int, vertex_size(v) * n) && x == EdbError::Io,
        },
{
    let size: usize = if v == 240 || v == 250 || v == 252 { 24 } else { 32 };
    let n = n as usize;
    if p > d.len() || n > (d.len() - p) / size {
        proof {
            assert(!fits(d@, p as int, vertex_size(v) * n)) by (nonlinear_arith)
                requires size == vertex_size(v), p > d.len() || n > (d.len() - p) / size as int, size > 0;
        }
        return Err(EdbError::Io);
    }
    proof {
        assert(size * n <= d.len() - p) by (nonlinear_arith)
            requires n <= (d.len() - p) / size as int, size > 0, p <= d.len();
    }
    let mut out: Vec<UXVertex> = Vec::new();
    let mut i: usize = 0;
    while i < n
        invariant
            i <= n,
            size as int == vertex_size(v),
            p + size * n <= d.len(),
            out@ == vertices_at(d@, p as int, i as int, v, e),
        decreases n - i,
    {
        proof {
            assert(size * i + size <= size * n) by (nonlinear_arith)
                requires i < n, size > 0;
        }
        let x = read_vertex(d, p + size * i, v, e)?;
        out.push(x);
        i += 1;
        assert(out@ =~= vertices_at(d@, p as int, i as int, v, e));
    }
    Ok(out)
}

/// Reads `n` 16-bit indices starting at `p`.
pub fn read_u16s(d: &[u8], p: usize, n: u32, e: Endian) -> (r: Result<Vec<u16>, EdbError>)
    ensures
        match r {
            Ok(x) => fits(d@, p as int, 2 * n) && x@ == u16s_at(d@, p as int, n as int, e),
            Err(x) => !fits(d@, p as int, 2 * n) && x == EdbError::Io,
        },
{
    let n = n as usize;
    if p > d.len() || n > (d.len() - p) / 2 {
        return Err(EdbError::Io);
    }
    let mut out: Vec<u16> = Vec::new();
    let mut i: usize = 0;
    while i < n
        invariant
            i <= n,
            p + 2 * n <= d.len(),
            out@ == u16s_at(d@, p as int, i as int, e),
        decreases n - i,
    {
        let x = read_u16(d, p + 2 * i, e)?;
        out.push(x);
        i += 1;
        assert(out@ =~= u16s_at(d@, p as int, i as int, e));
    }
    Ok(out)
}

fn read_raw_strip(d: &[u8], p: usize, e: Endian) -> (r: Result<RawStrip, EdbError>)
    requires
        fits(d@, p as int, 16),
    ensures
        r == Ok::<RawStrip, EdbError>(raw_strip_at(d@, p as int, e)),
{
    let _len = d.len();
    let tri_count = read_u32(d, p, e)?;
    let texture_index = read_i32(d, p + 4, e)?;
    let transparency = read_u8(d, p + 8)?;
    let flags = read_u16(d, p + 10, e)?;
    Ok(RawStrip { tri_count, texture_index, transparency, flags })
}

/// Reads `n` strip descriptors starting at `p`, at the version's stride.
pub fn read_raw_strips(d: &[u8], p: usize, n: u32, v: u32, e: Endian) -> (r: Result<Vec<RawStrip>, EdbError>)
    ensures
        match r {
            Ok(x) => fits(d@, p as int, strip_size(v) * n) && x@ == raw_strips_at(d@, p as int, n as int, v, e),
            Err(x) => !fits(d@, p as int, strip_size(v) * n) && x == EdbError::Io,
        },
{
    let size: usize = if v <= 252 { 20 } else { 16 };
    let n = n as usize;
    if p > d.len() || n > (d.len() - p) / size {
        proof {
            assert(!fits(d@, p as int, strip_size(v) * n)) by (nonlinear_arith)
                requires size == strip_size(v), p > d.len() || n > (d.len() - p) / size as int, size > 0;
        }
        return Err(EdbError::Io);
    }
    proof {
        assert(size * n <= d.len() - p) by (nonlinear_arith)
            requires n <= (d.len() - p) / size as int, size > 0, p <= d.len();
    }
    let mut out: Vec<RawStrip> = Vec::new();
    let mut i: usize = 0;
    while i < n
        invariant
            i <= n,
            size as int == strip_size(v),
            p + size * n <= d.len(),
            out@ == raw_strips_at(d@, p as int, i as int, v, e),
        decreases n - i,
    {
        proof {
            assert(size * i + size <= size * n) by (nonlinear_arith)
                requires i < n, size > 0;
        }
        let x = read_raw_strip(d, p + size * i, e)?;
        out.push(x);
        i += 1;
        assert(out@ =~= raw_strips_at(d@, p as int, i as int, v, e));
    }
    Ok(out)
}

/// Once a prefix of the strips fails to expand, the whole list fails the
/// same way.
proof fn lemma_expand_err_sticks(idx: Seq<u16>, raw: Seq<RawStrip>, k: int)
    requires
        0 <= k <= raw.len(),
        expand(idx, raw.take(k)) is Err,
    ensures
        expand(idx, raw) == expand(idx, raw.take(k)),
    decreases raw.len() - k,
{
    if k < raw.len() {
        assert(raw.take(k + 1).drop_last() =~= raw.take(k));
        lemma_expand_err_sticks(idx, raw, k + 1);
    } else {
        assert(raw.take(k) =~= raw);
    }
}

pub open spec fn tri_below(t: Tri, b: int) -> bool {
    t.0 < b && t.1 < b && t.2 < b
}

/// The triangles that strips expand to use only indices of the list, and
/// each drawn strip's indices lie inside the list.
proof fn lemma_expand_bounds(idx: Seq<u16>, raw: Seq<RawStrip>, b: int)
    requires
        expand(idx, raw) is Ok,
        forall|j: int| 0 <= j < idx.len() ==> idx[j] < b,
    ensures
        expand(idx, raw)->Ok_0.consumed <= idx.len(),
        0 <= expand(idx, raw)->Ok_0.consumed,
        forall|j: int| 0 <= j < expand(idx, raw)->Ok_0.tris.len() ==> tri_below(#[trigger] expand(idx, raw)->Ok_0.tris[j], b),
        forall|j: int| 0 <= j < expand(idx, raw)->Ok_0.strips.len() ==>
            (#[trigger] expand(idx, raw)->Ok_0.strips[j]).start_index + expand(idx, raw)->Ok_0.strips[j].tri_count + 2 <= idx.len(),
    decreases raw.len(),
{
    if raw.len() > 0 {
        lemma_expand_bounds(idx, raw.drop_last(), b);
        let x = expand(idx, raw.drop_last())->Ok_0;
        let s = raw.last();
        if s.tri_count >= 2 {
            let r = expand(idx, raw)->Ok_0;
            let st = strip_tris(idx, x.consumed, s.tri_count as int);
            assert(r.tris =~= x.tris + st);
            assert forall|j: int| 0 <= j < r.tris.len() implies tri_below(#[trigger] r.tris[j], b) by {
                if j >= x.tris.len() {
                    let i = j - x.tris.len();
                    assert(r.tris[j] == st[i]);
                }
            }
        }
    }
}

/// Expands the strips of one child into triangles.
pub fn expand_strips(idx: &Vec<u16>, raw: &Vec<RawStrip>) -> (r: Result<(Vec<Tri>, Vec<TriStrip>, usize), EdbError>)
    requires
        idx.len() <= u32::MAX,
    ensures
        match r {
            Ok((t, s, c)) => expand(idx@, raw@) == Ok::<Expansion, EdbError>(
                Expansion { tris: t@, strips: s@, consumed: c as int },
            ),
            Err(x) => expand(idx@, raw@) == Err::<Expansion, EdbError>(x),
        },
{
    let mut tris: Vec<Tri> = Vec::new();
    let mut strips: Vec<TriStrip> = Vec::new();
    let mut c: usize = 0;
    let mut k: usize = 0;
    while k < raw.len()
        invariant
            k <= raw.len(),
            idx.len() <= u32::MAX,
            c <= idx.len(),
            expand(idx@, raw@.take(k as int)) == Ok::<Expansion, EdbError>(
                Expansion { tris: tris@, strips: strips@, consumed: c as int },
            ),
        decreases raw.len() - k,
    {
        let s = raw[k];
        proof {
            assert(raw@.take(k + 1).drop_last() =~= raw@.take(k as int));
        }
        if s.tri_count >= 2 {
            let tc = s.tri_count as usize;
            if tc > idx.len() || idx.len() - tc < 2 || c > idx.len() - tc - 2 {
                proof {
                    lemma_expand_err_sticks(idx@, raw@, k + 1);
                }
                return Err(EdbError::Malformed);
            }
            let ghost t0 = tris@;
            let mut i: usize = 0;
            while i < tc
                invariant
                    i <= tc,
                    c + tc + 2 <= idx.len(),
                    tris@ == t0 + strip_tris(idx@, c as int, i as int),
                decreases tc - i,
            {
                let q = c + i;
                let t = if i % 2 == 0 {
                    (idx[q] as u32, idx[q + 1] as u32, idx[q + 2] as u32)
                } else {
                    (idx[q + 2] as u32, idx[q + 1] as u32, idx[q] as u32)
                };
                tris.push(t);
                i += 1;
                assert(tris@ =~= t0 + strip_tris(idx@, c as int, i as int));
            }
            strips.push(
                TriStrip {
                    tri_count: s.tri_count,
                    start_index: c as u32,
                    texture_index: s.texture_index,
                    transparency: s.transparency,
                    flags: s.flags,
                },
            );
            c = c + tc;
        }
        k += 1;
    }
    proof {
        assert(raw@.take(raw.len() as int) =~= raw@);
    }
    Ok((tris, strips, c))
}

/// Reads and expands one child mesh.
fn read_child(d: &[u8], n: NormalEntity, v: u32, e: Endian) -> (r: Result<
    (Vec<UXVertex>, Vec<u16>, Vec<Tri>, Vec<TriStrip>, usize),
    EdbError,
>)
    ensures
        match r {
            Ok((verts, idx, t, s, c)) => child_at(d@, n, v, e) == Ok::<(Seq<UXVertex>, Seq<u16>, Expansion), EdbError>(
                (verts@, idx@, Expansion { tris: t@, strips: s@, consumed: c as int }),
            ),
            Err(x) => child_at(d@, n, v, e) == Err::<(Seq<UXVertex>, Seq<u16>, Expansion), EdbError>(x),
        },
{
    let verts = read_vertices(d, n.vertex_data, n.vertex_count, v, e)?;
    let idx = read_u16s(d, n.index_data, n.index_count, e)?;
    let raw = read_raw_strips(d, n.tristrip_data, n.tristrip_count, v, e)?;
    let mut j: usize = 0;
    while j < idx.len()
        invariant
            j <= idx.len(),
            forall|i: int| 0 <= i < j ==> idx[i] < n.vertex_count,
            fits(d@, n.vertex_data as int, vertex_size(v) * n.vertex_count),
            fits(d@, n.index_data as int, 2 * n.index_count),
            fits(d@, n.tristrip_data as int, strip_size(v) * n.tristrip_count),
            idx@ == u16s_at(d@, n.index_data as int, n.index_count as int, e),
        decreases idx.len() - j,
    {
        if idx[j] as u32 >= n.vertex_count {
            assert(idx@[j as int] >= n.vertex_count);
            return Err(EdbError::Malformed);
        }
        j += 1;
    }
    let (t, s, c) = expand_strips(&idx, &raw)?;
    Ok((verts, idx, t, s, c))
}

/// Once a prefix of the children fails, the whole list fails the same way.
proof fn lemma_join_err_sticks(d: Seq<u8>, kids: Seq<NormalEntity>, k: int, v: u32, e: Endian)
    requires
        0 <= k <= kids.len(),
        join_children(d, kids.take(k), v, e) is Err,
    ensures
        join_children(d, kids, v, e) == join_children(d, kids.take(k), v, e),
    decreases kids.len() - k,
{
    if k < kids.len() {
        assert(kids.take(k + 1).drop_last() =~= kids.take(k));
        lemma_join_err_sticks(d, kids, k + 1, v, e);
    } else {
        assert(kids.take(k) =~= kids);
    }
}

/// Every index, triangle corner and strip of a joined mesh stays inside the
/// mesh's vertex and index lists.
pub open spec fn mesh_in_range(m: MeshModel) -> bool {
    &&& forall|i: int| 0 <= i < m.indices.len() ==> m.indices[i] < m.vertices.len()
    &&& forall|i: int| 0 <= i < m.triangles.len() ==> tri_below(#[trigger] m.triangles[i], m.vertices.len() as int)
    &&& forall|i: int| 0 <= i < m.strips.len() ==>
        (#[trigger] m.strips[i]).start_index + m.strips[i].tri_count + 2 <= m.indices.len()
}

/// Joining in-range children gives an in-range mesh.
proof fn lemma_join_in_range(d: Seq<u8>, kids: Seq<NormalEntity>, v: u32, e: Endian)
    requires
        join_children(d, kids, v, e) is Ok,
    ensures
        mesh_in_range(join_children(d, kids, v, e)->Ok_0),
    decreases kids.len(),
{
    if kids.len() > 0 {
        lemma_join_in_range(d, kids.drop_last(), v, e);
        let m = join_children(d, kids.drop_last(), v, e)->Ok_0;
        let n = kids.last();
        let (verts, idx, x) = child_at(d, n, v, e)->Ok_0;
        assert(forall|j: int| 0 <= j < idx.len() ==> idx[j] < n.vertex_count);
        lemma_expand_bounds(idx, raw_strips_at(d, n.tristrip_data as int, n.tristrip_count as int, v, e), n.vertex_count as int);
        let r = append_child(m, verts, idx, x);
        assert(verts.len() == n.vertex_count);
        assert forall|i: int| 0 <= i < r.triangles.len() implies tri_below(#[trigger] r.triangles[i], r.vertices.len() as int) by {
            if i >= m.triangles.len() {
                assert(tri_below(x.tris[i - m.triangles.len()], n.vertex_count as int));
            }
        }
        assert forall|i: int| 0 <= i < r.strips.len() implies
            (#[trigger] r.strips[i]).start_index + r.strips[i].tri_count + 2 <= r.indices.len() by {
            if i >= m.strips.len() {
                let s = x.strips[i - m.strips.len()];
                assert(s.start_index + s.tri_count + 2 <= idx.len());
            }
        }
    }
}

/// Joins the children of an entity into one mesh, strips in child order.
pub fn join_meshes(d: &[u8], kids: &Vec<NormalEntity>, v: u32, e: Endian) -> (r: Result<ProcessedEntityMesh, EdbError>)
    ensures
        match r {
            Ok(m) => join_children(d@, kids@, v, e) == Ok::<MeshModel, EdbError>(m@),
            Err(x) => join_children(d@, kids@, v, e) == Err::<MeshModel, EdbError>(x),
        },
{
    let mut m = ProcessedEntityMesh { vertices: Vec::new(), indices: Vec::new(), triangles: Vec::new(), strips: Vec::new() };
    let mut k: usize = 0;
    while k < kids.len()
        invariant
            k <= kids.len(),
            join_children(d@, kids@.take(k as int), v, e) == Ok::<MeshModel, EdbError>(m@),
        decreases kids.len() - k,
    {
        proof {
            assert(kids@.take(k + 1).drop_last() =~= kids@.take(k as int));
            lemma_join_in_range(d@, kids@.take(k as int), v, e);
        }
        let n = kids[k];
        let (verts, idx, t, s, c) = match read_child(d, n, v, e) {
            Ok(x) => x,
            Err(x) => {
                proof {
                    lemma_join_err_sticks(d@, kids@, k + 1, v, e);
                }
                return Err(x);
            },
        };
        let vb = m.vertices.len();
        let ib = m.indices.len();
        if verts.len() > u32::MAX as usize - vb || idx.len() > u32::MAX as usize - ib {
            proof {
                lemma_join_err_sticks(d@, kids@, k + 1, v, e);
            }
            return Err(EdbError::Malformed);
        }
        proof {
            lemma_expand_bounds(idx@, raw_strips_at(d@, n.tristrip_data as int, n.tristrip_count as int, v, e), n.vertex_count as int);
        }
        let ghost m0 = m@;
        let ghost x = Expansion { tris: t@, strips: s@, consumed: c as int };
        let mut j: usize = 0;
        while j < verts.len()
            invariant
                j <= verts.len(),
                m.vertices@ == m0.vertices + verts@.take(j as int),
                m.indices@ == m0.indices,
                m.triangles@ == m0.triangles,
                m.strips@ == m0.strips,
            decreases verts.len() - j,
        {
            m.vertices.push(verts[j]);
            j += 1;
            assert(m.vertices@ =~= m0.vertices + verts@.take(j as int));
        }
        assert(verts@.take(verts.len() as int) =~= verts@);
        let mut j: usize = 0;
        while j < idx.len()
            invariant
                j <= idx.len(),
                vb + verts.len() <= u32::MAX,
                verts.len() == n.vertex_count,
                forall|i: int| 0 <= i < idx.len() ==> idx[i] < n.vertex_count,
                m.indices@ == m0.indices + Seq::new(j as nat, |i: int| (idx@[i] + vb) as u32),
                m.vertices@ == m0.vertices + verts@,
                m.triangles@ == m0.triangles,
                m.strips@ == m0.strips,
            decreases idx.len() - j,
        {
            m.indices.push(idx[j] as u32 + vb as u32);
            j += 1;
            assert(m.indices@ =~= m0.indices + Seq::new(j as nat, |i: int| (idx@[i] + vb) as u32));
        }
        let mut j: usize = 0;
        while j < t.len()
            invariant
                j <= t.len(),
                vb + verts.len() <= u32::MAX,
                verts.len() == n.vertex_count,
                forall|i: int| 0 <= i < t.len() ==> tri_below(#[trigger] t@[i], n.vertex_count as int),
                m.triangles@ == m0.triangles + Seq::new(j as nat, |i: int| offset_tri(t@[i], vb as int)),
                m.strips@ == m0.strips,
                m.vertices@ == m0.vertices + verts@,
                m.indices@ == m0.indices + Seq::new(idx.len() as nat, |i: int| (idx@[i] + vb) as u32),

            decreases t.len() - j,
        {
            let q = t[j];
            assert(tri_below(t@[j as int], n.vertex_count as int));
            m.triangles.push((q.0 + vb as u32, q.1 + vb as u32, q.2 + vb as u32));
            j += 1;
            assert(m.triangles@ =~= m0.triangles + Seq::new(j as nat, |i: int| offset_tri(t@[i], vb as int)));
        }
        let mut j: usize = 0;
        while j < s.len()
            invariant
                j <= s.len(),
                ib + idx.len() <= u32::MAX,
                forall|i: int| 0 <= i < s.len() ==> (#[trigger] s@[i]).start_index + s@[i].tri_count + 2 <= idx.len(),
                m.strips@ == m0.strips + Seq::new(j as nat, |i: int| offset_strip(s@[i], ib as int)),
                m.vertices@ == m0.vertices + verts@,
                m.indices@ == m0.indices + Seq::new(idx.len() as nat, |i: int| (idx@[i] + vb) as u32),
                m.triangles@ == m0.triangles + Seq::new(t.len() as nat, |i: int| offset_tri(t@[i], vb as int)),
            decreases s.len() - j,
        {
            let q = s[j];
            assert(s@[j as int].start_index + s@[j as int].tri_count + 2 <= idx.len());
            m.strips.push(
                TriStrip {
                    tri_count: q.tri_count,
                    start_index: q.start_index + ib as u32,
                    texture_index: q.texture_index,
                    transparency: q.transparency,
                    flags: q.flags,
                },
            );
            j += 1;
            assert(m.strips@ =~= m0.strips + Seq::new(j as nat, |i: int| offset_strip(s@[i], ib as int)));
        }
        proof {
            let r = append_child(m0, verts@, idx@, x);
            assert(vb == m0.vertices.len() && ib == m0.indices.len());
            assert(m.vertices@ =~= r.vertices);
            assert(m.indices@ =~= r.indices);
            assert(m.triangles@ =~= r.triangles);
            assert(m.strips@ =~= r.strips);
            assert(m@ == r);
        }
        k += 1;
    }
    proof {
        assert(kids@.take(kids.len() as int) =~= kids@);
    }
    Ok(m)
}

/// Inserting after the strips that are not above `x`, scanning from the
/// back, is inserting at the first position whose suffix is all above `x`.
proof fn lemma_insert_at(s: Seq<TriStrip>, x: TriStrip, j: int)
    requires
        0 <= j <= s.len(),
        forall|k: int| j <= k < s.len() ==> s[k].transparency > x.transparency,
        j == 0 || s[j - 1].transparency <= x.transparency,
    ensures
        insert_strip(s, x) == s.insert(j, x),
    decreases s.len(),
{
    if s.len() == 0 {
        assert(insert_strip(s, x) =~= s.insert(j, x));
    } else if s.last().transparency <= x.transparency {
        assert(insert_strip(s, x) =~= s.insert(j, x));
    } else {
        lemma_insert_at(s.drop_last(), x, j);
        assert(insert_strip(s, x) =~= s.insert(j, x));
    }
}

proof fn lemma_insert_bounded(s: Seq<TriStrip>, x: TriStrip, b: u8)
    requires
        forall|k: int| 0 <= k < s.len() ==> s[k].transparency <= b,
        x.transparency <= b,
    ensures
        insert_strip(s, x).len() == s.len() + 1,
        forall|k: int| 0 <= k < insert_strip(s, x).len() ==> #[trigger] insert_strip(s, x)[k].transparency <= b,
    decreases s.len(),
{
    if s.len() > 0 && s.last().transparency > x.transparency {
        lemma_insert_bounded(s.drop_last(), x, b);
    }
}

proof fn lemma_insert_sorted(s: Seq<TriStrip>, x: TriStrip)
    requires
        transparency_sorted(s),
    ensures
        transparency_sorted(insert_strip(s, x)),
    decreases s.len(),
{
    if s.len() > 0 && s.last().transparency > x.transparency {
        let t = s.drop_last();
        lemma_insert_sorted(t, x);
        lemma_insert_bounded(t, x, s.last().transparency);
    }
}

/// The strips of an assembled mesh are ordered by transparency class.
pub proof fn lemma_sort_sorted(s: Seq<TriStrip>)
    ensures
        transparency_sorted(sort_by_transparency(s)),
    decreases s.len(),
{
    if s.len() > 0 {
        lemma_sort_sorted(s.drop_last());
        lemma_insert_sorted(sort_by_transparency(s.drop_last()), s.last());
    }
}

/// Every strip's indices lie among the first `n` of the index list.
pub open spec fn strips_within(s: Seq<TriStrip>, n: int) -> bool {
    forall|k: int| 0 <= k < s.len() ==> (#[trigger] s[k]).start_index + s[k].tri_count + 2 <= n
}

proof fn lemma_insert_within(s: Seq<TriStrip>, x: TriStrip, n: int)
    requires
        strips_within(s, n),
        x.start_index + x.tri_count + 2 <= n,
    ensures
        strips_within(insert_strip(s, x), n),
    decreases s.len(),
{
    if s.len() > 0 && s.last().transparency > x.transparency {
        lemma_insert_within(s.drop_last(), x, n);
        let r = insert_strip(s.drop_last(), x);
        assert(insert_strip(s, x) == r.push(s.last()));
    }
}

/// Sorting keeps every strip inside the index list.
proof fn lemma_sort_within(s: Seq<TriStrip>, n: int)
    requires
        strips_within(s, n),
    ensures
        strips_within(sort_by_transparency(s), n),
    decreases s.len(),
{
    if s.len() > 0 {
        lemma_sort_within(s.drop_last(), n);
        lemma_insert_within(sort_by_transparency(s.drop_last()), s.last(), n);
    }
}

fn insert_by_transparency(out: &mut Vec<TriStrip>, x: TriStrip)
    ensures
        final(out)@ == insert_strip(old(out)@, x),
{
    let mut j: usize = out.len();
    let mut found = false;
    while !found && j > 0
        invariant
            j <= out.len(),
            forall|k: int| j <= k < out.len() ==> out@[k].transparency > x.transparency,
            found ==> j > 0 && out@[j - 1].transparency <= x.transparency,
        decreases j * 2 + if found { 0int } else { 1int },
    {
        if out[j - 1].transparency <= x.transparency {
            found = true;
        } else {
            j -= 1;
        }
    }
    proof {
        lemma_insert_at(out@, x, j as int);
    }
    out.insert(j, x);
}

/// Orders strips by transparency class; strips of one class keep their order.
pub fn sort_strips(v: &Vec<TriStrip>) -> (r: Vec<TriStrip>)
    ensures
        r@ == sort_by_transparency(v@),
{
    let mut out: Vec<TriStrip> = Vec::new();
    let mut k: usize = 0;
    while k < v.len()
        invariant
            k <= v.len(),
            out@ == sort_by_transparency(v@.take(k as int)),
        decreases v.len() - k,
    {
        proof {
            assert(v@.take(k + 1).drop_last() =~= v@.take(k as int));
        }
        insert_by_transparency(&mut out, v[k]);
        k += 1;
    }
    proof {
        assert(v@.take(v.len() as int) =~= v@);
    }
    out
}

pub open spec fn indices_in_range(m: MeshModel) -> bool {
    &&& forall|i: int| 0 <= i < m.indices.len() ==> m.indices[i] < m.vertices.len()
    &&& forall|i: int| 0 <= i < m.triangles.len() ==> tri_below(#[trigger] m.triangles[i], m.vertices.len() as int)
}

/// Every index and triangle corner of an assembled mesh names one of its
/// vertices.
pub proof fn lemma_mesh_indices_in_range(d: Seq<u8>, ent: EntityModel, v: u32, p: Platform, e: Endian)
    requires
        mesh_of(d, ent, v, p, e) is Ok,
    ensures
        indices_in_range(mesh_of(d, ent, v, p, e)->Ok_0),
{
    lemma_join_in_range(d, mesh_children(ent)->Some_0, v, e);
}

/// Builds the mesh of an entity: its one mesh, or its children's joined in
/// order; strips ordered by transparency class.
pub fn assemble_mesh(d: &[u8], entity: &Entity, version: u32, platform: Platform, endian: Endian) -> (r: Result<
    ProcessedEntityMesh,
    EdbError,
>)
    ensures
        match r {
            Ok(m) => mesh_of(d@, entity@, version, platform, endian) == Ok::<MeshModel, EdbError>(m@),
            Err(x) => mesh_of(d@, entity@, version, platform, endian) == Err::<MeshModel, EdbError>(x),
        },
        r is Ok ==> indices_in_range(r->Ok_0@) && transparency_sorted(r->Ok_0.strips@)
            && strips_within(r->Ok_0.strips@, r->Ok_0.indices.len() as int),
{
    match platform {
        Platform::Pc | Platform::Xbox => {},
        _ => return Err(EdbError::UnsupportedPlatform),
    }
    let joined = match entity {
        Entity::Normal(_, n) => {
            let kids = vec![*n];
            assert(kids@ =~= seq![*n]);
            join_meshes(d, &kids, version, endian)
        },
        Entity::Split(_, c) => join_meshes(d, c, version, endian),
        _ => return Err(EdbError::UnsupportedEntity),
    };
    let m = joined?;
    let strips = sort_strips(&m.strips);
    let r = ProcessedEntityMesh { vertices: m.vertices, indices: m.indices, triangles: m.triangles, strips };
    proof {
        lemma_mesh_indices_in_range(d@, entity@, version, platform, endian);
        lemma_sort_sorted(m.strips@);
        let kids = mesh_children(entity@)->Some_0;
        lemma_join_in_range(d@, kids, version, endian);
        lemma_sort_within(m.strips@, m.indices.len() as int);
    }
    Ok(r)
}

/// The strips that are drawn consume, in all, as many indices as their
/// triangle counts add up to, and give one triangle per count.
pub proof fn lemma_tristrip_coverage(idx: Seq<u16>, raw: Seq<RawStrip>)
    requires
        expand(idx, raw) is Ok,
    ensures
        expand(idx, raw)->Ok_0.consumed == drawn_tri_total(raw),
        expand(idx, raw)->Ok_0.tris.len() == drawn_tri_total(raw),
    decreases raw.len(),
{
    if raw.len() > 0 {
        lemma_tristrip_coverage(idx, raw.drop_last());
    }
}

/// A strip of three triangles over indices `a b c d e` gives `a b c`, then
/// `d c b` reversed, then `c d e`.
pub proof fn lemma_winding(a: u16, b: u16, c: u16, d: u16, e: u16, s: RawStrip)
    requires
        s.tri_count == 3,
    ensures
        expand(seq![a, b, c, d, e], seq![s]) is Ok,
        expand(seq![a, b, c, d, e], seq![s])->Ok_0.tris == seq![
            (a as u32, b as u32, c as u32),
            (d as u32, c as u32, b as u32),
            (c as u32, d as u32, e as u32),
        ],
{
    let idx = seq![a, b, c, d, e];
    let raw = seq![s];
    assert(raw.drop_last() =~= Seq::<RawStrip>::empty());
    assert(raw.last() == s);
    let x0 = expand(idx, Seq::<RawStrip>::empty());
    assert(x0 == Ok::<Expansion, EdbError>(Expansion { tris: Seq::empty(), strips: Seq::empty(), consumed: 0 }));
    assert(expand(idx, raw) is Ok);
    let r = expand(idx, raw)->Ok_0;
    let st = strip_tris(idx, 0, 3);
    assert(r.tris =~= st);
    assert(idx[0] == a && idx[1] == b && idx[2] == c && idx[3] == d && idx[4] == e);
    assert(st[0] == (a as u32, b as u32, c as u32));
    assert(st[1] == (d as u32, c as u32, b as u32));
    assert(st[2] == (c as u32, d as u32, e as u32));
    assert(r.tris =~= seq![
        (a as u32, b as u32, c as u32),
        (d as u32, c as u32, b as u32),
        (c as u32, d as u32, e as u32),
    ]);
}

} // verus!

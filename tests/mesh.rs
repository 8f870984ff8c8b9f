use eurochef::bytes::{EdbError, Endian};
use eurochef::entity::{decode_entities, read_entity, Entity, Platform};
use eurochef::header::{DirectoryEntry, Header};
use eurochef::mesh::{assemble_mesh, expand_strips, sort_strips, RawStrip, TriStrip};

fn put16(b: &mut [u8], at: usize, x: u16) {
    b[at..at + 2].copy_from_slice(&x.to_le_bytes());
}

fn put32(b: &mut [u8], at: usize, x: u32) {
    b[at..at + 4].copy_from_slice(&x.to_le_bytes());
}

fn rel(b: &mut [u8], field: usize, target: usize) {
    put32(b, field, (target as i64 - field as i64) as i32 as u32);
}

fn grow(b: &mut Vec<u8>, n: usize) -> usize {
    let at = b.len();
    b.resize(at + n, 0);
    at
}

fn packed(version: u32) -> bool {
    version == 240 || version == 250 || version == 252
}

/// Appends a child mesh (its record and tables) and returns the record's address.
fn child(b: &mut Vec<u8>, version: u32, nverts: usize, indices: &[u16], strips: &[(u32, u8)]) -> usize {
    let rec = grow(b, 24);
    let vsize = if packed(version) { 24 } else { 32 };
    let vat = grow(b, vsize * nverts);
    for i in 0..nverts {
        let v = vat + vsize * i;
        put32(b, v, (i as f32).to_bits());
        put32(b, v + 4, 0.5f32.to_bits());
        put32(b, v + 8, 0f32.to_bits());
        if packed(version) {
            put32(b, v + 12, 0x1122_3344);
            put32(b, v + 16, 0.25f32.to_bits());
            put32(b, v + 20, 0.75f32.to_bits());
        } else {
            put32(b, v + 12, 0f32.to_bits());
            put32(b, v + 16, 0f32.to_bits());
            put32(b, v + 20, 1f32.to_bits());
            put32(b, v + 24, 0.25f32.to_bits());
            put32(b, v + 28, 0.75f32.to_bits());
        }
    }
    let iat = grow(b, 2 * indices.len());
    for (k, x) in indices.iter().enumerate() {
        put16(b, iat + 2 * k, *x);
    }
    let ssize = if version <= 252 { 20 } else { 16 };
    let sat = grow(b, ssize * strips.len());
    for (k, (tc, tr)) in strips.iter().enumerate() {
        let s = sat + ssize * k;
        put32(b, s, *tc);
        put32(b, s + 4, k as u32);
        b[s + 8] = *tr;
        put16(b, s + 10, 0x40);
    }
    put32(b, rec, nverts as u32);
    rel(b, rec + 4, vat);
    put32(b, rec + 8, indices.len() as u32);
    rel(b, rec + 12, iat);
    put32(b, rec + 16, strips.len() as u32);
    rel(b, rec + 20, sat);
    rec
}

/// Appends a base entity record and returns its address.
fn base(b: &mut Vec<u8>, object_type: u16) -> usize {
    let at = grow(b, 24);
    put16(b, at, object_type);
    put32(b, at + 4, 0x10);
    put32(b, at + 8, (-3i32) as u32);
    at
}

fn normal_file(version: u32, nverts: usize, indices: &[u16], strips: &[(u32, u8)]) -> Vec<u8> {
    let mut b = vec![];
    let e = base(&mut b, 1537);
    let c = child(&mut b, version, nverts, indices, strips);
    rel(&mut b, e + 12, c);
    b
}

#[test]
fn opaque_two_triangle_mesh() {
    let b = normal_file(253, 4, &[0, 1, 2, 3], &[(2, 0)]);
    let ent = read_entity(&b, 0, Endian::Little).unwrap();
    assert!(matches!(ent, Entity::Normal(_, _)));
    let m = assemble_mesh(&b, &ent, 253, Platform::Pc, Endian::Little).unwrap();
    assert_eq!(m.vertices.len(), 4);
    assert_eq!(m.indices, vec![0, 1, 2, 3]);
    assert_eq!(m.triangles, vec![(0, 1, 2), (3, 2, 1)]);
    assert_eq!(m.strips.len(), 1);
    assert_eq!(m.strips[0].start_index, 0);
    assert_eq!(m.strips[0].tri_count, 2);
    assert_eq!(m.strips[0].transparency, 0);
    assert_eq!(m.vertices[1].pos.x, 1f32.to_bits());
    assert_eq!(m.vertices[1].norm.z, 1f32.to_bits());
    assert_eq!(m.vertices[1].uv.y, 0.75f32.to_bits());
}

#[test]
fn transparency_sort_is_stable() {
    let b = normal_file(253, 4, &[0, 1, 2, 3, 0, 1, 2, 3], &[(2, 1), (2, 0), (2, 2)]);
    let ent = read_entity(&b, 0, Endian::Little).unwrap();
    let m = assemble_mesh(&b, &ent, 253, Platform::Xbox, Endian::Little).unwrap();
    let order: Vec<(u8, u32)> = m.strips.iter().map(|s| (s.transparency, s.start_index)).collect();
    assert_eq!(order, vec![(0, 2), (1, 0), (2, 4)]);

    let b = normal_file(253, 4, &[0, 1, 2, 3, 0, 1, 2, 3], &[(2, 1), (2, 0), (2, 1)]);
    let ent = read_entity(&b, 0, Endian::Little).unwrap();
    let m = assemble_mesh(&b, &ent, 253, Platform::Pc, Endian::Little).unwrap();
    let order: Vec<(u8, u32)> = m.strips.iter().map(|s| (s.transparency, s.start_index)).collect();
    assert_eq!(order, vec![(0, 2), (1, 0), (1, 4)]);
}

#[test]
fn sort_strips_keeps_equal_order() {
    let s = |t: u8, k: u32| TriStrip { tri_count: 2, start_index: k, texture_index: 0, transparency: t, flags: 0 };
    let sorted = sort_strips(&vec![s(2, 0), s(1, 1), s(2, 2), s(0, 3), s(1, 4)]);
    let order: Vec<u32> = sorted.iter().map(|x| x.start_index).collect();
    assert_eq!(order, vec![3, 1, 4, 0, 2]);
}

#[test]
fn split_entity_aggregation() {
    let mut b = vec![];
    let e = base(&mut b, 1538);
    let split = grow(&mut b, 8);
    let table = grow(&mut b, 8);
    let mut kids = vec![];
    for _ in 0..2 {
        let k = base(&mut b, 1537);
        let c = child(&mut b, 253, 3, &[0, 1, 2, 2], &[(2, 0)]);
        rel(&mut b, k + 12, c);
        kids.push(k);
    }
    rel(&mut b, e + 16, split);
    put32(&mut b, split, 2);
    rel(&mut b, split + 4, table);
    rel(&mut b, table, kids[0]);
    rel(&mut b, table + 4, kids[1]);

    let ent = read_entity(&b, e, Endian::Little).unwrap();
    match &ent {
        Entity::Split(info, c) => {
            assert_eq!(info.object_type, 1538);
            assert_eq!(info.sort_value, -3);
            assert_eq!(c.len(), 2);
        }
        _ => panic!("expected a split entity"),
    }
    let m = assemble_mesh(&b, &ent, 253, Platform::Pc, Endian::Little).unwrap();
    assert_eq!(m.vertices.len(), 6);
    assert_eq!(m.indices, vec![0, 1, 2, 2, 3, 4, 5, 5]);
    assert_eq!(m.triangles, vec![(0, 1, 2), (2, 2, 1), (3, 4, 5), (5, 5, 4)]);
    let starts: Vec<u32> = m.strips.iter().map(|s| s.start_index).collect();
    assert_eq!(starts, vec![0, 4]);
}

#[test]
fn unsupported_platform() {
    let b = normal_file(253, 4, &[0, 1, 2, 3], &[(2, 0)]);
    let ent = read_entity(&b, 0, Endian::Little).unwrap();
    for p in [Platform::GameCube, Platform::Wii, Platform::Ps2] {
        assert!(matches!(assemble_mesh(&b, &ent, 253, p, Endian::Little), Err(EdbError::UnsupportedPlatform)));
    }
}

#[test]
fn unsupported_entity_kind() {
    let mut b = vec![];
    base(&mut b, 77);
    let ent = read_entity(&b, 0, Endian::Little).unwrap();
    assert!(matches!(ent, Entity::Other(i) if i.object_type == 77));
    assert!(matches!(assemble_mesh(&b, &ent, 253, Platform::Pc, Endian::Little), Err(EdbError::UnsupportedEntity)));
}

#[test]
fn packed_color_versions_have_zero_normals() {
    for v in [240u32, 250, 252] {
        let b = normal_file(v, 3, &[0, 1, 2, 1], &[(2, 0)]);
        let ent = read_entity(&b, 0, Endian::Little).unwrap();
        let m = assemble_mesh(&b, &ent, v, Platform::Pc, Endian::Little).unwrap();
        for x in m.vertices.iter() {
            assert_eq!((x.norm.x, x.norm.y, x.norm.z), (0, 0, 0));
            assert_eq!(x.color, 0x1122_3344);
            assert_eq!(x.uv.x, 0.25f32.to_bits());
        }
    }
    let b = normal_file(251, 3, &[0, 1, 2, 1], &[(2, 0)]);
    let ent = read_entity(&b, 0, Endian::Little).unwrap();
    let m = assemble_mesh(&b, &ent, 251, Platform::Pc, Endian::Little).unwrap();
    assert_eq!(m.vertices[2].norm.z, 1f32.to_bits());
    assert_eq!(m.vertices[2].color, 0xFFFF_FFFF);
}

#[test]
fn short_strips_are_skipped() {
    let b = normal_file(253, 4, &[0, 1, 2, 3, 0, 1], &[(1, 0), (0, 0), (2, 1), (2, 0)]);
    let ent = read_entity(&b, 0, Endian::Little).unwrap();
    let m = assemble_mesh(&b, &ent, 253, Platform::Pc, Endian::Little).unwrap();
    assert_eq!(m.strips.len(), 2);
    // triangles: one per counted triangle of the drawn strips
    assert_eq!(m.triangles.len(), 4);
    assert_eq!(m.triangles, vec![(0, 1, 2), (3, 2, 1), (2, 3, 0), (1, 0, 3)]);
    for t in m.triangles.iter() {
        assert!((t.0 as usize) < m.vertices.len());
        assert!((t.1 as usize) < m.vertices.len());
        assert!((t.2 as usize) < m.vertices.len());
    }
}

#[test]
fn index_past_vertices_is_malformed() {
    let b = normal_file(253, 3, &[0, 1, 3, 2], &[(2, 0)]);
    let ent = read_entity(&b, 0, Endian::Little).unwrap();
    assert!(matches!(assemble_mesh(&b, &ent, 253, Platform::Pc, Endian::Little), Err(EdbError::Malformed)));
}

#[test]
fn strip_past_indices_is_malformed() {
    let b = normal_file(253, 4, &[0, 1, 2, 3], &[(3, 0)]);
    let ent = read_entity(&b, 0, Endian::Little).unwrap();
    assert!(matches!(assemble_mesh(&b, &ent, 253, Platform::Pc, Endian::Little), Err(EdbError::Malformed)));
}

#[test]
fn truncated_vertex_table_is_io() {
    let b = normal_file(253, 4, &[0, 1, 2, 3], &[(2, 0)]);
    let ent = read_entity(&b, 0, Endian::Little).unwrap();
    let cut = &b[..b.len() - 1];
    assert!(matches!(assemble_mesh(cut, &ent, 253, Platform::Pc, Endian::Little), Err(EdbError::Io)));
}

#[test]
fn null_normal_pointer_is_malformed() {
    let mut b = vec![];
    base(&mut b, 1537);
    assert!(matches!(read_entity(&b, 0, Endian::Little), Err(EdbError::Malformed)));
}

#[test]
fn winding_alternates() {
    let (a, b, c, d, e) = (10u16, 11, 12, 13, 14);
    let strip = RawStrip { tri_count: 3, texture_index: 0, transparency: 0, flags: 0 };
    let (tris, strips, used) = expand_strips(&vec![a, b, c, d, e], &vec![strip]).unwrap();
    assert_eq!(tris, vec![(10, 11, 12), (13, 12, 11), (12, 13, 14)]);
    assert_eq!(strips.len(), 1);
    assert_eq!(used, 3);
}

#[test]
fn tristrip_coverage_counts() {
    let s = |tc: u32| RawStrip { tri_count: tc, texture_index: 0, transparency: 0, flags: 0 };
    let idx: Vec<u16> = (0..20).collect();
    let raw = vec![s(3), s(1), s(4), s(0), s(2)];
    let (tris, strips, used) = expand_strips(&idx, &raw).unwrap();
    assert_eq!(used, 9);
    assert_eq!(tris.len(), 9);
    let starts: Vec<u32> = strips.iter().map(|x| x.start_index).collect();
    assert_eq!(starts, vec![0, 3, 7]);
}

#[test]
fn per_record_isolation() {
    let mut b = normal_file(253, 4, &[0, 1, 2, 3], &[(2, 0)]);
    let second = b.len();
    let mut other = normal_file(253, 4, &[0, 1, 2, 3], &[(2, 0)]);
    b.append(&mut other);
    let bad = b.len() - 10;
    let entry = |h: u32, a: usize| DirectoryEntry { hashcode: h, address: a as u32, flags: 0 };
    let h = Header {
        endian: Endian::Little,
        version: 253,
        refpointer_list: vec![],
        entity_list: vec![entry(1, 0), entry(2, bad), entry(3, second)],
        map_list: vec![],
        texture_list: vec![],
        spreadsheet_list: vec![],
    };
    let r = decode_entities(&b, &h, Platform::Pc).unwrap();
    assert_eq!(r.len(), 3);
    assert!(r[0].data.is_ok());
    assert!(matches!(r[1].data, Err(EdbError::Io)));
    assert!(r[2].data.is_ok());
    assert_eq!((r[0].hashcode, r[1].hashcode, r[2].hashcode), (1, 2, 3));
    assert!(matches!(decode_entities(&b, &h, Platform::Wii), Err(EdbError::UnsupportedPlatform)));
}

use eurochef::bytes::{EdbError, Endian};
use eurochef::header::read_header;
use eurochef::map::{decode_maps, has_link, incoming_of, read_from_file, read_map};
use eurochef::entity::Platform;
use eurochef::header::RefPointer;

fn put16(b: &mut [u8], at: usize, x: u16) {
    b[at..at + 2].copy_from_slice(&x.to_le_bytes());
}

fn put32(b: &mut [u8], at: usize, x: u32) {
    b[at..at + 4].copy_from_slice(&x.to_le_bytes());
}

fn rel(b: &mut [u8], field: usize, target: usize) {
    put32(b, field, (target as i64 - field as i64) as i32 as u32);
}

fn grow(b: &mut Vec<u8>, n: usize) -> usize {
    let at = b.len();
    b.resize(at + n, 0);
    at
}

struct TriggerSpec {
    type_index: u32,
    links: Vec<i32>,
}

/// Appends a map record and its tables; returns the map's address and the
/// addresses of two entity records (a map zone and a plain one).
fn map_file(b: &mut Vec<u8>, types: &[(u32, u32)], triggers: &[TriggerSpec], zones: &[u32]) -> (usize, usize, usize) {
    let zone_ent = grow(b, 24);
    put16(b, zone_ent, 1539);
    put32(b, zone_ent + 20, 0x55);
    let plain_ent = grow(b, 20);
    put16(b, plain_ent, 9);

    let m = grow(b, 40);
    let pl = grow(b, 40);
    put32(b, pl, 1f32.to_bits());
    put32(b, pl + 36, 0xCAFE);
    put32(b, m, 1);
    rel(b, m + 4, pl);

    let zt = grow(b, 4 * zones.len());
    for (k, z) in zones.iter().enumerate() {
        put32(b, zt + 4 * k, *z);
    }
    put32(b, m + 8, zones.len() as u32);
    if !zones.is_empty() {
        rel(b, m + 12, zt);
    }

    let tt = grow(b, 8 * types.len());
    for (k, (t, s)) in types.iter().enumerate() {
        put32(b, tt + 8 * k, *t);
        put32(b, tt + 8 * k + 4, *s);
    }
    put32(b, m + 16, types.len() as u32);
    rel(b, m + 20, tt);

    let tr = grow(b, 200 * triggers.len());
    for (k, t) in triggers.iter().enumerate() {
        let p = tr + 200 * k;
        put32(b, p, (k as u32) + 100);
        put32(b, p + 4, t.type_index);
        put16(b, p + 8, 3);
        put32(b, p + 12, 0x11);
        put32(b, p + 16, 0x22);
        put32(b, p + 20, 2f32.to_bits());
        for s in 0..16 {
            put32(b, p + 56 + 4 * s, if s == 0 { 42 } else { 0xFFFF_FFFF });
            let l = t.links.get(s).copied().unwrap_or(-1);
            put32(b, p + 120 + 4 * s, l as u32);
        }
        for s in 0..4 {
            put32(b, p + 184 + 4 * s, if s == 3 { 7 } else { 0xFFFF_FFFF });
        }
    }
    put32(b, m + 24, triggers.len() as u32);
    rel(b, m + 28, tr);

    let col = grow(b, 20);
    put16(b, col, 4);
    put32(b, col + 4, 0xBEEF);
    put32(b, m + 32, 1);
    rel(b, m + 36, col);
    (m, zone_ent, plain_ent)
}

#[test]
fn trigger_graph_back_edges() {
    let links = vec![vec![1, 2], vec![], vec![0]];
    assert_eq!(incoming_of(&links, 0), vec![2]);
    assert_eq!(incoming_of(&links, 1), vec![0]);
    assert_eq!(incoming_of(&links, 2), vec![0]);
}

#[test]
fn self_links_are_not_back_edges() {
    let links = vec![vec![0, 1], vec![1, 0, 0]];
    assert_eq!(incoming_of(&links, 0), vec![1]);
    assert_eq!(incoming_of(&links, 1), vec![0]);
    assert!(has_link(&links[1], 0));
    assert!(!has_link(&links[1], 5));
}

#[test]
fn map_assembly() {
    let mut b = vec![];
    let types = [(5, 0), (6, 0x4200_0001), (7, 9)];
    let triggers = [
        TriggerSpec { type_index: 0, links: vec![1, 2] },
        TriggerSpec { type_index: 1, links: vec![] },
        TriggerSpec { type_index: 2, links: vec![0] },
    ];
    // zones: the map-zone entity, the plain entity, a slot past the table
    let (m, zone_ent, plain_ent) = map_file(&mut b, &types, &triggers, &[0, 1, 9]);
    let refs = vec![RefPointer { address: zone_ent as u32 }, RefPointer { address: plain_ent as u32 }];
    let map = read_map(&b, m, 0x1234, &refs, Endian::Little).unwrap();
    assert_eq!(map.hashcode, 0x1234);
    assert_eq!(map.mapzone_entities.len(), 1);
    assert_eq!(map.mapzone_entities[0].entity_refptr, 0x55);
    assert_eq!(map.placements.len(), 1);
    assert_eq!(map.placements[0].object_ref, 0xCAFE);
    assert_eq!(map.placements[0].position.x, 1f32.to_bits());
    assert_eq!(map.trigger_collisions.len(), 1);
    assert_eq!(map.trigger_collisions[0].hashcode, 0xBEEF);
    assert_eq!(map.triggers.len(), 3);
    let t = &map.triggers;
    assert_eq!(t[0].incoming_links, vec![2]);
    assert_eq!(t[1].incoming_links, vec![0]);
    assert_eq!(t[2].incoming_links, vec![0]);
    assert_eq!((t[0].ttype, t[0].tsubtype), (5, None));
    assert_eq!((t[1].ttype, t[1].tsubtype), (6, None));
    assert_eq!((t[2].ttype, t[2].tsubtype), (7, Some(9)));
    assert_eq!(t[1].link_ref, 101);
    assert_eq!(t[0].debug, 3);
    assert_eq!((t[0].game_flags, t[0].trig_flags), (0x11, 0x22));
    assert_eq!(t[0].position.x, 2f32.to_bits());
    assert_eq!(t[0].data.len(), 16);
    assert_eq!(t[0].data[0], Some(42));
    assert_eq!(t[0].data[1], None);
    assert_eq!(t[0].engine_data, vec![None, None, None, Some(7)]);
    assert_eq!(t[0].links[..3], [1, 2, -1]);
    for i in 0..3 {
        for j in 0..3 {
            let back = t[i].incoming_links.contains(&(j as i32));
            assert_eq!(back, i != j && t[j].links.contains(&(i as i32)));
        }
    }
}

#[test]
fn trigger_type_out_of_range_is_malformed() {
    let mut b = vec![];
    let triggers = [TriggerSpec { type_index: 4, links: vec![] }];
    let (m, _, _) = map_file(&mut b, &[(1, 0)], &triggers, &[]);
    assert!(matches!(read_map(&b, m, 1, &vec![], Endian::Little), Err(EdbError::Malformed)));
}

#[test]
fn truncated_map_is_io() {
    let mut b = vec![];
    let (m, _, _) = map_file(&mut b, &[(1, 0)], &[], &[]);
    let cut = &b[..m + 20];
    assert!(matches!(read_map(cut, m, 1, &vec![], Endian::Little), Err(EdbError::Io)));
}

#[test]
fn maps_from_file() {
    let mut b = vec![0u8; 8];
    put32(&mut b, 4, 252);
    // reference pointers, entities, maps, textures, spreadsheets
    let refs = grow(&mut b, 12);
    let ents = grow(&mut b, 4);
    let maps = grow(&mut b, 4 + 24);
    let rest = grow(&mut b, 8);
    let triggers = [TriggerSpec { type_index: 0, links: vec![] }];
    let (m, zone_ent, _) = map_file(&mut b, &[(1, 2)], &triggers, &[0]);
    put32(&mut b, refs, 2);
    put32(&mut b, refs + 4, zone_ent as u32);
    put32(&mut b, refs + 8, zone_ent as u32);
    put32(&mut b, ents, 0);
    put32(&mut b, maps, 2);
    put32(&mut b, maps + 4, 0xA);
    put32(&mut b, maps + 8, m as u32);
    put32(&mut b, maps + 16, 0xB);
    let near_end = (b.len() - 4) as u32;
    put32(&mut b, maps + 20, near_end);
    put32(&mut b, rest, 0);
    put32(&mut b, rest + 4, 0);
    let h = read_header(&b).unwrap();
    assert_eq!(h.map_list.len(), 2);
    let r = decode_maps(&b, &h);
    assert_eq!(r[0].hashcode, 0xA);
    let first = r[0].data.as_ref().ok().unwrap();
    assert_eq!(first.mapzone_entities.len(), 1);
    assert_eq!(first.triggers[0].tsubtype, Some(2));
    assert!(matches!(r[1].data, Err(EdbError::Io)));
    let again = read_from_file(&b, Platform::GameCube).unwrap();
    assert_eq!(again.len(), 2);
    assert!(matches!(read_from_file(&b[..6], Platform::Pc), Err(EdbError::Io)));
}

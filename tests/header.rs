use eurochef::bytes::{probe_endian, EdbError, Endian};
use eurochef::header::read_header;

fn be32(b: &mut Vec<u8>, x: u32) {
    b.extend_from_slice(&x.to_be_bytes());
}

fn le32(b: &mut Vec<u8>, x: u32) {
    b.extend_from_slice(&x.to_le_bytes());
}

#[test]
fn header_big_endian_minimal() {
    let mut b = vec![0x47, 0, 0, 0];
    be32(&mut b, 0xFC);
    for _ in 0..5 {
        be32(&mut b, 0);
    }
    let h = read_header(&b).unwrap();
    assert_eq!(h.version, 252);
    assert_eq!(h.endian, Endian::Big);
    assert!(h.refpointer_list.is_empty());
    assert!(h.entity_list.is_empty());
    assert!(h.map_list.is_empty());
    assert!(h.texture_list.is_empty());
    assert!(h.spreadsheet_list.is_empty());
}

#[test]
fn header_little_endian_lists() {
    let mut b = vec![0x01, 0, 0, 0];
    le32(&mut b, 250);
    // reference pointers: two addresses
    le32(&mut b, 2);
    le32(&mut b, 4);
    le32(&mut b, 8);
    // entities: one entry
    le32(&mut b, 1);
    le32(&mut b, 0xABCD);
    le32(&mut b, 12);
    le32(&mut b, 7);
    // maps, textures, spreadsheets: empty
    for _ in 0..3 {
        le32(&mut b, 0);
    }
    let h = read_header(&b).unwrap();
    assert_eq!(h.endian, Endian::Little);
    assert_eq!(h.version, 250);
    assert_eq!(h.refpointer_list.len(), 2);
    assert_eq!(h.refpointer_list[1].address, 8);
    assert_eq!(h.entity_list.len(), 1);
    assert_eq!(h.entity_list[0].hashcode, 0xABCD);
    assert_eq!(h.entity_list[0].address, 12);
    assert_eq!(h.entity_list[0].flags, 7);
    for e in h.entity_list.iter() {
        assert!((e.address as usize) < b.len());
    }
}

#[test]
fn header_directory_address_past_end() {
    let mut b = vec![0x01, 0, 0, 0];
    le32(&mut b, 252);
    le32(&mut b, 0);
    le32(&mut b, 1);
    le32(&mut b, 1);
    le32(&mut b, 10_000);
    le32(&mut b, 0);
    for _ in 0..3 {
        le32(&mut b, 0);
    }
    assert_eq!(read_header(&b).err(), Some(EdbError::Malformed));
}

#[test]
fn header_unsupported_version() {
    let mut b = vec![0x47, 0, 0, 0];
    be32(&mut b, 100);
    for _ in 0..5 {
        be32(&mut b, 0);
    }
    assert_eq!(read_header(&b).err(), Some(EdbError::UnsupportedVersion));
}

#[test]
fn header_truncated() {
    assert_eq!(read_header(&[0x47, 0, 0]).err(), Some(EdbError::Io));
    let mut b = vec![0x47, 0, 0, 0];
    be32(&mut b, 252);
    be32(&mut b, 3);
    assert_eq!(read_header(&b).err(), Some(EdbError::Io));
}

#[test]
fn endian_probe_first_byte() {
    assert_eq!(probe_endian(&[0x47, 1, 2]), Endian::Big);
    assert_eq!(probe_endian(&[0x46, 1, 2]), Endian::Little);
    assert_eq!(probe_endian(&[]), Endian::Little);
}

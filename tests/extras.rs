use eurochef::bytes::{EdbError, Endian};
use eurochef::entity::Platform;
use eurochef::header::{DirectoryEntry, Header};
use eurochef::mesh::TriStrip;
use eurochef::render::{is_opaque, strip_draw, BlendMode};
use eurochef::shell::{ansi_step, strip_ansi_codes, AppState};
use eurochef::texture::{decode_textures, read_texture};

fn put16(b: &mut [u8], at: usize, x: u16) {
    b[at..at + 2].copy_from_slice(&x.to_le_bytes());
}

fn put32(b: &mut [u8], at: usize, x: u32) {
    b[at..at + 4].copy_from_slice(&x.to_le_bytes());
}

fn rel(b: &mut [u8], field: usize, target: usize) {
    put32(b, field, (target as i64 - field as i64) as i32 as u32);
}

#[test]
fn strips_escape_sequences() {
    assert_eq!(strip_ansi_codes("\x1b[31mred\x1b[0m plain"), "red plain");
    assert_eq!(strip_ansi_codes("no codes"), "no codes");
    assert_eq!(strip_ansi_codes(""), "");
    assert_eq!(strip_ansi_codes("a\x1b[1;2;3Hb"), "ab");
    assert_eq!(strip_ansi_codes("\x1b[é"), "");
}

#[test]
fn escape_step() {
    assert_eq!(ansi_step(false, 'x', true), (false, Some('x')));
    assert_eq!(ansi_step(false, '\x1b', false), (true, None));
    assert_eq!(ansi_step(true, '3', false), (true, None));
    assert_eq!(ansi_step(true, 'm', true), (false, None));
}

#[test]
fn app_state_holds_message() {
    let s = AppState::Error("bad file".to_string());
    assert!(matches!(s, AppState::Error(ref m) if m == "bad file"));
    assert!(matches!(AppState::Ready, AppState::Ready));
    assert!(matches!(AppState::Loading("a.edb".to_string()), AppState::Loading(_)));
}

fn strip(transparency: u8, flags: u16) -> TriStrip {
    TriStrip { tri_count: 2, start_index: 0, texture_index: 0, transparency, flags }
}

#[test]
fn strip_passes() {
    assert!(is_opaque(&strip(0, 0)));
    assert!(is_opaque(&strip(0, 0x1)));
    assert!(!is_opaque(&strip(0, 0x8)));
    assert!(!is_opaque(&strip(1, 0)));
}

#[test]
fn strip_drawing() {
    assert_eq!(strip_draw(&strip(0, 0x10), None, Platform::Pc), None);
    assert_eq!(strip_draw(&strip(0, 0), Some(0x10000), Platform::Pc), None);
    let d = strip_draw(&strip(2, 0), None, Platform::Pc).unwrap();
    assert_eq!(d.blend, BlendMode::ReverseSubtract);
    assert!(d.cull_back_faces);
    assert_eq!(strip_draw(&strip(1, 0), None, Platform::Pc).unwrap().blend, BlendMode::Additive);
    assert_eq!(strip_draw(&strip(0, 0), None, Platform::Pc).unwrap().blend, BlendMode::Opaque);
    assert_eq!(strip_draw(&strip(7, 0), None, Platform::Pc).unwrap().blend, BlendMode::Opaque);
    assert_eq!(strip_draw(&strip(0, 0x1), None, Platform::Pc).unwrap().blend, BlendMode::Blend);
    assert_eq!(strip_draw(&strip(1, 0x8), None, Platform::Pc).unwrap().blend, BlendMode::Additive);
    assert_eq!(strip_draw(&strip(0, 0), Some(1 << 29), Platform::Pc).unwrap().blend, BlendMode::Cutout);
    assert_eq!(strip_draw(&strip(0, 0x8), Some(1 << 29), Platform::Pc).unwrap().blend, BlendMode::Blend);
    assert!(!strip_draw(&strip(0, 0x40), None, Platform::Pc).unwrap().cull_back_faces);
    assert!(!strip_draw(&strip(0, 0), None, Platform::Ps2).unwrap().cull_back_faces);
    assert!(strip_draw(&strip(0, 0), None, Platform::Xbox).unwrap().cull_back_faces);
}

fn texture_file() -> Vec<u8> {
    let mut b = vec![0u8; 28 + 16 + 6];
    put16(&mut b, 0, 64);
    put16(&mut b, 2, 32);
    put32(&mut b, 4, 0x30);
    put16(&mut b, 8, 15);
    put16(&mut b, 10, 4);
    put32(&mut b, 12, 0.5f32.to_bits());
    put32(&mut b, 16, 0f32.to_bits());
    put32(&mut b, 20, 2);
    rel(&mut b, 24, 28);
    put32(&mut b, 28, 2);
    rel(&mut b, 32, 44);
    put32(&mut b, 36, 4);
    rel(&mut b, 40, 46);
    b[44..50].copy_from_slice(&[1, 2, 3, 4, 5, 6]);
    b
}

#[test]
fn texture_record() {
    let b = texture_file();
    let t = read_texture(&b, 0, 0x77, Endian::Little).unwrap();
    assert_eq!(t.hashcode, 0x77);
    assert_eq!((t.width, t.height, t.flags), (64, 32, 0x30));
    assert_eq!((t.framerate, t.frame_count), (15, 4));
    assert_eq!(t.scroll.x, 0.5f32.to_bits());
    assert_eq!(t.frames, vec![vec![1, 2], vec![3, 4, 5, 6]]);
}

#[test]
fn texture_section() {
    let mut b = texture_file();
    put32(&mut b, 36, 40);
    let h = Header {
        endian: Endian::Little,
        version: 252,
        refpointer_list: vec![],
        entity_list: vec![],
        map_list: vec![],
        texture_list: vec![DirectoryEntry { hashcode: 1, address: 0, flags: 0 }],
        spreadsheet_list: vec![],
    };
    let r = decode_textures(&b, &h);
    assert_eq!(r.len(), 1);
    assert!(matches!(r[0].data, Err(EdbError::Io)));
}

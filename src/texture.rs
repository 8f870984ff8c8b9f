//! Texture records: size, flags, animation rate, scroll speed, and the
//! pixel data of each frame as a byte blob.
use vstd::prelude::*;
use vstd::slice::{slice_subrange, slice_to_vec};
use crate::bytes::{fits, read_req_ptr, read_u16, read_u32, req_ptr_at, u16_at, u32_at, EdbError, Endian};
use crate::entity::IdentifiableResult;
use crate::header::{DirectoryEntry, Header};
use crate::mesh::{vec2_at, Vec2Bits};

verus! {

/// Size of the texture record before its frame table.
pub const TEXTURE_SIZE: usize = 28;

/// Size of one slot of the frame table: a byte size and a pointer.
pub const FRAME_SLOT_SIZE: usize = 8;

pub struct UXGeoTexture {
    pub hashcode: u32,
    pub width: u16,
    pub height: u16,
    pub flags: u32,
    pub framerate: u16,
    pub frame_count: u16,
    pub frames: Vec<Vec<u8>>,
    pub scroll: Vec2Bits,
}

pub struct TextureModel {
    pub hashcode: u32,
    pub width: u16,
    pub height: u16,
    pub flags: u32,
    pub framerate: u16,
    pub frame_count: u16,
    pub frames: Seq<Seq<u8>>,
    pub scroll: Vec2Bits,
}

impl View for UXGeoTexture {
    type V = TextureModel;

    open spec fn view(&self) -> TextureModel {
        TextureModel {
            hashcode: self.hashcode,
            width: self.width,
            height: self.height,
            flags: self.flags,
            framerate: self.framerate,
            frame_count: self.frame_count,
            frames: self.frames@.map_values(|f: Vec<u8>| f@),
            scroll: self.scroll,
        }
    }
}

/// The frame whose slot is at `s`: `size` bytes where the slot's pointer leads.
pub open spec fn frame_at(d: Seq<u8>, s: int, e: Endian) -> Result<Seq<u8>, EdbError> {
    if !fits(d, s, FRAME_SLOT_SIZE as int) {
        Err(EdbError::Io)
    } else {
        match req_ptr_at(d, s + 4, e) {
            Err(x) => Err(x),
            Ok(t) => if !fits(d, t, u32_at(d, s, e) as int) {
                Err(EdbError::Io)
            } else {
                Ok(d.subrange(t, t + u32_at(d, s, e)))
            },
        }
    }
}

/// The first `n` frames of the frame table at `p`.
pub open spec fn frames_at(d: Seq<u8>, p: int, n: nat, e: Endian) -> Result<Seq<Seq<u8>>, EdbError>
    decreases n,
{
    if n == 0 {
        Ok(Seq::empty())
    } else {
        match frames_at(d, p, (n - 1) as nat, e) {
            Err(x) => Err(x),
            Ok(fs) => match frame_at(d, p + FRAME_SLOT_SIZE * (n - 1), e) {
                Err(x) => Err(x),
                Ok(f) => Ok(fs.push(f)),
            },
        }
    }
}

/// The texture record at `a`: width, height, flags, frame rate, frame
/// count, scroll speed, then a frame table (a count and a pointer).
pub open spec fn texture_at(d: Seq<u8>, a: int, hashcode: u32, e: Endian) -> Result<TextureModel, EdbError> {
    if !fits(d, a, TEXTURE_SIZE as int) {
        Err(EdbError::Io)
    } else {
        match req_ptr_at(d, a + 24, e) {
            Err(x) => Err(x),
            Ok(t) => match frames_at(d, t, u32_at(d, a + 20, e) as nat, e) {
                Err(x) => Err(x),
                Ok(frames) => Ok(
                    TextureModel {
                        hashcode,
                        width: u16_at(d, a, e),
                        height: u16_at(d, a + 2, e),
                        flags: u32_at(d, a + 4, e),
                        framerate: u16_at(d, a + 8, e),
                        frame_count: u16_at(d, a + 10, e),
                        frames,
                        scroll: vec2_at(d, a + 12, e),
                    },
                ),
            },
        }
    }
}

pub open spec fn texture_result_view(r: Result<UXGeoTexture, EdbError>) -> Result<TextureModel, EdbError> {
    match r {
        Ok(t) => Ok(t@),
        Err(x) => Err(x),
    }
}

fn read_frame(d: &[u8], s: usize, e: Endian) -> (r: Result<Vec<u8>, EdbError>)
    ensures
        match r {
            Ok(f) => frame_at(d@, s as int, e) == Ok::<Seq<u8>, EdbError>(f@),
            Err(x) => frame_at(d@, s as int, e) == Err::<Seq<u8>, EdbError>(x),
        },
{
    if s >= d.len() || d.len() - s < FRAME_SLOT_SIZE {
        return Err(EdbError::Io);
    }
    let t = read_req_ptr(d, s + 4, e)?;
    let size = read_u32(d, s, e)? as usize;
    if size > d.len() - t {
        return Err(EdbError::Io);
    }
    let blob = slice_to_vec(slice_subrange(d, t, t + size));
    Ok(blob)
}

proof fn lemma_frames_err_sticks(d: Seq<u8>, p: int, i: nat, n: nat, e: Endian)
    requires
        i < n,
    ensures
        frames_at(d, p, (i + 1) as nat, e) is Err ==> frames_at(d, p, n, e) == frames_at(d, p, (i + 1) as nat, e),
    decreases n - i,
{
    if i + 1 < n {
        lemma_frames_err_sticks(d, p, (i + 1) as nat, n, e);
    }
}

pub open spec fn frame_views(v: Seq<Vec<u8>>) -> Seq<Seq<u8>> {
    v.map_values(|f: Vec<u8>| f@)
}

/// Decodes the texture record at `a`.
pub fn read_texture(d: &[u8], a: usize, hashcode: u32, e: Endian) -> (r: Result<UXGeoTexture, EdbError>)
    ensures
        texture_result_view(r) == texture_at(d@, a as int, hashcode, e),
{
    if a >= d.len() || d.len() - a < TEXTURE_SIZE {
        return Err(EdbError::Io);
    }
    let t = read_req_ptr(d, a + 24, e)?;
    let n = read_u32(d, a + 20, e)?;
    let mut frames: Vec<Vec<u8>> = Vec::new();
    let mut i: u32 = 0;
    assert(frame_views(frames@) =~= Seq::<Seq<u8>>::empty());
    while i < n
        invariant
            i <= n,
            fits(d@, a as int, TEXTURE_SIZE as int),
            req_ptr_at(d@, a + 24, e) == Ok::<int, EdbError>(t as int),
            t <= d.len(),
            n == u32_at(d@, a + 20, e),
            frames_at(d@, t as int, i as nat, e) == Ok::<Seq<Seq<u8>>, EdbError>(frame_views(frames@)),
            frames.len() == i,
        decreases n - i,
    {
        proof {
            lemma_frames_err_sticks(d@, t as int, i as nat, n as nat, e);
        }
        if (i as usize) > d.len() / FRAME_SLOT_SIZE || FRAME_SLOT_SIZE * (i as usize) > d.len() - t {
            proof {
                assert(!fits(d@, t + FRAME_SLOT_SIZE * i, FRAME_SLOT_SIZE as int));
            }
            return Err(EdbError::Io);
        }
        let f = read_frame(d, t + FRAME_SLOT_SIZE * (i as usize), e)?;
        let ghost prev = frames@;
        frames.push(f);
        proof {
            assert(frame_views(frames@) =~= frame_views(prev).push(f@));
        }
        i += 1;
    }
    let width = read_u16(d, a, e)?;
    let height = read_u16(d, a + 2, e)?;
    let flags = read_u32(d, a + 4, e)?;
    let framerate = read_u16(d, a + 8, e)?;
    let frame_count = read_u16(d, a + 10, e)?;
    let sx = read_u32(d, a + 12, e)?;
    let sy = read_u32(d, a + 16, e)?;
    Ok(UXGeoTexture { hashcode, width, height, flags, framerate, frame_count, frames, scroll: Vec2Bits { x: sx, y: sy } })
}

/// Decodes each record of the texture directory, in order; one record that
/// fails leaves the others untouched. Texture records have one layout on
/// every platform.
pub fn decode_textures(d: &[u8], h: &Header) -> (r: Vec<IdentifiableResult<UXGeoTexture>>)
    ensures
        r.len() == h.texture_list.len(),
        forall|i: int| 0 <= i < h.texture_list.len() ==> {
            &&& (#[trigger] r[i]).hashcode == h.texture_list[i].hashcode
            &&& texture_result_view(r[i].data) == texture_at(
                d@,
                h.texture_list[i].address as int,
                h.texture_list[i].hashcode,
                h.endian,
            )
        },
{
    let mut r: Vec<IdentifiableResult<UXGeoTexture>> = Vec::new();
    let mut i: usize = 0;
    while i < h.texture_list.len()
        invariant
            i <= h.texture_list.len(),
            r.len() == i,
            forall|j: int| 0 <= j < i ==> {
                &&& (#[trigger] r[j]).hashcode == h.texture_list[j].hashcode
                &&& texture_result_view(r[j].data) == texture_at(
                    d@,
                    h.texture_list[j].address as int,
                    h.texture_list[j].hashcode,
                    h.endian,
                )
            },
        decreases h.texture_list.len() - i,
    {
        let entry: DirectoryEntry = h.texture_list[i];
        let data = read_texture(d, entry.address as usize, entry.hashcode, h.endian);
        r.push(IdentifiableResult { hashcode: entry.hashcode, data });
        i += 1;
    }
    r
}

} // verus!

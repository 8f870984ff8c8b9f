//! Primitive reads over an in-memory byte source: fixed-width integers in a
//! chosen byte order, and relative pointers.
use vstd::prelude::*;

verus! {

/// Byte order of the multi-byte integers of a file.
#[derive(Clone, Copy, Debug, PartialEq, Eq, Structural)]
pub enum Endian {
    Big,
    Little,
}

/// What can go wrong while decoding.
#[derive(Clone, Copy, Debug, PartialEq, Eq, Structural)]
pub enum EdbError {
    /// A read or seek ran past the end of the source.
    Io,
    /// A structural violation: an out-of-range offset, an impossible count,
    /// a required pointer that is null.
    Malformed,
    /// The format version has no known layout.
    UnsupportedVersion,
    /// The operation is not available for this platform.
    UnsupportedPlatform,
    /// The entity is of a kind that carries no mesh this library can build.
    UnsupportedEntity,
}

/// The byte that marks a big-endian file when it stands first.
pub const BIG_ENDIAN_MARK: u8 = 0x47;

/// Byte order of a file, probed from its first byte.
pub open spec fn endian_of(d: Seq<u8>) -> Endian {
    if d.len() > 0 && d[0] == BIG_ENDIAN_MARK {
        Endian::Big
    } else {
        Endian::Little
    }
}

/// `n` bytes starting at `p` lie inside `d`.
pub open spec fn fits(d: Seq<u8>, p: int, n: int) -> bool {
    0 <= p && 0 <= n && p + n <= d.len()
}

/// The 16-bit value of two bytes, least significant first.
pub open spec fn le16(b0: u8, b1: u8) -> u16 {
    (b0 as int + b1 as int * 0x100) as u16
}

/// The 32-bit value of four bytes, least significant first.
pub open spec fn le32(b0: u8, b1: u8, b2: u8, b3: u8) -> u32 {
    (b0 as int + b1 as int * 0x100 + b2 as int * 0x1_0000 + b3 as int * 0x100_0000) as u32
}

pub open spec fn u16_at(d: Seq<u8>, p: int, e: Endian) -> u16 {
    match e {
        Endian::Little => le16(d[p], d[p + 1]),
        Endian::Big => le16(d[p + 1], d[p]),
    }
}

pub open spec fn u32_at(d: Seq<u8>, p: int, e: Endian) -> u32 {
    match e {
        Endian::Little => le32(d[p], d[p + 1], d[p + 2], d[p + 3]),
        Endian::Big => le32(d[p + 3], d[p + 2], d[p + 1], d[p]),
    }
}

pub open spec fn i32_at(d: Seq<u8>, p: int, e: Endian) -> i32 {
    u32_at(d, p, e) as i32
}

/// `n` consecutive 32-bit words starting at `p`.
pub open spec fn u32s_at(d: Seq<u8>, p: int, n: int, e: Endian) -> Seq<u32> {
    Seq::new(n as nat, |i: int| u32_at(d, p + 4 * i, e))
}

/// The target of the relative pointer stored at `field`: the field's own
/// address plus the stored delta, `None` when the delta is zero.
pub open spec fn ptr_at(d: Seq<u8>, field: int, e: Endian) -> Result<Option<int>, EdbError> {
    if !fits(d, field, 4) {
        Err(EdbError::Io)
    } else if i32_at(d, field, e) == 0 {
        Ok(None)
    } else {
        let t = field + i32_at(d, field, e) as int;
        if 0 <= t && t <= d.len() {
            Ok(Some(t))
        } else {
            Err(EdbError::Malformed)
        }
    }
}

/// Like `ptr_at`, for a pointer that must not be null.
pub open spec fn req_ptr_at(d: Seq<u8>, field: int, e: Endian) -> Result<int, EdbError> {
    match ptr_at(d, field, e) {
        Err(x) => Err(x),
        Ok(None) => Err(EdbError::Malformed),
        Ok(Some(t)) => Ok(t),
    }
}

/// Byte order of a file: big when its first byte is the mark, else little.
pub fn probe_endian(d: &[u8]) -> (r: Endian)
    ensures
        r == endian_of(d@),
{
    if d.len() > 0 && d[0] == BIG_ENDIAN_MARK {
        Endian::Big
    } else {
        Endian::Little
    }
}

/// Checks that `n` bytes starting at `p` lie inside `d`.
pub fn spans(d: &[u8], p: usize, n: usize) -> (r: bool)
    ensures
        r == fits(d@, p as int, n as int),
{
    p <= d.len() && n <= d.len() - p
}

pub fn read_u8(d: &[u8], p: usize) -> (r: Result<u8, EdbError>)
    ensures
        r == (if fits(d@, p as int, 1) {
            Ok::<u8, EdbError>(d@[p as int])
        } else {
            Err(EdbError::Io)
        }),
{
    if p < d.len() {
        Ok(d[p])
    } else {
        Err(EdbError::Io)
    }
}

pub fn read_u16(d: &[u8], p: usize, e: Endian) -> (r: Result<u16, EdbError>)
    ensures
        r == (if fits(d@, p as int, 2) {
            Ok::<u16, EdbError>(u16_at(d@, p as int, e))
        } else {
            Err(EdbError::Io)
        }),
{
    if p >= d.len() || d.len() - p < 2 {
        return Err(EdbError::Io);
    }
    let (b0, b1) = match e {
        Endian::Little => (d[p], d[p + 1]),
        Endian::Big => (d[p + 1], d[p]),
    };
    Ok((b0 as u32 + b1 as u32 * 0x100) as u16)
}

pub fn read_u32(d: &[u8], p: usize, e: Endian) -> (r: Result<u32, EdbError>)
    ensures
        r == (if fits(d@, p as int, 4) {
            Ok::<u32, EdbError>(u32_at(d@, p as int, e))
        } else {
            Err(EdbError::Io)
        }),
{
    if p >= d.len() || d.len() - p < 4 {
        return Err(EdbError::Io);
    }
    let (b0, b1, b2, b3) = match e {
        Endian::Little => (d[p], d[p + 1], d[p + 2], d[p + 3]),
        Endian::Big => (d[p + 3], d[p + 2], d[p + 1], d[p]),
    };
    Ok(b0 as u32 + b1 as u32 * 0x100 + b2 as u32 * 0x1_0000 + b3 as u32 * 0x100_0000)
}

pub fn read_i32(d: &[u8], p: usize, e: Endian) -> (r: Result<i32, EdbError>)
    ensures
        r == (if fits(d@, p as int, 4) {
            Ok::<i32, EdbError>(i32_at(d@, p as int, e))
        } else {
            Err(EdbError::Io)
        }),
{
    let v = read_u32(d, p, e)?;
    Ok(v as i32)
}

/// Reads `n` consecutive 32-bit words starting at `p`.
pub fn read_u32s(d: &[u8], p: usize, n: usize, e: Endian) -> (r: Result<Vec<u32>, EdbError>)
    ensures
        match r {
            Ok(v) => fits(d@, p as int, 4 * n) && v@ == u32s_at(d@, p as int, n as int, e),
            Err(x) => !fits(d@, p as int, 4 * n) && x == EdbError::Io,
        },
{
    if n > (d.len() / 4) || !spans(d, p, 4 * n) {
        return Err(EdbError::Io);
    }
    let mut v: Vec<u32> = Vec::new();
    let mut i: usize = 0;
    while i < n
        invariant
            i <= n,
            fits(d@, p as int, 4 * n),
            p + 4 * n <= d.len(),
            v@ == u32s_at(d@, p as int, i as int, e),
        decreases n - i,
    {
        let w = read_u32(d, p + 4 * i, e)?;
        v.push(w);
        i += 1;
        assert(v@ =~= u32s_at(d@, p as int, i as int, e));
    }
    Ok(v)
}

/// Resolves the relative pointer stored at `field` to an absolute offset.
pub fn read_ptr(d: &[u8], field: usize, e: Endian) -> (r: Result<Option<usize>, EdbError>)
    ensures
        match r {
            Ok(Some(t)) => ptr_at(d@, field as int, e) == Ok::<Option<int>, EdbError>(Some(t as int)),
            Ok(None) => ptr_at(d@, field as int, e) == Ok::<Option<int>, EdbError>(None),
            Err(x) => ptr_at(d@, field as int, e) == Err::<Option<int>, EdbError>(x),
        },
{
    let delta = read_i32(d, field, e)?;
    if delta == 0 {
        return Ok(None);
    }
    if delta > 0 {
        let f = delta as usize;
        if f <= d.len() - field {
            Ok(Some(field + f))
        } else {
            Err(EdbError::Malformed)
        }
    } else {
        let back = (0 - (delta as i64)) as u64;
        if back <= field as u64 {
            Ok(Some(field - back as usize))
        } else {
            Err(EdbError::Malformed)
        }
    }
}

/// Resolves a relative pointer that must not be null.
pub fn read_req_ptr(d: &[u8], field: usize, e: Endian) -> (r: Result<usize, EdbError>)
    ensures
        match r {
            Ok(t) => req_ptr_at(d@, field as int, e) == Ok::<int, EdbError>(t as int),
            Err(x) => req_ptr_at(d@, field as int, e) == Err::<int, EdbError>(x),
        },
{
    match read_ptr(d, field, e)? {
        Some(t) => Ok(t),
        None => Err(EdbError::Malformed),
    }
}

} // verus!

//! The file header: byte-order probe, format version, the reference-pointer
//! table and the section directories.
use vstd::prelude::*;
use crate::bytes::{
    endian_of, fits, probe_endian, read_u32, u32_at, EdbError, Endian,
};

verus! {

/// Lowest format version with a known layout.
pub const MIN_VERSION: u32 = 240;

/// Highest format version with a known layout.
pub const MAX_VERSION: u32 = 263;

/// Offset of the version word.
pub const VERSION_AT: usize = 4;

/// Offset of the first list of the header (the reference-pointer table).
pub const LISTS_AT: usize = 8;

/// Size of one directory entry on disk.
pub const DIR_ENTRY_SIZE: usize = 12;

/// Size of one reference pointer on disk.
pub const REFPTR_SIZE: usize = 4;

pub open spec fn supported_version(v: u32) -> bool {
    MIN_VERSION <= v && v <= MAX_VERSION
}

/// One record of a section: its hashcode and where it starts in the file.
#[derive(Clone, Copy, Debug, PartialEq, Eq, Structural)]
pub struct DirectoryEntry {
    pub hashcode: u32,
    pub address: u32,
    pub flags: u32,
}

/// One slot of the file-wide table of records referred to by index.
#[derive(Clone, Copy, Debug, PartialEq, Eq, Structural)]
pub struct RefPointer {
    pub address: u32,
}

pub struct Header {
    pub endian: Endian,
    pub version: u32,
    pub refpointer_list: Vec<RefPointer>,
    pub entity_list: Vec<DirectoryEntry>,
    pub map_list: Vec<DirectoryEntry>,
    pub texture_list: Vec<DirectoryEntry>,
    pub spreadsheet_list: Vec<DirectoryEntry>,
}

/// What a `Header` holds, with its lists as sequences.
pub struct HeaderModel {
    pub endian: Endian,
    pub version: u32,
    pub refpointer_list: Seq<RefPointer>,
    pub entity_list: Seq<DirectoryEntry>,
    pub map_list: Seq<DirectoryEntry>,
    pub texture_list: Seq<DirectoryEntry>,
    pub spreadsheet_list: Seq<DirectoryEntry>,
}

impl View for Header {
    type V = HeaderModel;

    open spec fn view(&self) -> HeaderModel {
        HeaderModel {
            endian: self.endian,
            version: self.version,
            refpointer_list: self.refpointer_list@,
            entity_list: self.entity_list@,
            map_list: self.map_list@,
            texture_list: self.texture_list@,
            spreadsheet_list: self.spreadsheet_list@,
        }
    }
}

pub open spec fn dir_entry_at(d: Seq<u8>, p: int, e: Endian) -> DirectoryEntry {
    DirectoryEntry {
        hashcode: u32_at(d, p, e),
        address: u32_at(d, p + 4, e),
        flags: u32_at(d, p + 8, e),
    }
}

/// `n` directory entries starting at `p`.
pub open spec fn dir_entries_at(d: Seq<u8>, p: int, n: int, e: Endian) -> Seq<DirectoryEntry> {
    Seq::new(n as nat, |i: int| dir_entry_at(d, p + DIR_ENTRY_SIZE * i, e))
}

/// `n` reference pointers starting at `p`.
pub open spec fn refptrs_at(d: Seq<u8>, p: int, n: int, e: Endian) -> Seq<RefPointer> {
    Seq::new(n as nat, |i: int| RefPointer { address: u32_at(d, p + REFPTR_SIZE * i, e) })
}

/// A directory list at `p`: a count, then that many entries. Gives the
/// entries and the offset just past them.
pub open spec fn dir_list_at(d: Seq<u8>, p: int, e: Endian) -> Result<(Seq<DirectoryEntry>, int), EdbError> {
    if !fits(d, p, 4) {
        Err(EdbError::Io)
    } else {
        let n = u32_at(d, p, e) as int;
        if !fits(d, p + 4, DIR_ENTRY_SIZE * n) {
            Err(EdbError::Io)
        } else {
            let s = dir_entries_at(d, p + 4, n, e);
            if exists|i: int| 0 <= i < n && s[i].address >= d.len() {
                Err(EdbError::Malformed)
            } else {
                Ok((s, p + 4 + DIR_ENTRY_SIZE * n))
            }
        }
    }
}

/// The reference-pointer table at `p`: a count, then that many addresses.
pub open spec fn refptr_list_at(d: Seq<u8>, p: int, e: Endian) -> Result<(Seq<RefPointer>, int), EdbError> {
    if !fits(d, p, 4) {
        Err(EdbError::Io)
    } else {
        let n = u32_at(d, p, e) as int;
        if !fits(d, p + 4, REFPTR_SIZE * n) {
            Err(EdbError::Io)
        } else {
            let s = refptrs_at(d, p + 4, n, e);
            if exists|i: int| 0 <= i < n && s[i].address >= d.len() {
                Err(EdbError::Malformed)
            } else {
                Ok((s, p + 4 + REFPTR_SIZE * n))
            }
        }
    }
}

/// The header of a file: byte order from the first byte, the version word,
/// then the reference-pointer table and the entity, map, texture and
/// spreadsheet directories, one after another.
pub open spec fn header_of(d: Seq<u8>) -> Result<HeaderModel, EdbError> {
    let e = endian_of(d);
    if !fits(d, 0, LISTS_AT as int) {
        Err(EdbError::Io)
    } else if !supported_version(u32_at(d, VERSION_AT as int, e)) {
        Err(EdbError::UnsupportedVersion)
    } else {
        match refptr_list_at(d, LISTS_AT as int, e) {
            Err(x) => Err(x),
            Ok((refs, at_ents)) => match dir_list_at(d, at_ents, e) {
                Err(x) => Err(x),
                Ok((ents, at_maps)) => match dir_list_at(d, at_maps, e) {
                    Err(x) => Err(x),
                    Ok((maps, at_texs)) => match dir_list_at(d, at_texs, e) {
                        Err(x) => Err(x),
                        Ok((texs, at_sheets)) => match dir_list_at(d, at_sheets, e) {
                            Err(x) => Err(x),
                            Ok((sheets, _end)) => Ok(
                                HeaderModel {
                                    endian: e,
                                    version: u32_at(d, VERSION_AT as int, e),
                                    refpointer_list: refs,
                                    entity_list: ents,
                                    map_list: maps,
                                    texture_list: texs,
                                    spreadsheet_list: sheets,
                                },
                            ),
                        },
                    },
                },
            },
        }
    }
}

/// Every address that a header's directories and table hold.
pub open spec fn all_addresses_below(h: HeaderModel, len: int) -> bool {
    &&& forall|i: int| 0 <= i < h.refpointer_list.len() ==> h.refpointer_list[i].address < len
    &&& forall|i: int| 0 <= i < h.entity_list.len() ==> h.entity_list[i].address < len
    &&& forall|i: int| 0 <= i < h.map_list.len() ==> h.map_list[i].address < len
    &&& forall|i: int| 0 <= i < h.texture_list.len() ==> h.texture_list[i].address < len
    &&& forall|i: int| 0 <= i < h.spreadsheet_list.len() ==> h.spreadsheet_list[i].address < len
}

/// Reads a directory list at `p`.
pub fn read_dir_list(d: &[u8], p: usize, e: Endian) -> (r: Result<(Vec<DirectoryEntry>, usize), EdbError>)
    ensures
        match r {
            Ok((v, q)) => dir_list_at(d@, p as int, e) == Ok::<(Seq<DirectoryEntry>, int), EdbError>((v@, q as int)),
            Err(x) => dir_list_at(d@, p as int, e) == Err::<(Seq<DirectoryEntry>, int), EdbError>(x),
        },
{
    let n = match read_u32(d, p, e) {
        Ok(n) => n as usize,
        Err(x) => return Err(x),
    };
    let len = d.len();
    assert(fits(d@, p as int, 4));
    let start = p + 4;
    if n > d.len() / DIR_ENTRY_SIZE || DIR_ENTRY_SIZE * n > d.len() - start {
        return Err(EdbError::Io);
    }
    let ghost s = dir_entries_at(d@, start as int, n as int, e);
    let mut v: Vec<DirectoryEntry> = Vec::new();
    let mut i: usize = 0;
    while i < n
        invariant
            i <= n,
            start == p + 4,
            start + DIR_ENTRY_SIZE * n <= d.len(),
            n == u32_at(d@, p as int, e) as int,
            s == dir_entries_at(d@, start as int, n as int, e),
            v@ == s.take(i as int),
            forall|j: int| 0 <= j < i ==> s[j].address < d.len(),
        decreases n - i,
    {
        let q = start + DIR_ENTRY_SIZE * i;
        let hashcode = read_u32(d, q, e)?;
        let address = read_u32(d, q + 4, e)?;
        let flags = read_u32(d, q + 8, e)?;
        if address as usize >= d.len() {
            assert(s[i as int].address >= d.len());
            return Err(EdbError::Malformed);
        }
        v.push(DirectoryEntry { hashcode, address, flags });
        i += 1;
        assert(v@ =~= s.take(i as int));
    }
    assert(v@ =~= s);
    Ok((v, start + DIR_ENTRY_SIZE * n))
}

/// Reads the reference-pointer table at `p`.
pub fn read_refptr_list(d: &[u8], p: usize, e: Endian) -> (r: Result<(Vec<RefPointer>, usize), EdbError>)
    ensures
        match r {
            Ok((v, q)) => refptr_list_at(d@, p as int, e) == Ok::<(Seq<RefPointer>, int), EdbError>((v@, q as int)),
            Err(x) => refptr_list_at(d@, p as int, e) == Err::<(Seq<RefPointer>, int), EdbError>(x),
        },
{
    let n = match read_u32(d, p, e) {
        Ok(n) => n as usize,
        Err(x) => return Err(x),
    };
    let len = d.len();
    assert(fits(d@, p as int, 4));
    let start = p + 4;
    if n > d.len() / REFPTR_SIZE || REFPTR_SIZE * n > d.len() - start {
        return Err(EdbError::Io);
    }
    let ghost s = refptrs_at(d@, start as int, n as int, e);
    let mut v: Vec<RefPointer> = Vec::new();
    let mut i: usize = 0;
    while i < n
        invariant
            i <= n,
            start == p + 4,
            start + REFPTR_SIZE * n <= d.len(),
            n == u32_at(d@, p as int, e) as int,
            s == refptrs_at(d@, start as int, n as int, e),
            v@ == s.take(i as int),
            forall|j: int| 0 <= j < i ==> s[j].address < d.len(),
        decreases n - i,
    {
        let address = read_u32(d, start + REFPTR_SIZE * i, e)?;
        if address as usize >= d.len() {
            assert(s[i as int].address >= d.len());
            return Err(EdbError::Malformed);
        }
        v.push(RefPointer { address });
        i += 1;
        assert(v@ =~= s.take(i as int));
    }
    assert(v@ =~= s);
    Ok((v, start + REFPTR_SIZE * n))
}

/// Decodes the header of a file.
pub fn read_header(d: &[u8]) -> (r: Result<Header, EdbError>)
    ensures
        match r {
            Ok(h) => header_of(d@) == Ok::<HeaderModel, EdbError>(h@),
            Err(x) => header_of(d@) == Err::<HeaderModel, EdbError>(x),
        },
{
    let e = probe_endian(d);
    if d.len() < LISTS_AT {
        return Err(EdbError::Io);
    }
    let version = read_u32(d, VERSION_AT, e)?;
    if version < MIN_VERSION || version > MAX_VERSION {
        return Err(EdbError::UnsupportedVersion);
    }
    let (refpointer_list, at_ents) = read_refptr_list(d, LISTS_AT, e)?;
    let (entity_list, at_maps) = read_dir_list(d, at_ents, e)?;
    let (map_list, at_texs) = read_dir_list(d, at_maps, e)?;
    let (texture_list, at_sheets) = read_dir_list(d, at_texs, e)?;
    let (spreadsheet_list, _end) = read_dir_list(d, at_sheets, e)?;
    let h = Header { endian: e, version, refpointer_list, entity_list, map_list, texture_list, spreadsheet_list };
    assert(header_of(d@) == Ok::<HeaderModel, EdbError>(h@));
    Ok(h)
}

/// A decoded header's byte order is big exactly when the file's first byte
/// is the big-endian mark.
pub proof fn lemma_endian_probe(d: Seq<u8>)
    requires
        header_of(d) is Ok,
    ensures
        header_of(d)->Ok_0.endian == (if d[0] == crate::bytes::BIG_ENDIAN_MARK { Endian::Big } else { Endian::Little }),
{
}

/// Every address in a decoded header's directories and table lies strictly
/// inside the file.
pub proof fn lemma_directory_bounds(d: Seq<u8>)
    requires
        header_of(d) is Ok,
    ensures
        all_addresses_below(header_of(d)->Ok_0, d.len() as int),
{
    let e = endian_of(d);
    let (refs, at_ents) = refptr_list_at(d, LISTS_AT as int, e)->Ok_0;
    let (ents, at_maps) = dir_list_at(d, at_ents, e)->Ok_0;
    let (maps, at_texs) = dir_list_at(d, at_maps, e)->Ok_0;
    let (texs, at_sheets) = dir_list_at(d, at_texs, e)->Ok_0;
    assert(refptr_list_at(d, LISTS_AT as int, e) is Ok);
    lemma_dir_list_bounded(d, at_ents, e);
    lemma_dir_list_bounded(d, at_maps, e);
    lemma_dir_list_bounded(d, at_texs, e);
    lemma_dir_list_bounded(d, at_sheets, e);
}

proof fn lemma_dir_list_bounded(d: Seq<u8>, p: int, e: Endian)
    ensures
        dir_list_at(d, p, e) is Ok ==> forall|i: int| 0 <= i < dir_list_at(d, p, e)->Ok_0.0.len()
            ==> #[trigger] dir_list_at(d, p, e)->Ok_0.0[i].address < d.len(),
{
}

} // verus!

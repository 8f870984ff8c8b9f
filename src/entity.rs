//! Entity records: the base record, its normal (single mesh) and split
//! (several meshes) payloads, and map-zone entities.
use vstd::prelude::*;
use crate::bytes::{
    fits, read_i32, read_req_ptr, read_u16, read_u32, req_ptr_at, i32_at, u16_at,
    u32_at, EdbError, Endian,
};
use crate::header::{DirectoryEntry, Header};

verus! {

/// Object type of an entity that carries one mesh.
pub const OBJECT_NORMAL: u16 = 1537;

/// Object type of an entity made of several child meshes.
pub const OBJECT_SPLIT: u16 = 1538;

/// Object type of a map-zone entity.
pub const OBJECT_MAPZONE: u16 = 1539;

/// Target platform of a file.
#[derive(Clone, Copy, Debug, PartialEq, Eq, Structural)]
pub enum Platform {
    Pc,
    Xbox,
    GameCube,
    Wii,
    Ps2,
}

/// The platforms for which meshes can be assembled.
pub open spec fn mesh_platform(p: Platform) -> bool {
    p == Platform::Pc || p == Platform::Xbox
}

/// Where one mesh's vertex, index and strip tables are, and their sizes.
#[derive(Clone, Copy, Debug, PartialEq, Eq, Structural)]
pub struct NormalEntity {
    pub vertex_count: u32,
    pub vertex_data: usize,
    pub index_count: u32,
    pub index_data: usize,
    pub tristrip_count: u32,
    pub tristrip_data: usize,
}

/// The payload of a map-zone entity: the slot of the reference-pointer table
/// that names the zone's entity.
#[derive(Clone, Copy, Debug, PartialEq, Eq, Structural)]
pub struct MapZoneEntity {
    pub entity_refptr: u32,
}

/// The fields that every entity record starts with.
#[derive(Clone, Copy, Debug, PartialEq, Eq, Structural)]
pub struct EntityInfo {
    pub object_type: u16,
    pub flags: u32,
    pub sort_value: i32,
}

/// A decoded entity record.
pub enum Entity {
    Normal(EntityInfo, NormalEntity),
    /// The children's meshes, in order.
    Split(EntityInfo, Vec<NormalEntity>),
    MapZone(EntityInfo, MapZoneEntity),
    Other(EntityInfo),
}

pub enum EntityModel {
    Normal(EntityInfo, NormalEntity),
    Split(EntityInfo, Seq<NormalEntity>),
    MapZone(EntityInfo, MapZoneEntity),
    Other(EntityInfo),
}

impl View for Entity {
    type V = EntityModel;

    open spec fn view(&self) -> EntityModel {
        match self {
            Entity::Normal(i, n) => EntityModel::Normal(*i, *n),
            Entity::Split(i, c) => EntityModel::Split(*i, c@),
            Entity::MapZone(i, z) => EntityModel::MapZone(*i, *z),
            Entity::Other(i) => EntityModel::Other(*i),
        }
    }
}

/// A record of a section with the outcome of decoding it.
pub struct IdentifiableResult<T> {
    pub hashcode: u32,
    pub data: Result<T, EdbError>,
}

/// Size of the base entity record; a map-zone entity's payload follows it.
pub const BASE_ENTITY_SIZE: usize = 20;

pub open spec fn info_at(d: Seq<u8>, a: int, e: Endian) -> EntityInfo {
    EntityInfo {
        object_type: u16_at(d, a, e),
        flags: u32_at(d, a + 4, e),
        sort_value: i32_at(d, a + 8, e),
    }
}

/// The normal entity record at `p`: three (count, pointer) pairs.
pub open spec fn normal_at(d: Seq<u8>, p: int, e: Endian) -> Result<NormalEntity, EdbError> {
    if !fits(d, p, 24) {
        Err(EdbError::Io)
    } else {
        match (req_ptr_at(d, p + 4, e), req_ptr_at(d, p + 12, e), req_ptr_at(d, p + 20, e)) {
            (Err(x), _, _) => Err(x),
            (Ok(_), Err(x), _) => Err(x),
            (Ok(_), Ok(_), Err(x)) => Err(x),
            (Ok(v), Ok(i), Ok(t)) => Ok(
                NormalEntity {
                    vertex_count: u32_at(d, p, e),
                    vertex_data: v as usize,
                    index_count: u32_at(d, p + 8, e),
                    index_data: i as usize,
                    tristrip_count: u32_at(d, p + 16, e),
                    tristrip_data: t as usize,
                },
            ),
        }
    }
}

/// The mesh of the base entity at `a`, reached through its normal pointer.
pub open spec fn child_normal_at(d: Seq<u8>, a: int, e: Endian) -> Result<NormalEntity, EdbError> {
    match req_ptr_at(d, a + 12, e) {
        Err(x) => Err(x),
        Ok(p) => normal_at(d, p, e),
    }
}

/// The meshes of the first `n` children listed by the pointer table at `p`.
pub open spec fn children_at(d: Seq<u8>, p: int, n: nat, e: Endian) -> Result<Seq<NormalEntity>, EdbError>
    decreases n,
{
    if n == 0 {
        Ok(Seq::empty())
    } else {
        match children_at(d, p, (n - 1) as nat, e) {
            Err(x) => Err(x),
            Ok(s) => match req_ptr_at(d, p + 4 * (n - 1), e) {
                Err(x) => Err(x),
                Ok(c) => match child_normal_at(d, c, e) {
                    Err(x) => Err(x),
                    Ok(m) => Ok(s.push(m)),
                },
            },
        }
    }
}

/// The split entity record at `p`: a child count and a pointer to a table of
/// pointers to the child base entities.
pub open spec fn split_at(d: Seq<u8>, p: int, e: Endian) -> Result<Seq<NormalEntity>, EdbError> {
    if !fits(d, p, 8) {
        Err(EdbError::Io)
    } else {
        match req_ptr_at(d, p + 4, e) {
            Err(x) => Err(x),
            Ok(t) => children_at(d, t, u32_at(d, p, e) as nat, e),
        }
    }
}

/// The entity record at `a`.
pub open spec fn entity_at(d: Seq<u8>, a: int, e: Endian) -> Result<EntityModel, EdbError> {
    if !fits(d, a, BASE_ENTITY_SIZE as int) {
        Err(EdbError::Io)
    } else {
        let info = info_at(d, a, e);
        if info.object_type == OBJECT_NORMAL {
            match child_normal_at(d, a, e) {
                Err(x) => Err(x),
                Ok(n) => Ok(EntityModel::Normal(info, n)),
            }
        } else if info.object_type == OBJECT_SPLIT {
            match req_ptr_at(d, a + 16, e) {
                Err(x) => Err(x),
                Ok(p) => match split_at(d, p, e) {
                    Err(x) => Err(x),
                    Ok(c) => Ok(EntityModel::Split(info, c)),
                },
            }
        } else if info.object_type == OBJECT_MAPZONE {
            if !fits(d, a + BASE_ENTITY_SIZE, 4) {
                Err(EdbError::Io)
            } else {
                Ok(EntityModel::MapZone(info, MapZoneEntity { entity_refptr: u32_at(d, a + BASE_ENTITY_SIZE, e) }))
            }
        } else {
            Ok(EntityModel::Other(info))
        }
    }
}

pub open spec fn entity_result_view(r: Result<Entity, EdbError>) -> Result<EntityModel, EdbError> {
    match r {
        Ok(x) => Ok(x@),
        Err(x) => Err(x),
    }
}

pub fn read_normal(d: &[u8], p: usize, e: Endian) -> (r: Result<NormalEntity, EdbError>)
    ensures
        match r {
            Ok(n) => normal_at(d@, p as int, e) == Ok::<NormalEntity, EdbError>(n),
            Err(x) => normal_at(d@, p as int, e) == Err::<NormalEntity, EdbError>(x),
        },
{
    if p >= d.len() || d.len() - p < 24 {
        return Err(EdbError::Io);
    }
    let vertex_data = read_req_ptr(d, p + 4, e)?;
    let index_data = read_req_ptr(d, p + 12, e)?;
    let tristrip_data = read_req_ptr(d, p + 20, e)?;
    let vertex_count = read_u32(d, p, e)?;
    let index_count = read_u32(d, p + 8, e)?;
    let tristrip_count = read_u32(d, p + 16, e)?;
    Ok(NormalEntity { vertex_count, vertex_data, index_count, index_data, tristrip_count, tristrip_data })
}

fn read_child_normal(d: &[u8], a: usize, e: Endian) -> (r: Result<NormalEntity, EdbError>)
    ensures
        match r {
            Ok(n) => child_normal_at(d@, a as int, e) == Ok::<NormalEntity, EdbError>(n),
            Err(x) => child_normal_at(d@, a as int, e) == Err::<NormalEntity, EdbError>(x),
        },
{
    if a > d.len() || d.len() - a < 12 {
        proof {
            assert(!fits(d@, a + 12, 4));
        }
        return Err(EdbError::Io);
    }
    let p = read_req_ptr(d, a + 12, e)?;
    read_normal(d, p, e)
}

fn read_split(d: &[u8], p: usize, e: Endian) -> (r: Result<Vec<NormalEntity>, EdbError>)
    ensures
        match r {
            Ok(c) => split_at(d@, p as int, e) == Ok::<Seq<NormalEntity>, EdbError>(c@),
            Err(x) => split_at(d@, p as int, e) == Err::<Seq<NormalEntity>, EdbError>(x),
        },
{
    if p >= d.len() || d.len() - p < 8 {
        return Err(EdbError::Io);
    }
    let t = read_req_ptr(d, p + 4, e)?;
    let n = read_u32(d, p, e)?;
    let mut v: Vec<NormalEntity> = Vec::new();
    let mut i: u32 = 0;
    while i < n
        invariant
            i <= n,
            t <= d.len(),
            children_at(d@, t as int, i as nat, e) == Ok::<Seq<NormalEntity>, EdbError>(v@),
            split_at(d@, p as int, e) == children_at(d@, t as int, n as nat, e),
        decreases n - i,
    {
        proof {
            lemma_children_err_sticks(d@, t as int, i as nat, n as nat, e);
        }
        if (i as usize) > d.len() / 4 || 4 * (i as usize) > d.len() - t || d.len() - t - 4 * (i as usize) < 4 {
            proof {
                assert(!fits(d@, t + 4 * i, 4));
                assert(children_at(d@, t as int, (i + 1) as nat, e) == Err::<Seq<NormalEntity>, EdbError>(EdbError::Io));
            }
            return Err(EdbError::Io);
        }
        let c = read_req_ptr(d, t + 4 * (i as usize), e)?;
        let m = read_child_normal(d, c, e)?;
        v.push(m);
        i += 1;
    }
    Ok(v)
}

/// Once the first `i` children fail to decode, so do the first `n`.
proof fn lemma_children_err_sticks(d: Seq<u8>, p: int, i: nat, n: nat, e: Endian)
    requires
        i < n,
    ensures
        children_at(d, p, (i + 1) as nat, e) is Err ==> children_at(d, p, n, e) == children_at(d, p, (i + 1) as nat, e),
    decreases n - i,
{
    if i + 1 < n {
        lemma_children_err_sticks(d, p, (i + 1) as nat, n, e);
    }
}

/// Decodes the entity record at `a`.
pub fn read_entity(d: &[u8], a: usize, e: Endian) -> (r: Result<Entity, EdbError>)
    ensures
        entity_result_view(r) == entity_at(d@, a as int, e),
{
    if a >= d.len() || d.len() - a < BASE_ENTITY_SIZE {
        return Err(EdbError::Io);
    }
    let object_type = read_u16(d, a, e)?;
    let flags = read_u32(d, a + 4, e)?;
    let sort_value = read_i32(d, a + 8, e)?;
    let info = EntityInfo { object_type, flags, sort_value };
    if object_type == OBJECT_NORMAL {
        let n = read_child_normal(d, a, e)?;
        Ok(Entity::Normal(info, n))
    } else if object_type == OBJECT_SPLIT {
        let p = read_req_ptr(d, a + 16, e)?;
        let c = read_split(d, p, e)?;
        Ok(Entity::Split(info, c))
    } else if object_type == OBJECT_MAPZONE {
        let entity_refptr = read_u32(d, a + BASE_ENTITY_SIZE, e)?;
        Ok(Entity::MapZone(info, MapZoneEntity { entity_refptr }))
    } else {
        Ok(Entity::Other(info))
    }
}

/// Decodes the entity record of each entry of `list`, in order; one record
/// that fails leaves the others untouched.
pub fn read_entity_list(d: &[u8], list: &Vec<DirectoryEntry>, e: Endian) -> (r: Vec<IdentifiableResult<Entity>>)
    ensures
        r.len() == list.len(),
        forall|i: int| 0 <= i < list.len() ==> {
            &&& (#[trigger] r[i]).hashcode == list[i].hashcode
            &&& entity_result_view(r[i].data) == entity_at(d@, list[i].address as int, e)
        },
{
    let mut r: Vec<IdentifiableResult<Entity>> = Vec::new();
    let mut i: usize = 0;
    while i < list.len()
        invariant
            i <= list.len(),
            r.len() == i,
            forall|j: int| 0 <= j < i ==> {
                &&& (#[trigger] r[j]).hashcode == list[j].hashcode
                &&& entity_result_view(r[j].data) == entity_at(d@, list[j].address as int, e)
            },
        decreases list.len() - i,
    {
        let entry = list[i];
        let data = read_entity(d, entry.address as usize, e);
        r.push(IdentifiableResult { hashcode: entry.hashcode, data });
        i += 1;
    }
    r
}

/// Decodes every record of the entity directory of a header. Entities are
/// read only for the platforms whose meshes can be assembled.
pub fn decode_entities(d: &[u8], h: &Header, platform: Platform) -> (r: Result<Vec<IdentifiableResult<Entity>>, EdbError>)
    ensures
        !mesh_platform(platform) ==> r is Err && r->Err_0 == EdbError::UnsupportedPlatform,
        mesh_platform(platform) ==> r is Ok && {
            let v = r->Ok_0;
            &&& v.len() == h.entity_list.len()
            &&& forall|i: int| 0 <= i < v.len() ==> {
                &&& (#[trigger] v[i]).hashcode == h.entity_list[i].hashcode
                &&& entity_result_view(v[i].data) == entity_at(d@, h.entity_list[i].address as int, h.endian)
            }
        },
{
    match platform {
        Platform::Pc | Platform::Xbox => Ok(read_entity_list(d, &h.entity_list, h.endian)),
        _ => Err(EdbError::UnsupportedPlatform),
    }
}

} // verus!

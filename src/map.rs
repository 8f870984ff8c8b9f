//! Maps: placements, collision data, map zones reached through the
//! reference-pointer table, and triggers with their link graph.
use vstd::prelude::*;
use crate::bytes::{
    fits, i32_at, ptr_at, read_i32, read_ptr, read_u16, read_u32, read_u32s, u16_at, u32_at,
    u32s_at, EdbError, Endian,
};
use crate::entity::{entity_at, read_entity, Entity, EntityModel, IdentifiableResult, MapZoneEntity, Platform};
use crate::header::{header_of, read_header, Header, RefPointer};
use crate::mesh::{vec3_at, Vec3Bits};

verus! {

/// An instance of an entity placed in a map.
#[derive(Clone, Copy, Debug, PartialEq, Eq, Structural)]
pub struct Placement {
    pub position: Vec3Bits,
    pub rotation: Vec3Bits,
    pub scale: Vec3Bits,
    pub object_ref: u32,
}

/// A collision record of a map's triggers.
#[derive(Clone, Copy, Debug, PartialEq, Eq, Structural)]
pub struct BaseDatum {
    pub dtype: u16,
    pub flags: u16,
    pub hashcode: u32,
    pub position: Vec3Bits,
}

/// The type and raw subtype that trigger records refer to by index.
#[derive(Clone, Copy, Debug, PartialEq, Eq, Structural)]
pub struct TriggerType {
    pub trig_type: u32,
    pub trig_subtype: u32,
}

pub const PLACEMENT_SIZE: usize = 40;
pub const DATUM_SIZE: usize = 20;
pub const TRIGGER_TYPE_SIZE: usize = 8;
pub const TRIGGER_SIZE: usize = 200;
pub const MAP_SIZE: usize = 40;

/// Number of data slots, link slots and engine data slots of a trigger.
pub const DATA_SLOTS: usize = 16;
pub const LINK_SLOTS: usize = 16;
pub const ENGINE_SLOTS: usize = 4;

/// Offsets of those slots in a trigger record.
pub const DATA_AT: usize = 56;
pub const LINKS_AT: usize = 120;
pub const ENGINE_AT: usize = 184;

/// The value of a data slot that holds nothing.
pub const EMPTY_SLOT: u32 = 0xFFFF_FFFF;

/// Raw subtypes that mean "no subtype".
pub const NO_SUBTYPE: u32 = 0;
pub const NO_SUBTYPE_ALT: u32 = 0x4200_0001;

pub open spec fn placement_at(d: Seq<u8>, p: int, e: Endian) -> Placement {
    Placement {
        position: vec3_at(d, p, e),
        rotation: vec3_at(d, p + 12, e),
        scale: vec3_at(d, p + 24, e),
        object_ref: u32_at(d, p + 36, e),
    }
}

pub open spec fn datum_at(d: Seq<u8>, p: int, e: Endian) -> BaseDatum {
    BaseDatum { dtype: u16_at(d, p, e), flags: u16_at(d, p + 2, e), hashcode: u32_at(d, p + 4, e), position: vec3_at(d, p + 8, e) }
}

pub open spec fn trigger_type_at(d: Seq<u8>, p: int, e: Endian) -> TriggerType {
    TriggerType { trig_type: u32_at(d, p, e), trig_subtype: u32_at(d, p + 4, e) }
}

/// A table of a map record at `field`: a count and a pointer to the first
/// element. The pointer may be null only when the count is zero. Gives the
/// table's start and count.
pub open spec fn table_at(d: Seq<u8>, field: int, e: Endian) -> Result<(int, int), EdbError> {
    if !fits(d, field, 8) {
        Err(EdbError::Io)
    } else {
        match ptr_at(d, field + 4, e) {
            Err(x) => Err(x),
            Ok(None) => if u32_at(d, field, e) == 0 {
                Ok((0, 0))
            } else {
                Err(EdbError::Malformed)
            },
            Ok(Some(t)) => Ok((t, u32_at(d, field, e) as int)),
        }
    }
}

pub fn read_table(d: &[u8], field: usize, e: Endian) -> (r: Result<(usize, usize), EdbError>)
    ensures
        match r {
            Ok((t, n)) => table_at(d@, field as int, e) == Ok::<(int, int), EdbError>((t as int, n as int)),
            Err(x) => table_at(d@, field as int, e) == Err::<(int, int), EdbError>(x),
        },
{
    if field >= d.len() || d.len() - field < 8 {
        return Err(EdbError::Io);
    }
    let ptr = read_ptr(d, field + 4, e)?;
    let n = read_u32(d, field, e)?;
    match ptr {
        None => if n == 0 {
            Ok((0, 0))
        } else {
            Err(EdbError::Malformed)
        },
        Some(t) => Ok((t, n as usize)),
    }
}

fn read_vec3(d: &[u8], p: usize, e: Endian) -> (r: Vec3Bits)
    requires
        fits(d@, p as int, 12),
    ensures
        r == vec3_at(d@, p as int, e),
{
    let _len = d.len();
    let w = read_u32s(d, p, 3, e);
    match w {
        Ok(w) => {
            assert(w@[0] == u32_at(d@, p as int, e) && w@[1] == u32_at(d@, p + 4, e) && w@[2] == u32_at(d@, p + 8, e));
            Vec3Bits { x: w[0], y: w[1], z: w[2] }
        },
        Err(_) => Vec3Bits { x: 0, y: 0, z: 0 },
    }
}

pub open spec fn placements_at(d: Seq<u8>, p: int, n: int, e: Endian) -> Seq<Placement> {
    Seq::new(n as nat, |i: int| placement_at(d, p + PLACEMENT_SIZE * i, e))
}

pub open spec fn data_at(d: Seq<u8>, p: int, n: int, e: Endian) -> Seq<BaseDatum> {
    Seq::new(n as nat, |i: int| datum_at(d, p + DATUM_SIZE * i, e))
}

pub open spec fn trigger_types_at(d: Seq<u8>, p: int, n: int, e: Endian) -> Seq<TriggerType> {
    Seq::new(n as nat, |i: int| trigger_type_at(d, p + TRIGGER_TYPE_SIZE * i, e))
}

pub fn read_placements(d: &[u8], p: usize, n: usize, e: Endian) -> (r: Result<Vec<Placement>, EdbError>)
    ensures
        match r {
            Ok(x) => fits(d@, p as int, PLACEMENT_SIZE * n) && x@ == placements_at(d@, p as int, n as int, e),
            Err(x) => !fits(d@, p as int, PLACEMENT_SIZE * n) && x == EdbError::Io,
        },
{
    if p > d.len() || n > (d.len() - p) / PLACEMENT_SIZE {
        return Err(EdbError::Io);
    }
    let mut out: Vec<Placement> = Vec::new();
    let mut i: usize = 0;
    while i < n
        invariant
            i <= n,
            p + PLACEMENT_SIZE * n <= d.len(),
            out@ == placements_at(d@, p as int, i as int, e),
        decreases n - i,
    {
        let q = p + PLACEMENT_SIZE * i;
        let position = read_vec3(d, q, e);
        let rotation = read_vec3(d, q + 12, e);
        let scale = read_vec3(d, q + 24, e);
        let object_ref = read_u32(d, q + 36, e)?;
        out.push(Placement { position, rotation, scale, object_ref });
        i += 1;
        assert(out@ =~= placements_at(d@, p as int, i as int, e));
    }
    Ok(out)
}

pub fn read_data(d: &[u8], p: usize, n: usize, e: Endian) -> (r: Result<Vec<BaseDatum>, EdbError>)
    ensures
        match r {
            Ok(x) => fits(d@, p as int, DATUM_SIZE * n) && x@ == data_at(d@, p as int, n as int, e),
            Err(x) => !fits(d@, p as int, DATUM_SIZE * n) && x == EdbError::Io,
        },
{
    if p > d.len() || n > (d.len() - p) / DATUM_SIZE {
        return Err(EdbError::Io);
    }
    let mut out: Vec<BaseDatum> = Vec::new();
    let mut i: usize = 0;
    while i < n
        invariant
            i <= n,
            p + DATUM_SIZE * n <= d.len(),
            out@ == data_at(d@, p as int, i as int, e),
        decreases n - i,
    {
        let q = p + DATUM_SIZE * i;
        let dtype = read_u16(d, q, e)?;
        let flags = read_u16(d, q + 2, e)?;
        let hashcode = read_u32(d, q + 4, e)?;
        let position = read_vec3(d, q + 8, e);
        out.push(BaseDatum { dtype, flags, hashcode, position });
        i += 1;
        assert(out@ =~= data_at(d@, p as int, i as int, e));
    }
    Ok(out)
}

pub fn read_trigger_types(d: &[u8], p: usize, n: usize, e: Endian) -> (r: Result<Vec<TriggerType>, EdbError>)
    ensures
        match r {
            Ok(x) => fits(d@, p as int, TRIGGER_TYPE_SIZE * n) && x@ == trigger_types_at(d@, p as int, n as int, e),
            Err(x) => !fits(d@, p as int, TRIGGER_TYPE_SIZE * n) && x == EdbError::Io,
        },
{
    if p > d.len() || n > (d.len() - p) / TRIGGER_TYPE_SIZE {
        return Err(EdbError::Io);
    }
    let mut out: Vec<TriggerType> = Vec::new();
    let mut i: usize = 0;
    while i < n
        invariant
            i <= n,
            p + TRIGGER_TYPE_SIZE * n <= d.len(),
            out@ == trigger_types_at(d@, p as int, i as int, e),
        decreases n - i,
    {
        let q = p + TRIGGER_TYPE_SIZE * i;
        let trig_type = read_u32(d, q, e)?;
        let trig_subtype = read_u32(d, q + 4, e)?;
        out.push(TriggerType { trig_type, trig_subtype });
        i += 1;
        assert(out@ =~= trigger_types_at(d@, p as int, i as int, e));
    }
    Ok(out)
}

/// A trigger of an assembled map.
pub struct ProcessedTrigger {
    pub link_ref: i32,
    pub ttype: u32,
    pub tsubtype: Option<u32>,
    pub debug: u16,
    pub game_flags: u32,
    pub trig_flags: u32,
    pub position: Vec3Bits,
    pub rotation: Vec3Bits,
    pub scale: Vec3Bits,
    pub data: Vec<Option<u32>>,
    pub links: Vec<i32>,
    pub engine_data: Vec<Option<u32>>,
    /// Every trigger of the map that links to this one.
    pub incoming_links: Vec<i32>,
}

pub struct TriggerModel {
    pub link_ref: i32,
    pub ttype: u32,
    pub tsubtype: Option<u32>,
    pub debug: u16,
    pub game_flags: u32,
    pub trig_flags: u32,
    pub position: Vec3Bits,
    pub rotation: Vec3Bits,
    pub scale: Vec3Bits,
    pub data: Seq<Option<u32>>,
    pub links: Seq<i32>,
    pub engine_data: Seq<Option<u32>>,
    pub incoming_links: Seq<i32>,
}

impl View for ProcessedTrigger {
    type V = TriggerModel;

    open spec fn view(&self) -> TriggerModel {
        TriggerModel {
            link_ref: self.link_ref,
            ttype: self.ttype,
            tsubtype: self.tsubtype,
            debug: self.debug,
            game_flags: self.game_flags,
            trig_flags: self.trig_flags,
            position: self.position,
            rotation: self.rotation,
            scale: self.scale,
            data: self.data@,
            links: self.links@,
            engine_data: self.engine_data@,
            incoming_links: self.incoming_links@,
        }
    }
}

/// A data slot holds a value unless it holds the empty marker.
pub open spec fn slot_of(w: u32) -> Option<u32> {
    if w == EMPTY_SLOT {
        None
    } else {
        Some(w)
    }
}

/// A raw subtype of zero or of the alternative marker means no subtype.
pub open spec fn subtype_of(raw: u32) -> Option<u32> {
    if raw == NO_SUBTYPE || raw == NO_SUBTYPE_ALT {
        None
    } else {
        Some(raw)
    }
}

pub open spec fn slots_at(d: Seq<u8>, p: int, n: int, e: Endian) -> Seq<Option<u32>> {
    u32s_at(d, p, n, e).map_values(|w: u32| slot_of(w))
}

pub open spec fn links_at(d: Seq<u8>, p: int, e: Endian) -> Seq<i32> {
    u32s_at(d, p + LINKS_AT, LINK_SLOTS as int, e).map_values(|w: u32| w as i32)
}

pub open spec fn type_index_at(d: Seq<u8>, p: int, e: Endian) -> u32 {
    u32_at(d, p + 4, e)
}

/// The type index of the `j`th of the trigger records starting at `p`.
pub open spec fn nth_type_index(d: Seq<u8>, p: int, j: int, e: Endian) -> u32 {
    type_index_at(d, p + TRIGGER_SIZE * j, e)
}

/// The trigger record at `p`, its type looked up in `types`, with the given
/// incoming links.
pub open spec fn trigger_at(d: Seq<u8>, p: int, types: Seq<TriggerType>, incoming: Seq<i32>, e: Endian) -> TriggerModel {
    let t = types[type_index_at(d, p, e) as int];
    TriggerModel {
        link_ref: i32_at(d, p, e),
        ttype: t.trig_type,
        tsubtype: subtype_of(t.trig_subtype),
        debug: u16_at(d, p + 8, e),
        game_flags: u32_at(d, p + 12, e),
        trig_flags: u32_at(d, p + 16, e),
        position: vec3_at(d, p + 20, e),
        rotation: vec3_at(d, p + 32, e),
        scale: vec3_at(d, p + 44, e),
        data: slots_at(d, p + DATA_AT, DATA_SLOTS as int, e),
        links: links_at(d, p, e),
        engine_data: slots_at(d, p + ENGINE_AT, ENGINE_SLOTS as int, e),
        incoming_links: incoming,
    }
}

/// The triggers among the first `n` whose links name trigger `i`, other
/// than `i` itself, in order.
pub open spec fn incoming_upto(links: Seq<Seq<i32>>, i: int, n: int) -> Seq<i32>
    decreases n,
{
    if n <= 0 {
        Seq::empty()
    } else if n - 1 != i && links[n - 1].contains(i as i32) {
        incoming_upto(links, i, n - 1).push((n - 1) as i32)
    } else {
        incoming_upto(links, i, n - 1)
    }
}

/// The link table of `n` trigger records starting at `p`.
pub open spec fn trigger_links_at(d: Seq<u8>, p: int, n: int, e: Endian) -> Seq<Seq<i32>> {
    Seq::new(n as nat, |j: int| links_at(d, p + TRIGGER_SIZE * j, e))
}

/// `n` trigger records starting at `p`, each with the triggers that link to it.
pub open spec fn triggers_at(d: Seq<u8>, p: int, n: int, types: Seq<TriggerType>, e: Endian) -> Result<Seq<TriggerModel>, EdbError> {
    if exists|j: int| 0 <= j < n && #[trigger] nth_type_index(d, p, j, e) >= types.len() {
        Err(EdbError::Malformed)
    } else {
        Ok(
            Seq::new(
                n as nat,
                |j: int| trigger_at(d, p + TRIGGER_SIZE * j, types, incoming_upto(trigger_links_at(d, p, n, e), j, n), e),
            ),
        )
    }
}

pub open spec fn link_views(v: Seq<Vec<i32>>) -> Seq<Seq<i32>> {
    v.map_values(|l: Vec<i32>| l@)
}

pub open spec fn trigger_views(v: Seq<ProcessedTrigger>) -> Seq<TriggerModel> {
    v.map_values(|t: ProcessedTrigger| t@)
}

/// Whether `l` holds `x`.
pub fn has_link(l: &Vec<i32>, x: i32) -> (r: bool)
    ensures
        r == l@.contains(x),
{
    let mut k: usize = 0;
    while k < l.len()
        invariant
            k <= l.len(),
            forall|m: int| 0 <= m < k ==> l@[m] != x,
        decreases l.len() - k,
    {
        if l[k] == x {
            return true;
        }
        k += 1;
    }
    false
}

/// The triggers whose links name trigger `i`, other than `i` itself, in order.
pub fn incoming_of(links: &Vec<Vec<i32>>, i: usize) -> (r: Vec<i32>)
    ensures
        r@ == incoming_upto(link_views(links@), i as int, links.len() as int),
{
    let ghost ls = link_views(links@);
    let mut r: Vec<i32> = Vec::new();
    let mut j: usize = 0;
    while j < links.len()
        invariant
            j <= links.len(),
            ls == link_views(links@),
            r@ == incoming_upto(ls, i as int, j as int),
        decreases links.len() - j,
    {
        if j != i && has_link(&links[j], i as i32) {
            r.push(j as i32);
        }
        j += 1;
    }
    r
}

/// Trigger `j` is among the incoming links of trigger `i` exactly when `j`
/// is not `i` and the links of `j` name `i`.
pub proof fn lemma_back_edges(links: Seq<Seq<i32>>, i: int, j: int)
    requires
        links.len() <= i32::MAX + 1,
        0 <= i < links.len(),
        0 <= j < links.len(),
    ensures
        incoming_upto(links, i, links.len() as int).contains(j as i32) <==> (j != i && links[j].contains(i as i32)),
{
    lemma_incoming_upto(links, i, j, links.len() as int);
}

proof fn lemma_incoming_upto(links: Seq<Seq<i32>>, i: int, j: int, n: int)
    requires
        n <= links.len() <= i32::MAX + 1,
        0 <= j < links.len(),
        0 <= i,
    ensures
        incoming_upto(links, i, n).contains(j as i32) <==> (j < n && j != i && links[j].contains(i as i32)),
        forall|k: int| 0 <= k < incoming_upto(links, i, n).len() ==> 0 <= #[trigger] incoming_upto(links, i, n)[k] < n,
    decreases n,
{
    if n > 0 {
        lemma_incoming_upto(links, i, j, n - 1);
        let prev = incoming_upto(links, i, n - 1);
        let cur = incoming_upto(links, i, n);
        assert((j as i32) as int == j);
        assert(((n - 1) as i32) as int == n - 1);
        if n - 1 != i && links[n - 1].contains(i as i32) {
            assert(cur == prev.push((n - 1) as i32));
            if j < n - 1 {
                if prev.contains(j as i32) {
                    let k = choose|k: int| 0 <= k < prev.len() && prev[k] == j as i32;
                    assert(cur[k] == prev[k]);
                }
                if cur.contains(j as i32) {
                    let k = choose|k: int| 0 <= k < cur.len() && cur[k] == j as i32;
                    if k < prev.len() {
                        assert(prev[k] == j as i32);
                    }
                }
            }
            if j == n - 1 {
                assert(cur[cur.len() - 1] == j as i32);
            }
            if j >= n {
                if cur.contains(j as i32) {
                    let k = choose|k: int| 0 <= k < cur.len() && cur[k] == j as i32;
                    if k < prev.len() {
                        assert(prev[k] < n - 1);
                    }
                }
            }
            assert forall|k: int| 0 <= k < cur.len() implies 0 <= #[trigger] cur[k] < n by {
                if k < prev.len() {
                    assert(cur[k] == prev[k]);
                }
            }
        } else {
            if j == n - 1 && prev.contains(j as i32) {
                let k = choose|k: int| 0 <= k < prev.len() && prev[k] == j as i32;
                assert(prev[k] < n - 1);
            }
        }
    }
}

fn read_slots(d: &[u8], p: usize, n: usize, e: Endian) -> (r: Vec<Option<u32>>)
    requires
        fits(d@, p as int, 4 * n),
    ensures
        r@ == slots_at(d@, p as int, n as int, e),
{
    let mut r: Vec<Option<u32>> = Vec::new();
    if let Ok(w) = read_u32s(d, p, n, e) {
        let mut k: usize = 0;
        while k < w.len()
            invariant
                k <= w.len(),
                r@ == w@.take(k as int).map_values(|w: u32| slot_of(w)),
            decreases w.len() - k,
        {
            r.push(if w[k] == EMPTY_SLOT { None } else { Some(w[k]) });
            k += 1;
            assert(r@ =~= w@.take(k as int).map_values(|w: u32| slot_of(w)));
        }
        assert(w@.take(w.len() as int) =~= w@);
    }
    r
}

fn read_links(d: &[u8], p: usize, e: Endian) -> (r: Vec<i32>)
    requires
        fits(d@, p as int, TRIGGER_SIZE as int),
    ensures
        r@ == links_at(d@, p as int, e),
{
    let _len = d.len();
    let mut r: Vec<i32> = Vec::new();
    if let Ok(w) = read_u32s(d, p + LINKS_AT, LINK_SLOTS, e) {
        let mut k: usize = 0;
        while k < w.len()
            invariant
                k <= w.len(),
                r@ == w@.take(k as int).map_values(|w: u32| w as i32),
            decreases w.len() - k,
        {
            r.push(w[k] as i32);
            k += 1;
            assert(r@ =~= w@.take(k as int).map_values(|w: u32| w as i32));
        }
        assert(w@.take(w.len() as int) =~= w@);
    }
    r
}

fn read_trigger(d: &[u8], p: usize, types: &Vec<TriggerType>, incoming_links: Vec<i32>, e: Endian) -> (r: ProcessedTrigger)
    requires
        fits(d@, p as int, TRIGGER_SIZE as int),
        type_index_at(d@, p as int, e) < types.len(),
    ensures
        r@ == trigger_at(d@, p as int, types@, incoming_links@, e),
{
    let _len = d.len();
    let t = match read_u32(d, p + 4, e) {
        Ok(k) => types[k as usize],
        Err(_) => TriggerType { trig_type: 0, trig_subtype: 0 },
    };
    let link_ref = match read_i32(d, p, e) {
        Ok(x) => x,
        Err(_) => 0,
    };
    let debug = match read_u16(d, p + 8, e) {
        Ok(x) => x,
        Err(_) => 0,
    };
    let game_flags = match read_u32(d, p + 12, e) {
        Ok(x) => x,
        Err(_) => 0,
    };
    let trig_flags = match read_u32(d, p + 16, e) {
        Ok(x) => x,
        Err(_) => 0,
    };
    let tsubtype = if t.trig_subtype == NO_SUBTYPE || t.trig_subtype == NO_SUBTYPE_ALT {
        None
    } else {
        Some(t.trig_subtype)
    };
    ProcessedTrigger {
        link_ref,
        ttype: t.trig_type,
        tsubtype,
        debug,
        game_flags,
        trig_flags,
        position: read_vec3(d, p + 20, e),
        rotation: read_vec3(d, p + 32, e),
        scale: read_vec3(d, p + 44, e),
        data: read_slots(d, p + DATA_AT, DATA_SLOTS, e),
        links: read_links(d, p, e),
        engine_data: read_slots(d, p + ENGINE_AT, ENGINE_SLOTS, e),
        incoming_links,
    }
}

/// Reads `n` trigger records starting at `p` and links each to the
/// triggers that name it.
pub fn read_triggers(d: &[u8], p: usize, n: usize, types: &Vec<TriggerType>, e: Endian) -> (r: Result<Vec<ProcessedTrigger>, EdbError>)
    ensures
        match r {
            Ok(v) => fits(d@, p as int, TRIGGER_SIZE * n) && triggers_at(d@, p as int, n as int, types@, e)
                == Ok::<Seq<TriggerModel>, EdbError>(trigger_views(v@)),
            Err(x) => if fits(d@, p as int, TRIGGER_SIZE * n) {
                triggers_at(d@, p as int, n as int, types@, e) == Err::<Seq<TriggerModel>, EdbError>(x)
            } else {
                x == EdbError::Io
            },
        },
{
    if p > d.len() || n > (d.len() - p) / TRIGGER_SIZE {
        return Err(EdbError::Io);
    }
    let ghost lt = trigger_links_at(d@, p as int, n as int, e);
    let mut links: Vec<Vec<i32>> = Vec::new();
    let mut i: usize = 0;
    while i < n
        invariant
            i <= n,
            p + TRIGGER_SIZE * n <= d.len(),
            lt == trigger_links_at(d@, p as int, n as int, e),
            link_views(links@) == lt.take(i as int),
            links.len() == i,
            forall|j: int| 0 <= j < i ==> #[trigger] nth_type_index(d@, p as int, j, e) < types.len(),
        decreases n - i,
    {
        let q = p + TRIGGER_SIZE * i;
        let k = read_u32(d, q + 4, e)?;
        if k as usize >= types.len() {
            assert(nth_type_index(d@, p as int, i as int, e) >= types.len());
            return Err(EdbError::Malformed);
        }
        let l = read_links(d, q, e);
        let ghost prev = links@;
        links.push(l);
        proof {
            assert(l@ == lt[i as int]);
            assert forall|j: int| 0 <= j <= i implies #[trigger] link_views(links@)[j] == lt.take(i + 1)[j] by {
                if j < i {
                    assert(links@[j] == prev[j]);
                    assert(link_views(prev)[j] == lt.take(i as int)[j]);
                }
            }
        }
        i += 1;
        assert(link_views(links@) =~= lt.take(i as int));
    }
    assert(lt.take(n as int) =~= lt);
    let ghost full = triggers_at(d@, p as int, n as int, types@, e)->Ok_0;
    let mut out: Vec<ProcessedTrigger> = Vec::new();
    let mut i: usize = 0;
    while i < n
        invariant
            i <= n,
            p + TRIGGER_SIZE * n <= d.len(),
            links.len() == n,
            link_views(links@) == trigger_links_at(d@, p as int, n as int, e),
            forall|j: int| 0 <= j < n ==> #[trigger] nth_type_index(d@, p as int, j, e) < types.len(),
            triggers_at(d@, p as int, n as int, types@, e) == Ok::<Seq<TriggerModel>, EdbError>(full),
            trigger_views(out@) == full.take(i as int),
            out.len() == i,
        decreases n - i,
    {
        let incoming = incoming_of(&links, i);
        assert(nth_type_index(d@, p as int, i as int, e) < types.len());
        let t = read_trigger(d, p + TRIGGER_SIZE * i, types, incoming, e);
        let ghost prev = out@;
        out.push(t);
        proof {
            assert(t@ == full[i as int]);
            assert forall|j: int| 0 <= j <= i implies #[trigger] trigger_views(out@)[j] == full.take(i + 1)[j] by {
                if j < i {
                    assert(out@[j] == prev[j]);
                    assert(trigger_views(prev)[j] == full.take(i as int)[j]);
                }
            }
        }
        i += 1;
        assert(trigger_views(out@) =~= full.take(i as int));
    }
    assert(full.take(n as int) =~= full);
    Ok(out)
}

/// The map-zone entity that slot `z` of the reference-pointer table leads
/// to, if the record there decodes as one.
pub open spec fn zone_entity(d: Seq<u8>, refs: Seq<RefPointer>, z: u32, e: Endian) -> Option<MapZoneEntity> {
    if z >= refs.len() {
        None
    } else {
        match entity_at(d, refs[z as int].address as int, e) {
            Ok(EntityModel::MapZone(_, m)) => Some(m),
            _ => None,
        }
    }
}

/// The map-zone entities of the zones, in order; a zone that leads to no
/// map-zone entity is skipped.
pub open spec fn mapzones_of(d: Seq<u8>, refs: Seq<RefPointer>, zones: Seq<u32>, e: Endian) -> Seq<MapZoneEntity>
    decreases zones.len(),
{
    if zones.len() == 0 {
        Seq::empty()
    } else {
        let prev = mapzones_of(d, refs, zones.drop_last(), e);
        match zone_entity(d, refs, zones.last(), e) {
            Some(m) => prev.push(m),
            None => prev,
        }
    }
}

pub fn read_mapzones(d: &[u8], refs: &Vec<RefPointer>, zones: &Vec<u32>, e: Endian) -> (r: Vec<MapZoneEntity>)
    ensures
        r@ == mapzones_of(d@, refs@, zones@, e),
{
    let mut r: Vec<MapZoneEntity> = Vec::new();
    let mut k: usize = 0;
    while k < zones.len()
        invariant
            k <= zones.len(),
            r@ == mapzones_of(d@, refs@, zones@.take(k as int), e),
        decreases zones.len() - k,
    {
        proof {
            assert(zones@.take(k + 1).drop_last() =~= zones@.take(k as int));
        }
        let z = zones[k];
        if (z as usize) < refs.len() {
            let ent = read_entity(d, refs[z as usize].address as usize, e);
            if let Ok(Entity::MapZone(_, m)) = ent {
                r.push(m);
            }
        }
        k += 1;
    }
    assert(zones@.take(zones.len() as int) =~= zones@);
    r
}

/// The raw subtype of a trigger folds to no subtype exactly when it is zero
/// or the alternative marker.
pub proof fn lemma_subtype_folding(d: Seq<u8>, p: int, n: int, types: Seq<TriggerType>, e: Endian, j: int)
    requires
        triggers_at(d, p, n, types, e) is Ok,
        0 <= j < n,
    ensures
        (triggers_at(d, p, n, types, e)->Ok_0[j].tsubtype is None) <==> ({
            let raw = types[nth_type_index(d, p, j, e) as int].trig_subtype;
            raw == 0 || raw == 0x4200_0001
        }),
        triggers_at(d, p, n, types, e)->Ok_0[j].tsubtype is Some ==>
            triggers_at(d, p, n, types, e)->Ok_0[j].tsubtype->Some_0 == types[nth_type_index(d, p, j, e) as int].trig_subtype,
{
}

/// An assembled map.
pub struct ProcessedMap {
    pub hashcode: u32,
    pub mapzone_entities: Vec<MapZoneEntity>,
    pub placements: Vec<Placement>,
    pub triggers: Vec<ProcessedTrigger>,
    pub trigger_collisions: Vec<BaseDatum>,
}

pub struct MapModel {
    pub hashcode: u32,
    pub mapzone_entities: Seq<MapZoneEntity>,
    pub placements: Seq<Placement>,
    pub triggers: Seq<TriggerModel>,
    pub trigger_collisions: Seq<BaseDatum>,
}

impl View for ProcessedMap {
    type V = MapModel;

    open spec fn view(&self) -> MapModel {
        MapModel {
            hashcode: self.hashcode,
            mapzone_entities: self.mapzone_entities@,
            placements: self.placements@,
            triggers: trigger_views(self.triggers@),
            trigger_collisions: self.trigger_collisions@,
        }
    }
}

/// The map record at `a`: five tables (placements, zones, trigger types,
/// triggers, trigger collisions), each a count and a pointer.
pub open spec fn map_at(d: Seq<u8>, a: int, hashcode: u32, refs: Seq<RefPointer>, e: Endian) -> Result<MapModel, EdbError> {
    if !fits(d, a, MAP_SIZE as int) {
        Err(EdbError::Io)
    } else {
        match table_at(d, a, e) {
            Err(x) => Err(x),
            Ok((pp, pn)) => if !fits(d, pp, PLACEMENT_SIZE * pn) {
                Err(EdbError::Io)
            } else {
                match table_at(d, a + 8, e) {
                    Err(x) => Err(x),
                    Ok((zp, zn)) => if !fits(d, zp, 4 * zn) {
                        Err(EdbError::Io)
                    } else {
                        match table_at(d, a + 16, e) {
                            Err(x) => Err(x),
                            Ok((yp, yn)) => if !fits(d, yp, TRIGGER_TYPE_SIZE * yn) {
                                Err(EdbError::Io)
                            } else {
                                match table_at(d, a + 24, e) {
                                    Err(x) => Err(x),
                                    Ok((tp, tn)) => if !fits(d, tp, TRIGGER_SIZE * tn) {
                                        Err(EdbError::Io)
                                    } else {
                                        match triggers_at(d, tp, tn, trigger_types_at(d, yp, yn, e), e) {
                                            Err(x) => Err(x),
                                            Ok(ts) => match table_at(d, a + 32, e) {
                                                Err(x) => Err(x),
                                                Ok((cp, cn)) => if !fits(d, cp, DATUM_SIZE * cn) {
                                                    Err(EdbError::Io)
                                                } else {
                                                    Ok(
                                                        MapModel {
                                                            hashcode,
                                                            mapzone_entities: mapzones_of(d, refs, u32s_at(d, zp, zn, e), e),
                                                            placements: placements_at(d, pp, pn, e),
                                                            triggers: ts,
                                                            trigger_collisions: data_at(d, cp, cn, e),
                                                        },
                                                    )
                                                },
                                            },
                                        }
                                    },
                                }
                            },
                        }
                    },
                }
            },
        }
    }
}

pub open spec fn map_result_view(r: Result<ProcessedMap, EdbError>) -> Result<MapModel, EdbError> {
    match r {
        Ok(m) => Ok(m@),
        Err(x) => Err(x),
    }
}

/// Decodes and assembles the map record at `a`.
pub fn read_map(d: &[u8], a: usize, hashcode: u32, refs: &Vec<RefPointer>, e: Endian) -> (r: Result<ProcessedMap, EdbError>)
    ensures
        map_result_view(r) == map_at(d@, a as int, hashcode, refs@, e),
{
    if a >= d.len() || d.len() - a < MAP_SIZE {
        return Err(EdbError::Io);
    }
    let (pp, pn) = read_table(d, a, e)?;
    let placements = read_placements(d, pp, pn, e)?;
    let (zp, zn) = read_table(d, a + 8, e)?;
    let zones = read_u32s(d, zp, zn, e)?;
    let (yp, yn) = read_table(d, a + 16, e)?;
    let types = read_trigger_types(d, yp, yn, e)?;
    let (tp, tn) = read_table(d, a + 24, e)?;
    let triggers = read_triggers(d, tp, tn, &types, e)?;
    let (cp, cn) = read_table(d, a + 32, e)?;
    let trigger_collisions = read_data(d, cp, cn, e)?;
    let mapzone_entities = read_mapzones(d, refs, &zones, e);
    Ok(ProcessedMap { hashcode, mapzone_entities, placements, triggers, trigger_collisions })
}

/// Decodes and assembles each map of the map directory, in order; one map
/// that fails leaves the others untouched.
pub fn decode_maps(d: &[u8], h: &Header) -> (r: Vec<IdentifiableResult<ProcessedMap>>)
    ensures
        r.len() == h.map_list.len(),
        forall|i: int| 0 <= i < h.map_list.len() ==> {
            &&& (#[trigger] r[i]).hashcode == h.map_list[i].hashcode
            &&& map_result_view(r[i].data) == map_at(
                d@,
                h.map_list[i].address as int,
                h.map_list[i].hashcode,
                h.refpointer_list@,
                h.endian,
            )
        },
{
    let mut r: Vec<IdentifiableResult<ProcessedMap>> = Vec::new();
    let mut i: usize = 0;
    while i < h.map_list.len()
        invariant
            i <= h.map_list.len(),
            r.len() == i,
            forall|j: int| 0 <= j < i ==> {
                &&& (#[trigger] r[j]).hashcode == h.map_list[j].hashcode
                &&& map_result_view(r[j].data) == map_at(
                    d@,
                    h.map_list[j].address as int,
                    h.map_list[j].hashcode,
                    h.refpointer_list@,
                    h.endian,
                )
            },
        decreases h.map_list.len() - i,
    {
        let entry = h.map_list[i];
        let data = read_map(d, entry.address as usize, entry.hashcode, &h.refpointer_list, h.endian);
        r.push(IdentifiableResult { hashcode: entry.hashcode, data });
        i += 1;
    }
    r
}

/// Decodes the header of a file and then each of its maps. Map records have
/// one layout on every platform.
pub fn read_from_file(d: &[u8], _platform: Platform) -> (r: Result<Vec<IdentifiableResult<ProcessedMap>>, EdbError>)
    ensures
        match header_of(d@) {
            Err(x) => r == Err::<Vec<IdentifiableResult<ProcessedMap>>, EdbError>(x),
            Ok(h) => r is Ok && {
                let v = r->Ok_0;
                &&& v.len() == h.map_list.len()
                &&& forall|i: int| 0 <= i < v.len() ==> {
                    &&& (#[trigger] v[i]).hashcode == h.map_list[i].hashcode
                    &&& map_result_view(v[i].data) == map_at(
                        d@,
                        h.map_list[i].address as int,
                        h.map_list[i].hashcode,
                        h.refpointer_list,
                        h.endian,
                    )
                }
            },
        },
{
    let h = read_header(d)?;
    Ok(decode_maps(d, &h))
}

} // verus!

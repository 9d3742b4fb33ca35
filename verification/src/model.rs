//! The model: everything a file holds, in one value that does not depend
//! on the revision it was read from or will be written to.

use vstd::prelude::*;
use crate::bytes::{decoded, reversed, Text};
use crate::error::{DecodeError, Violation};
use crate::geom::Vec3d;
use crate::header::{ObjHeader, SpecObjHeader};
use crate::ids::ObjectId;
use crate::records::{
    Dock, EyePoint, GlowPointBank, Insignia, Path, SpecDock, SpecGlowPointBank, SpecInsignia,
    SpecPath, SpecSpecialPoint, SpecThrusterBank, SpecTurret, SpecialPoint, ThrusterBank, Turret,
    WeaponHardpoint,
};
use crate::shield::{parse_shield_node, spec_shield_node, ShieldData, ShieldPolygon, SpecShieldData};
use crate::subobject::{SpecSubObject, SubObject};
use crate::version::Version;

verus! {

/// A model.
#[derive(PartialEq, Eq, Debug)]
pub struct Model {
    /// The revision whose field layout the model follows.
    pub version: Version,
    pub header: ObjHeader,
    /// The subobjects, each in the slot its id names.
    pub sub_objects: Vec<SubObject>,
    pub textures: Vec<Text>,
    pub paths: Vec<Path>,
    pub special_points: Vec<SpecialPoint>,
    pub eye_points: Vec<EyePoint>,
    pub primary_weps: Vec<Vec<WeaponHardpoint>>,
    pub secondary_weps: Vec<Vec<WeaponHardpoint>>,
    pub turrets: Vec<Turret>,
    pub thruster_banks: Vec<ThrusterBank>,
    pub glow_banks: Vec<GlowPointBank>,
    pub visual_center: Vec3d,
    pub comments: Text,
    pub docking_bays: Vec<Dock>,
    pub insignias: Vec<Insignia>,
    pub shield_data: Option<ShieldData>,
}

/// What a [`Model`] holds.
pub struct SpecModel {
    pub version: Version,
    pub header: SpecObjHeader,
    pub sub_objects: Seq<SpecSubObject>,
    pub textures: Seq<Seq<u8>>,
    pub paths: Seq<SpecPath>,
    pub special_points: Seq<SpecSpecialPoint>,
    pub eye_points: Seq<EyePoint>,
    pub primary_weps: Seq<Seq<WeaponHardpoint>>,
    pub secondary_weps: Seq<Seq<WeaponHardpoint>>,
    pub turrets: Seq<SpecTurret>,
    pub thruster_banks: Seq<SpecThrusterBank>,
    pub glow_banks: Seq<SpecGlowPointBank>,
    pub visual_center: Vec3d,
    pub comments: Seq<u8>,
    pub docking_bays: Seq<SpecDock>,
    pub insignias: Seq<SpecInsignia>,
    pub shield_data: Option<SpecShieldData>,
}

impl DeepView for Model {
    type V = SpecModel;

    open spec fn deep_view(&self) -> SpecModel {
        SpecModel {
            version: self.version,
            header: self.header.deep_view(),
            sub_objects: self.sub_objects.deep_view(),
            textures: self.textures.deep_view(),
            paths: self.paths.deep_view(),
            special_points: self.special_points.deep_view(),
            eye_points: self.eye_points.deep_view(),
            primary_weps: self.primary_weps.deep_view(),
            secondary_weps: self.secondary_weps.deep_view(),
            turrets: self.turrets.deep_view(),
            thruster_banks: self.thruster_banks.deep_view(),
            glow_banks: self.glow_banks.deep_view(),
            visual_center: self.visual_center,
            comments: self.comments.deep_view(),
            docking_bays: self.docking_bays.deep_view(),
            insignias: self.insignias.deep_view(),
            shield_data: self.shield_data.deep_view(),
        }
    }
}

/// What has been read of a file so far. Each part is there or not yet;
/// the subobject table has a slot for each subobject, filled or not yet.
pub struct ParseState {
    pub header: Option<ObjHeader>,
    pub debris: Vec<ObjectId>,
    pub sub_objects: Vec<Option<SubObject>>,
    pub textures: Option<Vec<Text>>,
    pub paths: Option<Vec<Path>>,
    pub special_points: Option<Vec<SpecialPoint>>,
    pub eye_points: Option<Vec<EyePoint>>,
    pub primary_weps: Option<Vec<Vec<WeaponHardpoint>>>,
    pub secondary_weps: Option<Vec<Vec<WeaponHardpoint>>>,
    pub turrets: Vec<Turret>,
    pub thruster_banks: Option<Vec<ThrusterBank>>,
    pub glow_banks: Option<Vec<GlowPointBank>>,
    pub visual_center: Option<Vec3d>,
    pub comments: Option<Text>,
    pub dock_points: Option<Vec<Dock>>,
    pub insignias: Option<Vec<Insignia>>,
    pub shield_verts: Option<Vec<Vec3d>>,
    pub shield_polygons: Option<Vec<ShieldPolygon>>,
    pub shield_tree_chunk: Option<Vec<u8>>,
}

/// What a [`ParseState`] holds.
pub struct SpecParseState {
    pub header: Option<SpecObjHeader>,
    pub debris: Seq<ObjectId>,
    pub sub_objects: Seq<Option<SpecSubObject>>,
    pub textures: Option<Seq<Seq<u8>>>,
    pub paths: Option<Seq<SpecPath>>,
    pub special_points: Option<Seq<SpecSpecialPoint>>,
    pub eye_points: Option<Seq<EyePoint>>,
    pub primary_weps: Option<Seq<Seq<WeaponHardpoint>>>,
    pub secondary_weps: Option<Seq<Seq<WeaponHardpoint>>>,
    pub turrets: Seq<SpecTurret>,
    pub thruster_banks: Option<Seq<SpecThrusterBank>>,
    pub glow_banks: Option<Seq<SpecGlowPointBank>>,
    pub visual_center: Option<Vec3d>,
    pub comments: Option<Seq<u8>>,
    pub dock_points: Option<Seq<SpecDock>>,
    pub insignias: Option<Seq<SpecInsignia>>,
    pub shield_verts: Option<Seq<Vec3d>>,
    pub shield_polygons: Option<Seq<ShieldPolygon>>,
    pub shield_tree_chunk: Option<Seq<u8>>,
}

impl DeepView for ParseState {
    type V = SpecParseState;

    open spec fn deep_view(&self) -> SpecParseState {
        SpecParseState {
            header: self.header.deep_view(),
            debris: self.debris.deep_view(),
            sub_objects: self.sub_objects.deep_view(),
            textures: self.textures.deep_view(),
            paths: self.paths.deep_view(),
            special_points: self.special_points.deep_view(),
            eye_points: self.eye_points.deep_view(),
            primary_weps: self.primary_weps.deep_view(),
            secondary_weps: self.secondary_weps.deep_view(),
            turrets: self.turrets.deep_view(),
            thruster_banks: self.thruster_banks.deep_view(),
            glow_banks: self.glow_banks.deep_view(),
            visual_center: self.visual_center,
            comments: self.comments.deep_view(),
            dock_points: self.dock_points.deep_view(),
            insignias: self.insignias.deep_view(),
            shield_verts: self.shield_verts.deep_view(),
            shield_polygons: self.shield_polygons.deep_view(),
            shield_tree_chunk: self.shield_tree_chunk.deep_view(),
        }
    }
}

impl SpecParseState {
    /// Nothing read yet.
    pub open spec fn start() -> SpecParseState {
        SpecParseState {
            header: None,
            debris: Seq::empty(),
            sub_objects: Seq::empty(),
            textures: None,
            paths: None,
            special_points: None,
            eye_points: None,
            primary_weps: None,
            secondary_weps: None,
            turrets: Seq::empty(),
            thruster_banks: None,
            glow_banks: None,
            visual_center: None,
            comments: None,
            dock_points: None,
            insignias: None,
            shield_verts: None,
            shield_polygons: None,
            shield_tree_chunk: None,
        }
    }
}

impl ParseState {
    /// Nothing read yet.
    pub fn start() -> (st: ParseState)
        ensures
            st.deep_view() == SpecParseState::start(),
    {
        let st = ParseState {
            header: None,
            debris: Vec::new(),
            sub_objects: Vec::new(),
            textures: None,
            paths: None,
            special_points: None,
            eye_points: None,
            primary_weps: None,
            secondary_weps: None,
            turrets: Vec::new(),
            thruster_banks: None,
            glow_banks: None,
            visual_center: None,
            comments: None,
            dock_points: None,
            insignias: None,
            shield_verts: None,
            shield_polygons: None,
            shield_tree_chunk: None,
        };
        assert(st.debris.deep_view() =~= Seq::<ObjectId>::empty());
        assert(st.sub_objects.deep_view() =~= Seq::<Option<SpecSubObject>>::empty());
        assert(st.turrets.deep_view() =~= Seq::<SpecTurret>::empty());
        st
    }
}

// ---------------------------------------------------------------------
// The hierarchy
// ---------------------------------------------------------------------

/// The ids of the subobjects in the first `k` slots that name slot `i`
/// as their parent, in the order of their slots.
pub open spec fn children_upto(slots: Seq<Option<SpecSubObject>>, i: int, k: int) -> Seq<ObjectId>
    decreases k,
{
    if k <= 0 {
        Seq::empty()
    } else {
        let init = children_upto(slots, i, k - 1);
        match slots[k - 1] {
            Some(o) => if o.parent == Some(ObjectId(i as u32)) {
                init.push(o.obj_id)
            } else {
                init
            },
            None => init,
        }
    }
}

/// Whether every slot is filled.
pub open spec fn resolved(slots: Seq<Option<SpecSubObject>>) -> bool {
    forall|j: int| 0 <= j < slots.len() ==> (#[trigger] slots[j]) is Some
}

/// Whether every id names a slot.
pub open spec fn ids_in_range(ids: Seq<ObjectId>, n: int) -> bool {
    forall|j: int| 0 <= j < ids.len() ==> (#[trigger] ids[j]).0 < n
}

/// The subobject of slot `i` with its children and its debris mark.
pub open spec fn linked_subobject(
    slots: Seq<Option<SpecSubObject>>,
    debris: Seq<ObjectId>,
    i: int,
) -> SpecSubObject {
    let o = slots[i]->Some_0;
    SpecSubObject {
        children: children_upto(slots, i, slots.len() as int),
        is_debris_model: debris.contains(ObjectId(i as u32)),
        ..o
    }
}

/// The subobjects of a model, from the filled table: each gets as its
/// children the subobjects that name it as their parent, and is marked
/// as debris if the header lists it so.
pub open spec fn linked_subobjects(slots: Seq<Option<SpecSubObject>>, debris: Seq<ObjectId>) -> Seq<
    SpecSubObject,
> {
    Seq::new(slots.len(), |i: int| linked_subobject(slots, debris, i))
}

/// The shield of a model, from its mesh and its tree chunk. A tree
/// without a mesh is refused.
pub open spec fn spec_shield_parts(
    verts: Option<Seq<Vec3d>>,
    polygons: Option<Seq<ShieldPolygon>>,
    chunk: Option<Seq<u8>>,
    v: Version,
) -> Result<Option<SpecShieldData>, DecodeError> {
    match (verts, polygons) {
        (Some(verts), Some(polygons)) => match chunk {
            Some(chunk) => match spec_shield_node(chunk, 0, v.narrow_shield_tags()) {
                Err(e) => Err(e),
                Ok(t) => Ok(Some(SpecShieldData { verts, polygons, collision_tree: Some(t) })),
            },
            None => Ok(Some(SpecShieldData { verts, polygons, collision_tree: None })),
        },
        _ => if chunk is Some {
            Err(DecodeError::StructuralViolation(Violation::TreeWithoutMesh))
        } else {
            Ok(None)
        },
    }
}

/// The shield of a model, from what was read.
pub open spec fn spec_shield(st: SpecParseState, v: Version) -> Result<
    Option<SpecShieldData>,
    DecodeError,
> {
    spec_shield_parts(st.shield_verts, st.shield_polygons, st.shield_tree_chunk, v)
}

/// What a list is if its chunk was not there: empty.
pub open spec fn or_empty<T>(x: Option<Seq<T>>) -> Seq<T> {
    match x {
        Some(s) => s,
        None => Seq::empty(),
    }
}

/// The model that the parts read make up. The shield tree is decoded;
/// every slot of the subobject table has to be filled; every subobject
/// the header lists as debris has to be there; the header has to be
/// there; the table may not have more slots than an id can name.
pub open spec fn spec_finish(st: SpecParseState, v: Version) -> Result<SpecModel, DecodeError> {
    match spec_shield(st, v) {
        Err(e) => Err(e),
        Ok(shield_data) => if !resolved(st.sub_objects) {
            Err(DecodeError::StructuralViolation(Violation::UnresolvedSubobject))
        } else if !ids_in_range(st.debris, st.sub_objects.len() as int) {
            Err(DecodeError::StructuralViolation(Violation::ObjectOutOfRange))
        } else {
            match st.header {
                None => Err(DecodeError::StructuralViolation(Violation::MissingHeader)),
                Some(header) => if st.sub_objects.len() > u32::MAX {
                    Err(DecodeError::StructuralViolation(Violation::ObjectOutOfRange))
                } else {
                    Ok(
                    SpecModel {
                        version: v,
                        header,
                        sub_objects: linked_subobjects(st.sub_objects, st.debris),
                        textures: or_empty(st.textures),
                        paths: or_empty(st.paths),
                        special_points: or_empty(st.special_points),
                        eye_points: or_empty(st.eye_points),
                        primary_weps: or_empty(st.primary_weps),
                        secondary_weps: or_empty(st.secondary_weps),
                        turrets: st.turrets,
                        thruster_banks: or_empty(st.thruster_banks),
                        glow_banks: or_empty(st.glow_banks),
                        visual_center: match st.visual_center {
                            Some(c) => c,
                            None => Vec3d::spec_zero(),
                        },
                        comments: match st.comments {
                            Some(c) => c,
                            None => Seq::empty(),
                        },
                        docking_bays: or_empty(st.dock_points),
                        insignias: or_empty(st.insignias),
                        shield_data,
                    },
                )
                },
            }
        },
    }
}

fn list_or_empty<T: DeepView>(x: Option<Vec<T>>) -> (r: Vec<T>)
    ensures
        r.deep_view() == or_empty(x.deep_view()),
{
    match x {
        Some(v) => v,
        None => {
            let v: Vec<T> = Vec::new();
            assert(v.deep_view() =~= Seq::<T::V>::empty());
            v
        },
    }
}

fn finish_shield(
    verts: Option<Vec<Vec3d>>,
    polygons: Option<Vec<ShieldPolygon>>,
    chunk: Option<Vec<u8>>,
    v: Version,
) -> (r: Result<Option<ShieldData>, DecodeError>)
    ensures
        match r {
            Ok(x) => Ok::<Option<SpecShieldData>, DecodeError>(x.deep_view()) == spec_shield_parts(
                verts.deep_view(),
                polygons.deep_view(),
                chunk.deep_view(),
                v,
            ),
            Err(e) => Err::<Option<SpecShieldData>, DecodeError>(e) == spec_shield_parts(
                verts.deep_view(),
                polygons.deep_view(),
                chunk.deep_view(),
                v,
            ),
        },
{
    match (verts, polygons) {
        (Some(verts), Some(polygons)) => {
            assert(verts.deep_view() =~= verts@);
            assert(polygons.deep_view() =~= polygons@);
            match chunk {
                Some(chunk) => {
                    assert(chunk.deep_view() =~= chunk@);
                    let t = parse_shield_node(chunk.as_slice(), v)?;
                    Ok(Some(ShieldData { verts, polygons, collision_tree: Some(t) }))
                },
                None => Ok(Some(ShieldData { verts, polygons, collision_tree: None })),
            }
        },
        _ => {
            if chunk.is_some() {
                Err(DecodeError::StructuralViolation(Violation::TreeWithoutMesh))
            } else {
                Ok(None)
            }
        },
    }
}

/// Whether every slot is filled.
fn all_resolved(slots: &Vec<Option<SubObject>>) -> (r: bool)
    ensures
        r == resolved(slots.deep_view()),
{
    let mut j: usize = 0;
    while j < slots.len()
        invariant
            j <= slots@.len(),
            forall|k: int| 0 <= k < j ==> (#[trigger] slots.deep_view()[k]) is Some,
        decreases slots@.len() - j,
    {
        assert(slots.deep_view()[j as int] == slots@[j as int].deep_view());
        if slots[j].is_none() {
            return false;
        }
        j += 1;
    }
    true
}

/// Whether every id names one of `n` slots.
fn all_in_range(ids: &Vec<ObjectId>, n: usize) -> (r: bool)
    ensures
        r == ids_in_range(ids.deep_view(), n as int),
{
    let mut j: usize = 0;
    while j < ids.len()
        invariant
            j <= ids@.len(),
            forall|k: int| 0 <= k < j ==> (#[trigger] ids.deep_view()[k]).0 < n,
        decreases ids@.len() - j,
    {
        assert(ids.deep_view()[j as int] == ids@[j as int]);
        if ids[j].0 as usize >= n {
            return false;
        }
        j += 1;
    }
    true
}

/// Whether the list holds the id.
fn contains_id(ids: &Vec<ObjectId>, id: ObjectId) -> (r: bool)
    ensures
        r == ids.deep_view().contains(id),
{
    let mut j: usize = 0;
    while j < ids.len()
        invariant
            j <= ids@.len(),
            forall|k: int| 0 <= k < j ==> ids.deep_view()[k] != id,
        decreases ids@.len() - j,
    {
        assert(ids.deep_view()[j as int] == ids@[j as int]);
        if ids[j].0 == id.0 {
            return true;
        }
        j += 1;
    }
    false
}

/// The parent and the id of the subobject in each slot.
fn slot_links(slots: &Vec<Option<SubObject>>) -> (r: Vec<(Option<ObjectId>, ObjectId)>)
    requires
        resolved(slots.deep_view()),
    ensures
        r@.len() == slots@.len(),
        forall|j: int|
            0 <= j < r@.len() ==> (#[trigger] r@[j]) == (
                slots.deep_view()[j]->Some_0.parent,
                slots.deep_view()[j]->Some_0.obj_id,
            ),
{
    let mut r: Vec<(Option<ObjectId>, ObjectId)> = Vec::new();
    let mut j: usize = 0;
    while j < slots.len()
        invariant
            resolved(slots.deep_view()),
            j <= slots@.len(),
            r@.len() == j,
            forall|k: int|
                0 <= k < j ==> (#[trigger] r@[k]) == (
                    slots.deep_view()[k]->Some_0.parent,
                    slots.deep_view()[k]->Some_0.obj_id,
                ),
        decreases slots@.len() - j,
    {
        assert(slots.deep_view()[j as int] == slots@[j as int].deep_view());
        assert(slots.deep_view()[j as int] is Some);
        match &slots[j] {
            Some(o) => {
                r.push((o.parent, o.obj_id));
            },
            None => {
                r.push((None, ObjectId(0)));
            },
        }
        j += 1;
    }
    r
}

/// The children of slot `i`, from the links of all slots.
fn children_of(
    links: &Vec<(Option<ObjectId>, ObjectId)>,
    i: usize,
    Ghost(slots): Ghost<Seq<Option<SpecSubObject>>>,
) -> (r: Vec<ObjectId>)
    requires
        resolved(slots),
        links@.len() == slots.len(),
        i <= u32::MAX,
        forall|j: int|
            0 <= j < links@.len() ==> (#[trigger] links@[j]) == (
                slots[j]->Some_0.parent,
                slots[j]->Some_0.obj_id,
            ),
    ensures
        r@ == children_upto(slots, i as int, slots.len() as int),
{
    let mut r: Vec<ObjectId> = Vec::new();
    let mut k: usize = 0;
    while k < links.len()
        invariant
            resolved(slots),
            links@.len() == slots.len(),
            i <= u32::MAX,
            forall|j: int|
                0 <= j < links@.len() ==> (#[trigger] links@[j]) == (
                    slots[j]->Some_0.parent,
                    slots[j]->Some_0.obj_id,
                ),
            k <= links@.len(),
            r@ == children_upto(slots, i as int, k as int),
        decreases links@.len() - k,
    {
        assert(slots[k as int] is Some);
        let (parent, id) = links[k];
        let is_child = match parent {
            Some(p) => p.0 as usize == i,
            None => false,
        };
        if is_child {
            r.push(id);
        }
        k += 1;
    }
    r
}

/// Links the filled table into the subobjects of a model.
fn link_subobjects(slots: Vec<Option<SubObject>>, debris: &Vec<ObjectId>) -> (r: Vec<SubObject>)
    requires
        resolved(slots.deep_view()),
        slots@.len() <= u32::MAX,
    ensures
        r.deep_view() == linked_subobjects(slots.deep_view(), debris.deep_view()),
{
    let ghost sv = slots.deep_view();
    let n = slots.len();
    let links = slot_links(&slots);
    let mut rev = reversed(slots);
    let mut out: Vec<SubObject> = Vec::new();
    let mut i: usize = 0;
    while i < n
        invariant
            resolved(sv),
            sv.len() == n <= u32::MAX,
            links@.len() == n,
            forall|j: int|
                0 <= j < links@.len() ==> (#[trigger] links@[j]) == (
                    sv[j]->Some_0.parent,
                    sv[j]->Some_0.obj_id,
                ),
            i <= n,
            rev@.len() == n - i,
            forall|j: int| 0 <= j < rev@.len() ==> (#[trigger] rev@[j]).deep_view() == sv[n - 1 - j],
            out@.len() == i,
            forall|j: int|
                0 <= j < i ==> (#[trigger] out@[j]).deep_view() == linked_subobject(
                    sv,
                    debris.deep_view(),
                    j,
                ),
        decreases n - i,
    {
        let ghost rv = rev@;
        let ghost ov = out@;
        let slot = rev.pop().unwrap();
        assert(slot.deep_view() == sv[i as int]);
        assert(sv[i as int] is Some);
        let children = children_of(&links, i, Ghost(sv));
        let is_debris = contains_id(debris, ObjectId(i as u32));
        match slot {
            Some(o) => {
                let mut o = o;
                o.children = children;
                o.is_debris_model = is_debris;
                out.push(o);
            },
            None => {},
        }
        assert forall|j: int| 0 <= j < rev@.len() implies (#[trigger] rev@[j]).deep_view() == sv[n
            - 1 - j] by {
            assert(rev@[j] == rv[j]);
        }
        assert forall|j: int| 0 <= j < i + 1 implies (#[trigger] out@[j]).deep_view()
            == linked_subobject(sv, debris.deep_view(), j) by {
            if j < i {
                assert(out@[j] == ov[j]);
            }
        }
        i += 1;
    }
    assert(out.deep_view() =~= linked_subobjects(sv, debris.deep_view()));
    out
}

/// The ids of the first `k` subobjects that name subobject `i` as their
/// parent, in their order.
pub open spec fn children_in(subs: Seq<SpecSubObject>, i: int, k: int) -> Seq<ObjectId>
    decreases k,
{
    if k <= 0 {
        Seq::empty()
    } else if subs[k - 1].parent == Some(ObjectId(i as u32)) {
        children_in(subs, i, k - 1).push(subs[k - 1].obj_id)
    } else {
        children_in(subs, i, k - 1)
    }
}

/// The subobjects, each with the subobjects that name it as their
/// parent as its children.
pub open spec fn relinked(subs: Seq<SpecSubObject>) -> Seq<SpecSubObject> {
    Seq::new(
        subs.len(),
        |i: int| SpecSubObject { children: children_in(subs, i, subs.len() as int), ..subs[i] },
    )
}

fn children_among(subs: &Vec<SubObject>, i: usize) -> (r: Vec<ObjectId>)
    requires
        i <= u32::MAX,
    ensures
        r@ == children_in(subs.deep_view(), i as int, subs@.len() as int),
{
    let mut r: Vec<ObjectId> = Vec::new();
    let mut k: usize = 0;
    while k < subs.len()
        invariant
            i <= u32::MAX,
            k <= subs@.len(),
            r@ == children_in(subs.deep_view(), i as int, k as int),
        decreases subs@.len() - k,
    {
        assert(subs.deep_view()[k as int] == subs@[k as int].deep_view());
        let is_child = match subs[k].parent {
            Some(p) => p.0 as usize == i,
            None => false,
        };
        if is_child {
            r.push(subs[k].obj_id);
        }
        k += 1;
    }
    r
}

/// Sets the children of every subobject from the parents that the
/// subobjects name. There may be as many subobjects as an id can name.
pub fn link_children(subs: Vec<SubObject>) -> (r: Vec<SubObject>)
    requires
        subs@.len() <= u32::MAX,
    ensures
        r.deep_view() == relinked(subs.deep_view()),
{
    let ghost sv = subs.deep_view();
    let n = subs.len();
    let mut lists: Vec<Vec<ObjectId>> = Vec::new();
    let mut i: usize = 0;
    while i < n
        invariant
            sv == subs.deep_view(),
            n == subs@.len() <= u32::MAX,
            i <= n,
            lists@.len() == i,
            forall|j: int| 0 <= j < i ==> (#[trigger] lists@[j])@ == children_in(sv, j, n as int),
        decreases n - i,
    {
        let c = children_among(&subs, i);
        lists.push(c);
        i += 1;
    }
    let mut rev = reversed(subs);
    let mut rev_lists = reversed(lists);
    let ghost lv = rev_lists@.reverse();
    assert(lv =~= lists@);
    let mut out: Vec<SubObject> = Vec::new();
    let mut i: usize = 0;
    while i < n
        invariant
            sv.len() == n,
            i <= n,
            rev@.len() == n - i,
            rev_lists@.len() == n - i,
            forall|j: int| 0 <= j < rev@.len() ==> (#[trigger] rev@[j]).deep_view() == sv[n - 1 - j],
            forall|j: int|
                0 <= j < rev_lists@.len() ==> (#[trigger] rev_lists@[j])@ == children_in(
                    sv,
                    n - 1 - j,
                    n as int,
                ),
            out@.len() == i,
            forall|j: int| 0 <= j < i ==> (#[trigger] out@[j]).deep_view() == relinked(sv)[j],
        decreases n - i,
    {
        let ghost rv = rev@;
        let ghost rl = rev_lists@;
        let ghost ov = out@;
        let mut o = rev.pop().unwrap();
        let c = rev_lists.pop().unwrap();
        assert(o.deep_view() == sv[i as int]);
        assert(c@ == children_in(sv, i as int, n as int));
        o.children = c;
        out.push(o);
        assert forall|j: int| 0 <= j < rev@.len() implies (#[trigger] rev@[j]).deep_view() == sv[n
            - 1 - j] by {
            assert(rev@[j] == rv[j]);
        }
        assert forall|j: int| 0 <= j < rev_lists@.len() implies (#[trigger] rev_lists@[j])@
            == children_in(sv, n - 1 - j, n as int) by {
            assert(rev_lists@[j] == rl[j]);
        }
        assert forall|j: int| 0 <= j < i + 1 implies (#[trigger] out@[j]).deep_view() == relinked(
            sv,
        )[j] by {
            if j < i {
                assert(out@[j] == ov[j]);
            }
        }
        i += 1;
    }
    assert(out.deep_view() =~= relinked(sv));
    out
}

/// Makes the model of the parts read.
pub fn finish(st: ParseState, v: Version) -> (r: Result<Model, DecodeError>)
    ensures
        decoded(r, spec_finish(st.deep_view(), v)),
{
    let ParseState {
        header,
        debris,
        sub_objects,
        textures,
        paths,
        special_points,
        eye_points,
        primary_weps,
        secondary_weps,
        turrets,
        thruster_banks,
        glow_banks,
        visual_center,
        comments,
        dock_points,
        insignias,
        shield_verts,
        shield_polygons,
        shield_tree_chunk,
    } = st;
    let shield_data = finish_shield(shield_verts, shield_polygons, shield_tree_chunk, v)?;
    if !all_resolved(&sub_objects) {
        return Err(DecodeError::StructuralViolation(Violation::UnresolvedSubobject));
    }
    if !all_in_range(&debris, sub_objects.len()) {
        return Err(DecodeError::StructuralViolation(Violation::ObjectOutOfRange));
    }
    let header = match header {
        None => {
            return Err(DecodeError::StructuralViolation(Violation::MissingHeader));
        },
        Some(h) => h,
    };
    if sub_objects.len() > 0xffff_ffff {
        return Err(DecodeError::StructuralViolation(Violation::ObjectOutOfRange));
    }
    let sub_objects = link_subobjects(sub_objects, &debris);
    let visual_center = match visual_center {
        Some(c) => c,
        None => Vec3d::zero(),
    };
    let comments = match comments {
        Some(c) => c,
        None => Text::empty(),
    };
    Ok(
        Model {
            version: v,
            header,
            sub_objects,
            textures: list_or_empty(textures),
            paths: list_or_empty(paths),
            special_points: list_or_empty(special_points),
            eye_points: list_or_empty(eye_points),
            primary_weps: list_or_empty(primary_weps),
            secondary_weps: list_or_empty(secondary_weps),
            turrets,
            thruster_banks: list_or_empty(thruster_banks),
            glow_banks: list_or_empty(glow_banks),
            visual_center,
            comments,
            docking_bays: list_or_empty(dock_points),
            insignias: list_or_empty(insignias),
            shield_data,
        },
    )
}

} // verus!

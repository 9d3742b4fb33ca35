//! Writing a file: the magic, the version, and then chunk after chunk.
//!
//! The content of a chunk is written into a buffer of its own. When it is
//! complete its length is known, and the tag, the length and the content
//! are appended to the output.

use vstd::prelude::*;
use crate::bytes::{
    i32_bytes, list_bytes, list_encodable, pad_len, u32_bytes, write_bytes, write_i32, write_u32,
    write_zeros, zeros, Record, Text,
};
use crate::error::EncodeError;
use crate::geom::{scalar_key, scalar_le, vec3d_bytes, write_vec3d, Vec3d};
use crate::header::{header_chunk_bytes, header_chunk_encodable, write_header_chunk};
use crate::ids::ObjectId;
use crate::model::{Model, SpecModel};
use crate::parse::{
    MAGIC, TAG_ACEN, TAG_DOCK, TAG_EYE, TAG_FUEL, TAG_GLOW, TAG_GPNT, TAG_HDR2, TAG_INSG, TAG_MPNT,
    TAG_OBJ2, TAG_OHDR, TAG_PATH, TAG_PINF, TAG_SHLD, TAG_SLC2, TAG_SLDC, TAG_SOBJ, TAG_SPCL,
    TAG_TGUN, TAG_TXTR,
};
use crate::records::{
    Dock, EyePoint, GlowPointBank, Insignia, Path, SpecialPoint, ThrusterBank, Turret,
    WeaponHardpoint,
};
use crate::shield::{
    shield_node_bytes, shield_node_encodable, write_shield_node, ShieldData, ShieldPolygon,
    SpecShieldData,
};
use crate::subobject::{
    subobject_bytes, subobject_encodable, write_subobject, SpecSubObject, SubObject,
};
use crate::version::Version;

verus! {

/// A chunk: its tag, the length of its content, its content.
pub open spec fn chunk_of(tag: u32, content: Seq<u8>) -> Seq<u8> {
    u32_bytes(tag) + u32_bytes(content.len() as u32) + content
}

/// Appends a chunk with the given content. The content has to be short
/// enough for its length to fit the length field.
pub fn write_chunk_raw(w: &mut Vec<u8>, chunk_name: u32, content: &Vec<u8>) -> (r: Result<
    (),
    EncodeError,
>)
    ensures
        r is Ok <==> content@.len() <= u32::MAX,
        r is Ok ==> final(w)@ == old(w)@ + chunk_of(chunk_name, content@),
        r is Err ==> final(w)@ == old(w)@,
{
    if content.len() > 0xffff_ffff {
        return Err(EncodeError::Unrepresentable);
    }
    write_u32(w, chunk_name);
    write_u32(w, content.len() as u32);
    write_bytes(w, content.as_slice());
    assert(w@ =~= old(w)@ + chunk_of(chunk_name, content@));
    Ok(())
}

/// The chunk of a value that may be absent: nothing if it is.
pub open spec fn value_chunk<T: Record>(tag: u32, x: Option<T::V>, v: Version) -> Seq<u8> {
    match x {
        Some(m) => chunk_of(tag, T::bytes(m, v)),
        None => Seq::empty(),
    }
}

/// Whether the value, if there is one, can be written and fits a chunk.
pub open spec fn value_chunk_encodable<T: Record>(x: Option<T::V>, v: Version) -> bool {
    x matches Some(m) ==> T::encodable(m, v) && T::bytes(m, v).len() <= u32::MAX
}

/// Appends the chunk of a value, if there is one.
pub fn write_chunk<T: Record>(w: &mut Vec<u8>, chunk_name: u32, data: Option<&T>, v: Version) -> (r:
    Result<(), EncodeError>)
    ensures
        r is Ok <==> value_chunk_encodable::<T>(data.deep_view(), v),
        r is Ok ==> final(w)@ == old(w)@ + value_chunk::<T>(chunk_name, data.deep_view(), v),
        r is Err ==> final(w)@ == old(w)@,
{
    match data {
        Some(x) => {
            let mut buf: Vec<u8> = Vec::new();
            match x.write_to(&mut buf, v) {
                Err(e) => {
                    return Err(e);
                },
                Ok(()) => {},
            }
            assert(buf@ =~= T::bytes(x.deep_view(), v));
            write_chunk_raw(w, chunk_name, &buf)
        },
        None => {
            assert(w@ + Seq::<u8>::empty() =~= w@);
            Ok(())
        },
    }
}

/// The chunk of a list: nothing if the list is empty.
pub open spec fn list_chunk<T: Record>(tag: u32, xs: Seq<T::V>, v: Version) -> Seq<u8> {
    if xs.len() == 0 {
        Seq::empty()
    } else {
        chunk_of(tag, list_bytes::<T>(xs, v))
    }
}

/// Whether the list, if it is not empty, can be written and fits a chunk.
pub open spec fn list_chunk_encodable<T: Record>(xs: Seq<T::V>, v: Version) -> bool {
    xs.len() > 0 ==> list_encodable::<T>(xs, v) && list_bytes::<T>(xs, v).len() <= u32::MAX
}

/// Appends the chunk of a list, if the list is not empty.
pub fn write_chunk_vec<T: Record>(w: &mut Vec<u8>, chunk_name: u32, data: &Vec<T>, v: Version) -> (r:
    Result<(), EncodeError>)
    ensures
        r is Ok <==> list_chunk_encodable::<T>(data.deep_view(), v),
        r is Ok ==> final(w)@ == old(w)@ + list_chunk::<T>(chunk_name, data.deep_view(), v),
        r is Err ==> final(w)@ == old(w)@,
{
    if data.len() == 0 {
        assert(w@ + Seq::<u8>::empty() =~= w@);
        return Ok(());
    }
    let mut buf: Vec<u8> = Vec::new();
    match data.write_to(&mut buf, v) {
        Err(e) => {
            return Err(e);
        },
        Ok(()) => {},
    }
    assert(buf@ =~= list_bytes::<T>(data.deep_view(), v));
    write_chunk_raw(w, chunk_name, &buf)
}

// ---------------------------------------------------------------------
// Subobjects, parents first
// ---------------------------------------------------------------------

/// The subobjects that are written when subobject `i` is asked for, and
/// the marks of what has been written after that: nothing if `i` is
/// marked; else what is written for its parent, and then `i` itself. The
/// walk up the parents may take `fuel` steps. It fails if it needs more,
/// or if it meets an id that names no subobject.
pub open spec fn emit(subs: Seq<SpecSubObject>, written: Seq<bool>, i: int, fuel: nat) -> Option<
    (Seq<int>, Seq<bool>),
>
    decreases fuel,
{
    if !(0 <= i < subs.len()) || written.len() != subs.len() {
        None
    } else if written[i] {
        Some((Seq::empty(), written))
    } else if fuel == 0 {
        None
    } else {
        match subs[i].parent {
            Some(p) => match emit(subs, written, p.0 as int, (fuel - 1) as nat) {
                None => None,
                Some((order, w)) => Some((order.push(i), w.update(i, true))),
            },
            None => Some((seq![i], written.update(i, true))),
        }
    }
}

/// The order in which the subobjects from `i` on are written, after
/// `order`: each is asked for in turn.
pub open spec fn emit_from(subs: Seq<SpecSubObject>, written: Seq<bool>, i: int, order: Seq<int>) -> Option<
    Seq<int>,
>
    decreases subs.len() - i,
{
    if i >= subs.len() || i < 0 {
        Some(order)
    } else {
        match emit(subs, written, i, subs.len()) {
            None => None,
            Some((more, w)) => emit_from(subs, w, i + 1, order + more),
        }
    }
}

/// The order in which the subobjects of a model are written: by their
/// ids, but each behind its parent. There is none if the parents of a
/// subobject do not end, or name no subobject.
pub open spec fn emit_order(subs: Seq<SpecSubObject>) -> Option<Seq<int>> {
    emit_from(subs, Seq::new(subs.len(), |i: int| false), 0, Seq::empty())
}

/// The chunk of a subobject.
#[verifier::opaque]
pub open spec fn subobject_chunk(m: SpecSubObject, tag: u32, v: Version) -> Seq<u8> {
    chunk_of(tag, subobject_bytes(m, v))
}

/// The chunks of the subobjects named by `order`.
pub open spec fn order_bytes(subs: Seq<SpecSubObject>, order: Seq<int>, tag: u32, v: Version) -> Seq<
    u8,
>
    decreases order.len(),
{
    if order.len() == 0 {
        Seq::empty()
    } else {
        order_bytes(subs, order.drop_last(), tag, v) + subobject_chunk(subs[order.last()], tag, v)
    }
}

/// Whether a subobject's chunk can be written.
#[verifier::opaque]
pub open spec fn subobject_chunk_encodable(m: SpecSubObject, v: Version) -> bool {
    subobject_encodable(m, v) && subobject_bytes(m, v).len() <= u32::MAX
}

/// Whether the chunk of every subobject named by `order` can be written.
pub open spec fn order_encodable(subs: Seq<SpecSubObject>, order: Seq<int>, v: Version) -> bool {
    forall|k: int|
        0 <= k < order.len() ==> 0 <= #[trigger] order[k] < subs.len() && subobject_chunk_encodable(
            subs[order[k]],
            v,
        )
}

/// The chunks of all subobjects.
pub open spec fn subobjects_bytes(subs: Seq<SpecSubObject>, tag: u32, v: Version) -> Seq<u8> {
    match emit_order(subs) {
        Some(order) => order_bytes(subs, order, tag, v),
        None => Seq::empty(),
    }
}

/// Whether the subobjects have an order to be written in, and each
/// of them can be written.
pub open spec fn subobjects_encodable(subs: Seq<SpecSubObject>, v: Version) -> bool {
    emit_order(subs) matches Some(order) && order_encodable(subs, order, v)
}

fn write_subobject_chunk(w: &mut Vec<u8>, chunk_name: u32, o: &SubObject, v: Version) -> (r: Result<
    (),
    EncodeError,
>)
    ensures
        r is Ok <==> subobject_chunk_encodable(o.deep_view(), v),
        r is Ok ==> final(w)@ == old(w)@ + subobject_chunk(o.deep_view(), chunk_name, v),
        r is Err ==> final(w)@ == old(w)@,
{
    reveal(subobject_chunk);
    reveal(subobject_chunk_encodable);
    let mut buf: Vec<u8> = Vec::new();
    match write_subobject(&mut buf, o, v) {
        Err(e) => {
            return Err(e);
        },
        Ok(()) => {},
    }
    assert(buf@ =~= subobject_bytes(o.deep_view(), v));
    write_chunk_raw(w, chunk_name, &buf)
}

/// Writes subobject `id` behind its parents, unless it is written.
fn emit_subobject(
    w: &mut Vec<u8>,
    chunk_name: u32,
    objects: &Vec<SubObject>,
    written: &mut Vec<bool>,
    id: usize,
    fuel: usize,
    v: Version,
) -> (r: Result<(), EncodeError>)
    ensures
        r is Ok <==> (emit(objects.deep_view(), old(written)@, id as int, fuel as nat) matches Some(
            (order, _),
        ) && order_encodable(objects.deep_view(), order, v)),
        r is Ok ==> final(written)@ == emit(
            objects.deep_view(),
            old(written)@,
            id as int,
            fuel as nat,
        )->Some_0.1 && final(w)@ == old(w)@ + order_bytes(
            objects.deep_view(),
            emit(objects.deep_view(), old(written)@, id as int, fuel as nat)->Some_0.0,
            chunk_name,
            v,
        ),
    decreases fuel,
{
    let ghost subs = objects.deep_view();
    if id >= objects.len() || written.len() != objects.len() {
        return Err(EncodeError::Unrepresentable);
    }
    if written[id] {
        assert(w@ + order_bytes(subs, Seq::<int>::empty(), chunk_name, v) =~= w@);
        return Ok(());
    }
    if fuel == 0 {
        return Err(EncodeError::Unrepresentable);
    }
    let o = &objects[id];
    assert(subs[id as int] == o.deep_view());
    match o.parent {
        Some(p) => {
            match emit_subobject(w, chunk_name, objects, written, p.0 as usize, fuel - 1, v) {
                Err(e) => {
                    proof {
                        let up = emit(subs, old(written)@, p.0 as int, (fuel - 1) as nat);
                        if up is Some {
                            let order = up->Some_0.0.push(id as int);
                            if order_encodable(subs, order, v) {
                                lemma_order_encodable_prefix(subs, up->Some_0.0, order, v);
                            }
                        }
                    }
                    return Err(e);
                },
                Ok(()) => {},
            }
        },
        None => {
            assert(w@ + order_bytes(subs, Seq::<int>::empty(), chunk_name, v) =~= w@);
        },
    }
    let ghost before: Seq<int> = match o.parent {
        Some(p) => emit(subs, old(written)@, p.0 as int, (fuel - 1) as nat)->Some_0.0,
        None => Seq::empty(),
    };
    let ghost order = before.push(id as int);
    proof {
        assert(order.drop_last() =~= before);
        assert(order.last() == id as int);
        if o.parent is None {
            assert(order =~= seq![id as int]);
        }
    }
    proof {
        if o.parent is Some {
            lemma_emit_len(subs, old(written)@, o.parent->Some_0.0 as int, (fuel - 1) as nat);
        }
    }
    match write_subobject_chunk(w, chunk_name, o, v) {
        Err(e) => {
            assert(!order_encodable(subs, order, v)) by {
                assert(order[order.len() - 1] == id as int);
            }
            return Err(e);
        },
        Ok(()) => {},
    }
    written.set(id, true);
    proof {
        assert forall|k: int| 0 <= k < order.len() implies 0 <= #[trigger] order[k] < subs.len()
            && subobject_chunk_encodable(subs[order[k]], v) by {
            if k < before.len() {
                assert(order[k] == before[k]);
            }
        }
    }
    Ok(())
}

/// Appends the chunks of all subobjects, each behind its parent.
pub fn write_subobjects(w: &mut Vec<u8>, chunk_name: u32, objects: &Vec<SubObject>, v: Version) -> (r:
    Result<(), EncodeError>)
    ensures
        r is Ok <==> subobjects_encodable(objects.deep_view(), v),
        r is Ok ==> final(w)@ == old(w)@ + subobjects_bytes(objects.deep_view(), chunk_name, v),
{
    let ghost subs = objects.deep_view();
    let n = objects.len();
    let mut written: Vec<bool> = Vec::new();
    let mut k: usize = 0;
    while k < n
        invariant
            k <= n,
            written@.len() == k,
            forall|j: int| 0 <= j < k ==> !(#[trigger] written@[j]),
        decreases n - k,
    {
        written.push(false);
        k += 1;
    }
    assert(written@ =~= Seq::new(subs.len(), |i: int| false));
    let ghost mut order: Seq<int> = Seq::empty();
    let mut i: usize = 0;
    assert(w@ + order_bytes(subs, order, chunk_name, v) =~= w@);
    while i < n
        invariant
            subs == objects.deep_view(),
            n == objects@.len(),
            i <= n,
            emit_from(subs, written@, i as int, order) == emit_order(subs),
            order_encodable(subs, order, v),
            w@ == old(w)@ + order_bytes(subs, order, chunk_name, v),
        decreases n - i,
    {
        let ghost step = emit(subs, written@, i as int, n as nat);
        match emit_subobject(w, chunk_name, objects, &mut written, i, n, v) {
            Err(e) => {
                proof {
                    if step is Some {
                        lemma_emit_from_extends(subs, step->Some_0.1, i + 1, order + step->Some_0.0);
                        let all = emit_from(subs, step->Some_0.1, i + 1, order + step->Some_0.0);
                        if all is Some && order_encodable(subs, all->Some_0, v) {
                            lemma_order_encodable_prefix(
                                subs,
                                order + step->Some_0.0,
                                all->Some_0,
                                v,
                            );
                            lemma_order_encodable_suffix(subs, order, step->Some_0.0, v);
                        }
                    }
                }
                return Err(e);
            },
            Ok(()) => {},
        }
        proof {
            lemma_order_bytes_concat(subs, order, step->Some_0.0, chunk_name, v);
            lemma_order_encodable_concat(subs, order, step->Some_0.0, v);
            order = order + step->Some_0.0;
        }
        i += 1;
    }
    Ok(())
}

/// The marks stay one for each subobject.
proof fn lemma_emit_len(subs: Seq<SpecSubObject>, written: Seq<bool>, i: int, fuel: nat)
    ensures
        emit(subs, written, i, fuel) matches Some((_, w)) ==> w.len() == written.len()
            && written.len() == subs.len(),
    decreases fuel,
{
    if 0 <= i < subs.len() && written.len() == subs.len() && !written[i] && fuel > 0 {
        if subs[i].parent is Some {
            lemma_emit_len(subs, written, subs[i].parent->Some_0.0 as int, (fuel - 1) as nat);
        }
    }
}

/// What is written from some point on comes behind what was written
/// before.
proof fn lemma_emit_from_extends(subs: Seq<SpecSubObject>, written: Seq<bool>, i: int, order: Seq<int>)
    ensures
        emit_from(subs, written, i, order) matches Some(all) ==> order.is_prefix_of(all),
    decreases subs.len() - i,
{
    if 0 <= i < subs.len() {
        match emit(subs, written, i, subs.len()) {
            None => {},
            Some((more, w)) => {
                lemma_emit_from_extends(subs, w, i + 1, order + more);
            },
        }
    }
}

proof fn lemma_order_encodable_prefix(subs: Seq<SpecSubObject>, a: Seq<int>, all: Seq<int>, v: Version)
    requires
        a.is_prefix_of(all),
        order_encodable(subs, all, v),
    ensures
        order_encodable(subs, a, v),
{
    assert forall|k: int| 0 <= k < a.len() implies 0 <= #[trigger] a[k] < subs.len()
        && subobject_chunk_encodable(subs[a[k]], v) by {
        assert(a[k] == all[k]);
    }
}

proof fn lemma_order_encodable_suffix(subs: Seq<SpecSubObject>, a: Seq<int>, b: Seq<int>, v: Version)
    requires
        order_encodable(subs, a + b, v),
    ensures
        order_encodable(subs, b, v),
{
    assert forall|k: int| 0 <= k < b.len() implies 0 <= #[trigger] b[k] < subs.len()
        && subobject_chunk_encodable(subs[b[k]], v) by {
        assert((a + b)[a.len() + k] == b[k]);
    }
}

proof fn lemma_order_encodable_concat(subs: Seq<SpecSubObject>, a: Seq<int>, b: Seq<int>, v: Version)
    requires
        order_encodable(subs, a, v),
        order_encodable(subs, b, v),
    ensures
        order_encodable(subs, a + b, v),
{
    assert forall|k: int| 0 <= k < (a + b).len() implies 0 <= #[trigger] (a + b)[k] < subs.len()
        && subobject_chunk_encodable(subs[(a + b)[k]], v) by {
        if k < a.len() {
            assert((a + b)[k] == a[k]);
        } else {
            assert((a + b)[k] == b[k - a.len()]);
        }
    }
}

/// The chunks of two orders, one behind the other, are the chunks of
/// the orders joined.
pub proof fn lemma_order_bytes_concat(
    subs: Seq<SpecSubObject>,
    a: Seq<int>,
    b: Seq<int>,
    tag: u32,
    v: Version,
)
    ensures
        order_bytes(subs, a + b, tag, v) == order_bytes(subs, a, tag, v) + order_bytes(
            subs,
            b,
            tag,
            v,
        ),
    decreases b.len(),
{
    if b.len() == 0 {
        assert(a + b =~= a);
        assert(order_bytes(subs, a, tag, v) + order_bytes(subs, b, tag, v) =~= order_bytes(
            subs,
            a,
            tag,
            v,
        ));
    } else {
        lemma_order_bytes_concat(subs, a, b.drop_last(), tag, v);
        assert((a + b).drop_last() =~= a + b.drop_last());
        assert((a + b).last() == b.last());
        assert(order_bytes(subs, a + b, tag, v) =~= order_bytes(subs, a, tag, v) + order_bytes(
            subs,
            b,
            tag,
            v,
        ));
    }
}

// ---------------------------------------------------------------------
// The model
// ---------------------------------------------------------------------

/// The ids of the subobjects that are marked as debris, in the order of
/// the subobjects.
pub open spec fn debris_ids(subs: Seq<SpecSubObject>) -> Seq<ObjectId>
    decreases subs.len(),
{
    if subs.len() == 0 {
        Seq::empty()
    } else if subs.last().is_debris_model {
        debris_ids(subs.drop_last()).push(subs.last().obj_id)
    } else {
        debris_ids(subs.drop_last())
    }
}

fn collect_debris(objects: &Vec<SubObject>) -> (r: Vec<ObjectId>)
    ensures
        r.deep_view() == debris_ids(objects.deep_view()),
{
    let ghost subs = objects.deep_view();
    let mut r: Vec<ObjectId> = Vec::new();
    let mut i: usize = 0;
    assert(subs.take(0) =~= Seq::<SpecSubObject>::empty());
    while i < objects.len()
        invariant
            subs == objects.deep_view(),
            i <= objects@.len(),
            r@ == debris_ids(subs.take(i as int)),
        decreases objects@.len() - i,
    {
        proof {
            let t = subs.take(i + 1);
            assert(t.drop_last() =~= subs.take(i as int));
            assert(t.last() == objects@[i as int].deep_view());
        }
        if objects[i].is_debris_model {
            r.push(objects[i].obj_id);
        }
        i += 1;
    }
    assert(subs.take(i as int) =~= subs);
    assert(r.deep_view() =~= r@);
    r
}

/// What opens a file: the magic, and the number of the newest revision.
/// The newest revision is named whatever revision the layout of the
/// chunks follows.
pub open spec fn head_part() -> Seq<u8> {
    u32_bytes(MAGIC) + i32_bytes(2300)
}

/// The tag of the header chunk in the layout of a revision.
pub open spec fn header_tag(v: Version) -> u32 {
    if v.current_layout() {
        TAG_HDR2
    } else {
        TAG_OHDR
    }
}

/// The tag of a subobject chunk in the layout of a revision.
pub open spec fn subobject_tag(v: Version) -> u32 {
    if v.current_layout() {
        TAG_OBJ2
    } else {
        TAG_SOBJ
    }
}

/// The header chunk. Its debris list names the subobjects that are
/// marked as debris.
#[verifier::opaque]
pub open spec fn header_part(m: SpecModel) -> Seq<u8> {
    chunk_of(
        header_tag(m.version),
        header_chunk_bytes(m.header, debris_ids(m.sub_objects), m.version),
    )
}

#[verifier::opaque]
pub open spec fn header_part_encodable(m: SpecModel) -> bool {
    &&& header_chunk_encodable(m.header, debris_ids(m.sub_objects), m.version)
    &&& header_chunk_bytes(m.header, debris_ids(m.sub_objects), m.version).len() <= u32::MAX
}

fn write_header_part(w: &mut Vec<u8>, m: &Model) -> (r: Result<(), EncodeError>)
    ensures
        r is Ok <==> header_part_encodable(m.deep_view()),
        r is Ok ==> final(w)@ == old(w)@ + header_part(m.deep_view()),
{
    reveal(header_part);
    reveal(header_part_encodable);
    let v = m.version;
    let debris = collect_debris(&m.sub_objects);
    let mut buf: Vec<u8> = Vec::new();
    match write_header_chunk(&mut buf, &m.header, &debris, v) {
        Err(e) => {
            return Err(e);
        },
        Ok(()) => {},
    }
    assert(buf@ =~= header_chunk_bytes(m.header.deep_view(), debris.deep_view(), v));
    let tag = if v.current_layout() {
        TAG_HDR2
    } else {
        TAG_OHDR
    };
    write_chunk_raw(w, tag, &buf)
}

/// The subobject chunks.
#[verifier::opaque]
pub open spec fn subobjects_part(m: SpecModel) -> Seq<u8> {
    subobjects_bytes(m.sub_objects, subobject_tag(m.version), m.version)
}

#[verifier::opaque]
pub open spec fn subobjects_part_encodable(m: SpecModel) -> bool {
    subobjects_encodable(m.sub_objects, m.version)
}

fn write_subobjects_part(w: &mut Vec<u8>, m: &Model) -> (r: Result<(), EncodeError>)
    ensures
        r is Ok <==> subobjects_part_encodable(m.deep_view()),
        r is Ok ==> final(w)@ == old(w)@ + subobjects_part(m.deep_view()),
{
    reveal(subobjects_part);
    reveal(subobjects_part_encodable);
    let tag = if m.version.current_layout() {
        TAG_OBJ2
    } else {
        TAG_SOBJ
    };
    write_subobjects(w, tag, &m.sub_objects, m.version)
}

/// The chunk of the texture list; none if the list is empty.
#[verifier::opaque]
pub open spec fn textures_part(m: SpecModel) -> Seq<u8> {
    list_chunk::<Text>(TAG_TXTR, m.textures, m.version)
}

#[verifier::opaque]
pub open spec fn textures_part_encodable(m: SpecModel) -> bool {
    list_chunk_encodable::<Text>(m.textures, m.version)
}

fn write_textures_part(w: &mut Vec<u8>, m: &Model) -> (r: Result<(), EncodeError>)
    ensures
        r is Ok <==> textures_part_encodable(m.deep_view()),
        r is Ok ==> final(w)@ == old(w)@ + textures_part(m.deep_view()),
{
    reveal(textures_part);
    reveal(textures_part_encodable);
    write_chunk_vec::<Text>(w, TAG_TXTR, &m.textures, m.version)
}

/// The chunk of the paths; none if the list is empty.
#[verifier::opaque]
pub open spec fn paths_part(m: SpecModel) -> Seq<u8> {
    list_chunk::<Path>(TAG_PATH, m.paths, m.version)
}

#[verifier::opaque]
pub open spec fn paths_part_encodable(m: SpecModel) -> bool {
    list_chunk_encodable::<Path>(m.paths, m.version)
}

fn write_paths_part(w: &mut Vec<u8>, m: &Model) -> (r: Result<(), EncodeError>)
    ensures
        r is Ok <==> paths_part_encodable(m.deep_view()),
        r is Ok ==> final(w)@ == old(w)@ + paths_part(m.deep_view()),
{
    reveal(paths_part);
    reveal(paths_part_encodable);
    write_chunk_vec::<Path>(w, TAG_PATH, &m.paths, m.version)
}

/// The chunk of the special points; none if the list is empty.
#[verifier::opaque]
pub open spec fn special_points_part(m: SpecModel) -> Seq<u8> {
    list_chunk::<SpecialPoint>(TAG_SPCL, m.special_points, m.version)
}

#[verifier::opaque]
pub open spec fn special_points_part_encodable(m: SpecModel) -> bool {
    list_chunk_encodable::<SpecialPoint>(m.special_points, m.version)
}

fn write_special_points_part(w: &mut Vec<u8>, m: &Model) -> (r: Result<(), EncodeError>)
    ensures
        r is Ok <==> special_points_part_encodable(m.deep_view()),
        r is Ok ==> final(w)@ == old(w)@ + special_points_part(m.deep_view()),
{
    reveal(special_points_part);
    reveal(special_points_part_encodable);
    write_chunk_vec::<SpecialPoint>(w, TAG_SPCL, &m.special_points, m.version)
}

/// The chunk of the eye points; none if the list is empty.
#[verifier::opaque]
pub open spec fn eye_points_part(m: SpecModel) -> Seq<u8> {
    list_chunk::<EyePoint>(TAG_EYE, m.eye_points, m.version)
}

#[verifier::opaque]
pub open spec fn eye_points_part_encodable(m: SpecModel) -> bool {
    list_chunk_encodable::<EyePoint>(m.eye_points, m.version)
}

fn write_eye_points_part(w: &mut Vec<u8>, m: &Model) -> (r: Result<(), EncodeError>)
    ensures
        r is Ok <==> eye_points_part_encodable(m.deep_view()),
        r is Ok ==> final(w)@ == old(w)@ + eye_points_part(m.deep_view()),
{
    reveal(eye_points_part);
    reveal(eye_points_part_encodable);
    write_chunk_vec::<EyePoint>(w, TAG_EYE, &m.eye_points, m.version)
}

/// The chunk of the primary weapon banks; none if the list is empty.
#[verifier::opaque]
pub open spec fn primary_weps_part(m: SpecModel) -> Seq<u8> {
    list_chunk::<Vec<WeaponHardpoint>>(TAG_GPNT, m.primary_weps, m.version)
}

#[verifier::opaque]
pub open spec fn primary_weps_part_encodable(m: SpecModel) -> bool {
    list_chunk_encodable::<Vec<WeaponHardpoint>>(m.primary_weps, m.version)
}

fn write_primary_weps_part(w: &mut Vec<u8>, m: &Model) -> (r: Result<(), EncodeError>)
    ensures
        r is Ok <==> primary_weps_part_encodable(m.deep_view()),
        r is Ok ==> final(w)@ == old(w)@ + primary_weps_part(m.deep_view()),
{
    reveal(primary_weps_part);
    reveal(primary_weps_part_encodable);
    write_chunk_vec::<Vec<WeaponHardpoint>>(w, TAG_GPNT, &m.primary_weps, m.version)
}

/// The chunk of the secondary weapon banks; none if the list is empty.
#[verifier::opaque]
pub open spec fn secondary_weps_part(m: SpecModel) -> Seq<u8> {
    list_chunk::<Vec<WeaponHardpoint>>(TAG_MPNT, m.secondary_weps, m.version)
}

#[verifier::opaque]
pub open spec fn secondary_weps_part_encodable(m: SpecModel) -> bool {
    list_chunk_encodable::<Vec<WeaponHardpoint>>(m.secondary_weps, m.version)
}

fn write_secondary_weps_part(w: &mut Vec<u8>, m: &Model) -> (r: Result<(), EncodeError>)
    ensures
        r is Ok <==> secondary_weps_part_encodable(m.deep_view()),
        r is Ok ==> final(w)@ == old(w)@ + secondary_weps_part(m.deep_view()),
{
    reveal(secondary_weps_part);
    reveal(secondary_weps_part_encodable);
    write_chunk_vec::<Vec<WeaponHardpoint>>(w, TAG_MPNT, &m.secondary_weps, m.version)
}

/// The chunk of the turrets, all in one chunk; none if the list is empty.
#[verifier::opaque]
pub open spec fn turrets_part(m: SpecModel) -> Seq<u8> {
    list_chunk::<Turret>(TAG_TGUN, m.turrets, m.version)
}

#[verifier::opaque]
pub open spec fn turrets_part_encodable(m: SpecModel) -> bool {
    list_chunk_encodable::<Turret>(m.turrets, m.version)
}

fn write_turrets_part(w: &mut Vec<u8>, m: &Model) -> (r: Result<(), EncodeError>)
    ensures
        r is Ok <==> turrets_part_encodable(m.deep_view()),
        r is Ok ==> final(w)@ == old(w)@ + turrets_part(m.deep_view()),
{
    reveal(turrets_part);
    reveal(turrets_part_encodable);
    write_chunk_vec::<Turret>(w, TAG_TGUN, &m.turrets, m.version)
}

/// The chunk of the thruster banks; none if the list is empty.
#[verifier::opaque]
pub open spec fn thruster_banks_part(m: SpecModel) -> Seq<u8> {
    list_chunk::<ThrusterBank>(TAG_FUEL, m.thruster_banks, m.version)
}

#[verifier::opaque]
pub open spec fn thruster_banks_part_encodable(m: SpecModel) -> bool {
    list_chunk_encodable::<ThrusterBank>(m.thruster_banks, m.version)
}

fn write_thruster_banks_part(w: &mut Vec<u8>, m: &Model) -> (r: Result<(), EncodeError>)
    ensures
        r is Ok <==> thruster_banks_part_encodable(m.deep_view()),
        r is Ok ==> final(w)@ == old(w)@ + thruster_banks_part(m.deep_view()),
{
    reveal(thruster_banks_part);
    reveal(thruster_banks_part_encodable);
    write_chunk_vec::<ThrusterBank>(w, TAG_FUEL, &m.thruster_banks, m.version)
}

/// The chunk of the glow banks; none if the list is empty.
#[verifier::opaque]
pub open spec fn glow_banks_part(m: SpecModel) -> Seq<u8> {
    list_chunk::<GlowPointBank>(TAG_GLOW, m.glow_banks, m.version)
}

#[verifier::opaque]
pub open spec fn glow_banks_part_encodable(m: SpecModel) -> bool {
    list_chunk_encodable::<GlowPointBank>(m.glow_banks, m.version)
}

fn write_glow_banks_part(w: &mut Vec<u8>, m: &Model) -> (r: Result<(), EncodeError>)
    ensures
        r is Ok <==> glow_banks_part_encodable(m.deep_view()),
        r is Ok ==> final(w)@ == old(w)@ + glow_banks_part(m.deep_view()),
{
    reveal(glow_banks_part);
    reveal(glow_banks_part_encodable);
    write_chunk_vec::<GlowPointBank>(w, TAG_GLOW, &m.glow_banks, m.version)
}

/// The comment block, if there is a comment: the comment, padded with
/// NULs to the next multiple of four, with at least one NUL.
#[verifier::opaque]
pub open spec fn comments_part(m: SpecModel) -> Seq<u8> {
    if m.comments.len() == 0 {
        Seq::empty()
    } else {
        chunk_of(TAG_PINF, m.comments + zeros(pad_len(m.comments.len() as int)))
    }
}

#[verifier::opaque]
pub open spec fn comments_part_encodable(m: SpecModel) -> bool {
    m.comments.len() > 0 ==> m.comments.len() + pad_len(m.comments.len() as int) <= u32::MAX
}

fn write_comments_part(w: &mut Vec<u8>, m: &Model) -> (r: Result<(), EncodeError>)
    ensures
        r is Ok <==> comments_part_encodable(m.deep_view()),
        r is Ok ==> final(w)@ == old(w)@ + comments_part(m.deep_view()),
{
    reveal(comments_part);
    reveal(comments_part_encodable);
    let n = m.comments.bytes.len();
    if n == 0 {
        assert(w@ + Seq::<u8>::empty() =~= w@);
        return Ok(());
    }
    let pad: usize = 4 - n % 4;
    if n > 0xffff_ffff - pad {
        return Err(EncodeError::Unrepresentable);
    }
    let mut buf: Vec<u8> = Vec::new();
    write_bytes(&mut buf, m.comments.bytes.as_slice());
    write_zeros(&mut buf, pad);
    assert(buf@ =~= m.comments.bytes@ + zeros(pad_len(n as int)));
    write_chunk_raw(w, TAG_PINF, &buf)
}

/// The chunk of the docking bays; none if the list is empty.
#[verifier::opaque]
pub open spec fn docking_bays_part(m: SpecModel) -> Seq<u8> {
    list_chunk::<Dock>(TAG_DOCK, m.docking_bays, m.version)
}

#[verifier::opaque]
pub open spec fn docking_bays_part_encodable(m: SpecModel) -> bool {
    list_chunk_encodable::<Dock>(m.docking_bays, m.version)
}

fn write_docking_bays_part(w: &mut Vec<u8>, m: &Model) -> (r: Result<(), EncodeError>)
    ensures
        r is Ok <==> docking_bays_part_encodable(m.deep_view()),
        r is Ok ==> final(w)@ == old(w)@ + docking_bays_part(m.deep_view()),
{
    reveal(docking_bays_part);
    reveal(docking_bays_part_encodable);
    write_chunk_vec::<Dock>(w, TAG_DOCK, &m.docking_bays, m.version)
}

/// The chunk of the insignias; none if the list is empty.
#[verifier::opaque]
pub open spec fn insignias_part(m: SpecModel) -> Seq<u8> {
    list_chunk::<Insignia>(TAG_INSG, m.insignias, m.version)
}

#[verifier::opaque]
pub open spec fn insignias_part_encodable(m: SpecModel) -> bool {
    list_chunk_encodable::<Insignia>(m.insignias, m.version)
}

fn write_insignias_part(w: &mut Vec<u8>, m: &Model) -> (r: Result<(), EncodeError>)
    ensures
        r is Ok <==> insignias_part_encodable(m.deep_view()),
        r is Ok ==> final(w)@ == old(w)@ + insignias_part(m.deep_view()),
{
    reveal(insignias_part);
    reveal(insignias_part_encodable);
    write_chunk_vec::<Insignia>(w, TAG_INSG, &m.insignias, m.version)
}

/// The tag of the shield tree chunk in a revision.
pub open spec fn shield_tree_tag(v: Version) -> u32 {
    if v.wide_shield_tags() {
        TAG_SLC2
    } else {
        TAG_SLDC
    }
}

/// The shield mesh chunk: the vertices and the triangles.
pub open spec fn shield_mesh_chunk(d: SpecShieldData, v: Version) -> Seq<u8> {
    chunk_of(TAG_SHLD, list_bytes::<Vec3d>(d.verts, v) + list_bytes::<ShieldPolygon>(d.polygons, v))
}

/// The shield tree chunk: the length of the tree's buffer and the
/// buffer. There is none if the model has no tree or the revision stores
/// none.
pub open spec fn shield_tree_chunk(d: SpecShieldData, v: Version) -> Seq<u8> {
    match d.collision_tree {
        Some(t) => if v.stores_shield_tree() {
            chunk_of(
                shield_tree_tag(v),
                u32_bytes(shield_node_bytes(t, v.narrow_shield_tags()).len() as u32) + shield_node_bytes(
                    t,
                    v.narrow_shield_tags(),
                ),
            )
        } else {
            Seq::empty()
        },
        None => Seq::empty(),
    }
}

/// The chunks of the shield, if the model has one.
#[verifier::opaque]
pub open spec fn shield_part(m: SpecModel) -> Seq<u8> {
    match m.shield_data {
        Some(d) => shield_mesh_chunk(d, m.version) + shield_tree_chunk(d, m.version),
        None => Seq::empty(),
    }
}

/// Whether the shield mesh fits its chunk.
pub open spec fn shield_mesh_encodable(d: SpecShieldData, v: Version) -> bool {
    &&& d.verts.len() <= u32::MAX
    &&& d.polygons.len() <= u32::MAX
    &&& (list_bytes::<Vec3d>(d.verts, v) + list_bytes::<ShieldPolygon>(d.polygons, v)).len()
        <= u32::MAX
}

/// Whether the shield tree, where the revision stores it, fits its chunk.
pub open spec fn shield_tree_encodable(d: SpecShieldData, v: Version) -> bool {
    d.collision_tree matches Some(t) ==> (v.stores_shield_tree() ==> shield_node_encodable(
        t,
        v.narrow_shield_tags(),
    ) && shield_node_bytes(t, v.narrow_shield_tags()).len() + 4 <= u32::MAX)
}

#[verifier::opaque]
pub open spec fn shield_part_encodable(m: SpecModel) -> bool {
    m.shield_data matches Some(d) ==> shield_mesh_encodable(d, m.version) && shield_tree_encodable(
        d,
        m.version,
    )
}

fn write_shield_mesh(w: &mut Vec<u8>, d: &ShieldData, v: Version) -> (r: Result<(), EncodeError>)
    ensures
        r is Ok <==> shield_mesh_encodable(d.deep_view(), v),
        r is Ok ==> final(w)@ == old(w)@ + shield_mesh_chunk(d.deep_view(), v),
        r is Err ==> final(w)@ == old(w)@,
{
    let mut buf: Vec<u8> = Vec::new();
    assert(d.verts.deep_view() =~= d.verts@);
    assert(d.polygons.deep_view() =~= d.polygons@);
    match d.verts.write_to(&mut buf, v) {
        Err(e) => {
            return Err(e);
        },
        Ok(()) => {},
    }
    match d.polygons.write_to(&mut buf, v) {
        Err(e) => {
            return Err(e);
        },
        Ok(()) => {},
    }
    assert(buf@ =~= list_bytes::<Vec3d>(d.verts@, v) + list_bytes::<ShieldPolygon>(d.polygons@, v));
    write_chunk_raw(w, TAG_SHLD, &buf)
}

fn write_shield_tree(w: &mut Vec<u8>, d: &ShieldData, v: Version) -> (r: Result<(), EncodeError>)
    ensures
        r is Ok <==> shield_tree_encodable(d.deep_view(), v),
        r is Ok ==> final(w)@ == old(w)@ + shield_tree_chunk(d.deep_view(), v),
        r is Err ==> final(w)@ == old(w)@,
{
    match &d.collision_tree {
        Some(t) => {
            if !v.stores_shield_tree() {
                assert(w@ + Seq::<u8>::empty() =~= w@);
                return Ok(());
            }
            let narrow = !v.wide_shield_tags();
            let mut tree: Vec<u8> = Vec::new();
            match write_shield_node(&mut tree, t, narrow) {
                Err(e) => {
                    return Err(e);
                },
                Ok(()) => {},
            }
            assert(tree@ =~= shield_node_bytes(t.deep_view(), narrow));
            if tree.len() > 0xffff_ffff - 4 {
                return Err(EncodeError::Unrepresentable);
            }
            let mut buf: Vec<u8> = Vec::new();
            write_u32(&mut buf, tree.len() as u32);
            write_bytes(&mut buf, tree.as_slice());
            assert(buf@ =~= u32_bytes(tree@.len() as u32) + tree@);
            let tag = if v.wide_shield_tags() {
                TAG_SLC2
            } else {
                TAG_SLDC
            };
            write_chunk_raw(w, tag, &buf)
        },
        None => {
            assert(w@ + Seq::<u8>::empty() =~= w@);
            Ok(())
        },
    }
}

fn write_shield_part(w: &mut Vec<u8>, m: &Model) -> (r: Result<(), EncodeError>)
    ensures
        r is Ok <==> shield_part_encodable(m.deep_view()),
        r is Ok ==> final(w)@ == old(w)@ + shield_part(m.deep_view()),
{
    reveal(shield_part);
    reveal(shield_part_encodable);
    match &m.shield_data {
        Some(d) => {
            match write_shield_mesh(w, d, m.version) {
                Err(e) => {
                    return Err(e);
                },
                Ok(()) => {},
            }
            match write_shield_tree(w, d, m.version) {
                Err(e) => {
                    return Err(e);
                },
                Ok(()) => {},
            }
            assert(w@ =~= old(w)@ + (shield_mesh_chunk(d.deep_view(), m.version) + shield_tree_chunk(
                d.deep_view(),
                m.version,
            )));
            Ok(())
        },
        None => {
            assert(w@ + Seq::<u8>::empty() =~= w@);
            Ok(())
        },
    }
}

/// Whether a point is the origin: each coordinate is a zero, of either
/// sign.
pub open spec fn is_origin(p: Vec3d) -> bool {
    scalar_key(p.x) == 0 && scalar_key(p.y) == 0 && scalar_key(p.z) == 0
}

/// The visual centre chunk. There is none if the visual centre is the
/// origin.
#[verifier::opaque]
pub open spec fn visual_center_part(m: SpecModel) -> Seq<u8> {
    if is_origin(m.visual_center) {
        Seq::empty()
    } else {
        chunk_of(TAG_ACEN, vec3d_bytes(m.visual_center))
    }
}

fn write_visual_center_part(w: &mut Vec<u8>, m: &Model)
    ensures
        final(w)@ == old(w)@ + visual_center_part(m.deep_view()),
{
    reveal(visual_center_part);
    let c = m.visual_center;
    let origin = scalar_le(c.x, 0) && scalar_le(0, c.x) && scalar_le(c.y, 0) && scalar_le(0, c.y)
        && scalar_le(c.z, 0) && scalar_le(0, c.z);
    if origin {
        assert(w@ + Seq::<u8>::empty() =~= w@);
    } else {
        write_u32(w, TAG_ACEN);
        write_u32(w, 12);
        write_vec3d(w, c);
        assert(w@ =~= old(w)@ + chunk_of(TAG_ACEN, vec3d_bytes(c)));
    }
}

fn write_head_part(w: &mut Vec<u8>)
    ensures
        final(w)@ == old(w)@ + head_part(),
{
    write_u32(w, MAGIC);
    write_i32(w, Version::newest().to_i32());
    assert(w@ =~= old(w)@ + head_part());
}

/// The bytes of a file.
pub open spec fn model_bytes(m: SpecModel) -> Seq<u8> {
    head_part() + header_part(m) + subobjects_part(m) + textures_part(m) + paths_part(m) + special_points_part(m) + eye_points_part(m) + primary_weps_part(m) + secondary_weps_part(m) + turrets_part(m) + thruster_banks_part(m) + glow_banks_part(m) + comments_part(m) + docking_bays_part(m) + insignias_part(m) + shield_part(m) + visual_center_part(m)
}

/// Whether a model can be written: every count, size and index fits the
/// field that the layout of the model's revision gives it, and the
/// parents of every subobject end.
pub open spec fn model_encodable(m: SpecModel) -> bool {
    &&& header_part_encodable(m)
    &&& subobjects_part_encodable(m)
    &&& textures_part_encodable(m)
    &&& paths_part_encodable(m)
    &&& special_points_part_encodable(m)
    &&& eye_points_part_encodable(m)
    &&& primary_weps_part_encodable(m)
    &&& secondary_weps_part_encodable(m)
    &&& turrets_part_encodable(m)
    &&& thruster_banks_part_encodable(m)
    &&& glow_banks_part_encodable(m)
    &&& comments_part_encodable(m)
    &&& docking_bays_part_encodable(m)
    &&& insignias_part_encodable(m)
    &&& shield_part_encodable(m)
}

/// The parts of a file, one after the other.
proof fn lemma_parts(
    pre: Seq<u8>,
    p0: Seq<u8>,
    p1: Seq<u8>,
    p2: Seq<u8>,
    p3: Seq<u8>,
    p4: Seq<u8>,
    p5: Seq<u8>,
    p6: Seq<u8>,
    p7: Seq<u8>,
    p8: Seq<u8>,
    p9: Seq<u8>,
    p10: Seq<u8>,
    p11: Seq<u8>,
    p12: Seq<u8>,
    p13: Seq<u8>,
    p14: Seq<u8>,
    p15: Seq<u8>,
    p16: Seq<u8>,
)
    ensures
        pre + p0 + p1 + p2 + p3 + p4 + p5 + p6 + p7 + p8 + p9 + p10 + p11 + p12 + p13 + p14 + p15 + p16 == pre + (p0 + p1 + p2 + p3 + p4 + p5 + p6 + p7 + p8 + p9 + p10 + p11 + p12 + p13 + p14 + p15 + p16),
{
    assert(pre + p0 + p1 + p2 + p3 + p4 + p5 + p6 + p7 + p8 + p9 + p10 + p11 + p12 + p13 + p14 + p15 + p16 =~= pre + (p0 + p1 + p2 + p3 + p4 + p5 + p6 + p7 + p8 + p9 + p10 + p11 + p12 + p13 + p14 + p15 + p16));
}

/// Appends the parts of the file one after the other.
fn write_parts(m: &Model, w: &mut Vec<u8>) -> (r: Result<(), EncodeError>)
    ensures
        r is Ok <==> model_encodable(m.deep_view()),
        r is Ok ==> final(w)@ == old(w)@ + model_bytes(m.deep_view()),
{
    write_head_part(w);
    match write_header_part(w, m) {
        Err(e) => {
            return Err(e);
        },
        Ok(()) => {},
    }
    match write_subobjects_part(w, m) {
        Err(e) => {
            return Err(e);
        },
        Ok(()) => {},
    }
    match write_textures_part(w, m) {
        Err(e) => {
            return Err(e);
        },
        Ok(()) => {},
    }
    match write_paths_part(w, m) {
        Err(e) => {
            return Err(e);
        },
        Ok(()) => {},
    }
    match write_special_points_part(w, m) {
        Err(e) => {
            return Err(e);
        },
        Ok(()) => {},
    }
    match write_eye_points_part(w, m) {
        Err(e) => {
            return Err(e);
        },
        Ok(()) => {},
    }
    match write_primary_weps_part(w, m) {
        Err(e) => {
            return Err(e);
        },
        Ok(()) => {},
    }
    match write_secondary_weps_part(w, m) {
        Err(e) => {
            return Err(e);
        },
        Ok(()) => {},
    }
    match write_turrets_part(w, m) {
        Err(e) => {
            return Err(e);
        },
        Ok(()) => {},
    }
    match write_thruster_banks_part(w, m) {
        Err(e) => {
            return Err(e);
        },
        Ok(()) => {},
    }
    match write_glow_banks_part(w, m) {
        Err(e) => {
            return Err(e);
        },
        Ok(()) => {},
    }
    match write_comments_part(w, m) {
        Err(e) => {
            return Err(e);
        },
        Ok(()) => {},
    }
    match write_docking_bays_part(w, m) {
        Err(e) => {
            return Err(e);
        },
        Ok(()) => {},
    }
    match write_insignias_part(w, m) {
        Err(e) => {
            return Err(e);
        },
        Ok(()) => {},
    }
    match write_shield_part(w, m) {
        Err(e) => {
            return Err(e);
        },
        Ok(()) => {},
    }
    write_visual_center_part(w, m);
    proof {
        let v = m.deep_view();
        lemma_parts(
            old(w)@,
            head_part(),
            header_part(v),
            subobjects_part(v),
            textures_part(v),
            paths_part(v),
            special_points_part(v),
            eye_points_part(v),
            primary_weps_part(v),
            secondary_weps_part(v),
            turrets_part(v),
            thruster_banks_part(v),
            glow_banks_part(v),
            comments_part(v),
            docking_bays_part(v),
            insignias_part(v),
            shield_part(v),
            visual_center_part(v),
        );
    }
    Ok(())
}

/// Encodes a model into a new buffer, in the layout of the model's
/// revision.
pub fn encode(m: &Model) -> (r: Result<Vec<u8>, EncodeError>)
    ensures
        r is Ok <==> model_encodable(m.deep_view()),
        r matches Ok(b) ==> b@ == model_bytes(m.deep_view()),
{
    let mut w: Vec<u8> = Vec::new();
    match write_parts(m, &mut w) {
        Err(e) => Err(e),
        Ok(()) => {
            assert(w@ =~= model_bytes(m.deep_view()));
            Ok(w)
        },
    }
}

impl Model {
    /// Appends the file of the model to `w`, in the layout of the
    /// model's revision. Nothing is appended if the model cannot be
    /// written.
    pub fn write(&self, w: &mut Vec<u8>) -> (r: Result<(), EncodeError>)
        ensures
            r is Ok <==> model_encodable(self.deep_view()),
            r is Ok ==> final(w)@ == old(w)@ + model_bytes(self.deep_view()),
            r is Err ==> final(w)@ == old(w)@,
    {
        match encode(self) {
            Err(e) => Err(e),
            Ok(b) => {
                write_bytes(w, b.as_slice());
                Ok(())
            },
        }
    }
}

} // verus!

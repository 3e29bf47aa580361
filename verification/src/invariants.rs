//! Lemmas about the model: each step keeps a well-formed state well formed,
//! and the searches of the model find what they are meant to find.

use vstd::prelude::*;
use crate::ids::{ClassId, InterfaceId};
use crate::model::{
    ClassModel, InterfacePointer, ObjectModel, RuntimeModel, TableModel, first_field, new_instance,
    table_wf,
};
use crate::vtable::{SlotEntry, class_factory_slots, reserved_slots};

verus! {

/// Changing the count of a live object to a positive value changes nothing
/// else, and the state stays well formed.
pub proof fn lemma_with_count_keeps_wf(s: RuntimeModel, o: usize, count: nat)
    requires
        s.wf(),
        s.is_live(o),
        count >= 1,
    ensures
        s.with_count(o, count).wf(),
        s.with_count(o, count).object(o).ref_count == count,
        forall|x: usize| s.with_count(o, count).is_live(x) == s.is_live(x),
        forall|x: usize|
            s.is_live(x) ==> #[trigger] s.with_count(o, count).controller(x) == s.controller(x),
        forall|q: InterfacePointer| #[trigger] s.with_count(o, count).valid(q) == s.valid(q),
        forall|ps: Seq<InterfacePointer>, c: usize| #[trigger]
            s.with_count(o, count).all_into(ps, c) == s.all_into(ps, c),
{
    let t = s.with_count(o, count);
    assert forall|ps: Seq<InterfacePointer>, c: usize| #[trigger]
        t.all_into(ps, c) == s.all_into(ps, c) by {
        if s.all_into(ps, c) {
            assert forall|i: int| 0 <= i < ps.len() implies t.valid(#[trigger] ps[i]) && t.controller(
                ps[i].object,
            ) == c by {
                assert(s.valid(ps[i]));
            }
        }
        if t.all_into(ps, c) {
            assert forall|i: int| 0 <= i < ps.len() implies s.valid(#[trigger] ps[i]) && s.controller(
                ps[i].object,
            ) == c by {
                assert(t.valid(ps[i]));
            }
        }
    }
    assert forall|x: usize| #[trigger] t.is_live(x) implies t.object_wf(x) by {
        assert(s.is_live(x));
        assert(s.object_wf(x));
        let obj = t.object(x);
        assert forall|k: int| 0 <= k < obj.inners.len() implies t.is_live(#[trigger] obj.inners[k])
            && t.object(obj.inners[k]).outer == Some(first_field(x)) by {
            assert(s.is_live(s.object(x).inners[k]));
        }
    }
}

/// An increment keeps the state well formed.
pub proof fn lemma_add_ref_keeps_wf(s: RuntimeModel, p: InterfacePointer)
    requires
        s.wf(),
        s.valid(p),
    ensures
        s.add_ref(p).wf(),
        s.add_ref(p).valid(p),
        s.add_ref(p).ref_count(p) == s.ref_count(p) + 1,
{
    assert(s.object_wf(p.object));
    let c = s.controller(p.object);
    lemma_with_count_keeps_wf(s, c, s.object(c).ref_count + 1);
}

/// Destroying a controlling object with the inner objects that it owns
/// keeps the state well formed, and touches no other object.
pub proof fn lemma_destroy_keeps_wf(s: RuntimeModel, c: usize)
    requires
        s.wf(),
        s.is_live(c),
        s.object(c).outer.is_none(),
    ensures
        s.destroy(c).wf(),
        !s.destroy(c).is_live(c),
        forall|x: usize|
            s.destroy(c).is_live(x) == (s.is_live(x) && s.controller(x) != c),
        forall|x: usize| #[trigger]
            s.destroy(c).is_live(x) ==> s.destroy(c).object(x) == s.object(x),
{
    let t = s.destroy(c);
    assert(s.object_wf(c));
    assert forall|x: usize| t.is_live(x) == (s.is_live(x) && s.controller(x) != c) by {
        if s.is_live(x) {
            assert(s.object_wf(x));
            if s.object(c).inners.contains(x) {
                let j = choose|j: int| 0 <= j < s.object(c).inners.len() && s.object(c).inners[j] == x;
                assert(s.is_live(s.object(c).inners[j]));
            }
        }
    }
    assert forall|x: usize| #[trigger] t.is_live(x) implies t.object_wf(x) by {
        assert(s.is_live(x));
        assert(s.object_wf(x));
        let obj = t.object(x);
        assert(obj == s.object(x));
        assert forall|k: int| 0 <= k < obj.inners.len() implies t.is_live(#[trigger] obj.inners[k])
            && t.object(obj.inners[k]).outer == Some(first_field(x)) by {
            let i = obj.inners[k];
            assert(s.is_live(i));
            assert(s.controller(i) == x);
        }
        match obj.outer {
            Some(p) => {
                assert(s.controller(x) == p.object);
                assert(s.is_live(p.object));
                assert(s.controller(p.object) == p.object);
            },
            None => {},
        }
    }
}

/// A decrement keeps the state well formed. The object behind the pointer
/// is gone afterwards exactly when the count reached 0.
pub proof fn lemma_release_keeps_wf(s: RuntimeModel, p: InterfacePointer)
    requires
        s.wf(),
        s.valid(p),
    ensures
        s.release(p).wf(),
        s.release(p).is_live(p.object) == (s.ref_count(p) > 1),
        s.ref_count(p) > 1 ==> s.release(p).valid(p) && s.release(p).ref_count(p) == s.ref_count(p) - 1,
{
    assert(s.object_wf(p.object));
    let c = s.controller(p.object);
    assert(s.object_wf(c));
    if s.object(c).ref_count > 1 {
        lemma_with_count_keeps_wf(s, c, (s.object(c).ref_count - 1) as nat);
    } else {
        lemma_destroy_keeps_wf(s, c);
    }
}

/// A pointer found among inner objects points at a field for the
/// interface, in one of them; none is found only where none of them has
/// such a field.
pub proof fn lemma_inner_field_of(s: RuntimeModel, inners: Seq<usize>, iid: InterfaceId, from: int)
    requires
        s.wf(),
        0 <= from,
        forall|k: int| 0 <= k < inners.len() ==> s.is_live(#[trigger] inners[k]),
    ensures
        match s.inner_field_of(inners, iid, from) {
            Some(q) => {
                &&& s.valid(q)
                &&& s.interface_at(q) == iid
                &&& exists|k: int| from <= k < inners.len() && inners[k] == q.object
            },
            None => forall|k: int|
                from <= k < inners.len() ==> !s.object(#[trigger] inners[k]).interfaces.contains(iid),
        },
    decreases inners.len() - from,
{
    if from < inners.len() {
        let i = inners[from];
        assert(s.is_live(i));
        assert(s.object_wf(i));
        s.object(i).interfaces.index_of_first_ensures(iid);
        if s.field_of(i, iid).is_none() {
            lemma_inner_field_of(s, inners, iid, from + 1);
            if s.inner_field_of(inners, iid, from + 1).is_none() {
                assert forall|k: int| from <= k < inners.len() implies !s.object(
                    #[trigger] inners[k],
                ).interfaces.contains(iid) by {
                    if k != from {
                        assert(from + 1 <= k);
                    }
                }
            }
        }
    }
}

/// What an object answers is a valid pointer into the logical object that
/// it is part of.
pub proof fn lemma_resolve_stays_inside(s: RuntimeModel, o: usize, iid: InterfaceId)
    requires
        s.wf(),
        s.is_live(o),
    ensures
        s.resolve(o, iid) matches Some(q) ==> s.valid(q) && s.controller(q.object) == s.controller(o),
{
    assert(s.object_wf(o));
    let c = s.controller(o);
    assert(s.object_wf(c));
    if iid != InterfaceId::spec_unknown() {
        s.object(o).interfaces.index_of_first_ensures(iid);
        if s.field_of(o, iid).is_none() {
            let inners = s.object(o).inners;
            lemma_inner_field_of(s, inners, iid, 0);
            if let Some(q) = s.inner_field_of(inners, iid, 0) {
                let k = choose|k: int| 0 <= k < inners.len() && inners[k] == q.object;
                assert(s.is_live(inners[k]));
            }
        }
    }
}

/// Allocating an object that stands on its own keeps the state well formed
/// and touches no other object.
pub proof fn lemma_push_keeps_wf(s: RuntimeModel, obj: ObjectModel)
    requires
        s.wf(),
        s.objects.len() < usize::MAX,
        obj.ref_count >= 1,
        1 <= obj.interfaces.len() <= usize::MAX,
        obj.inners.len() == 0,
        obj.outer.is_none(),
        obj.factory_of matches Some(k) ==> k < s.classes.len() && obj.interfaces
            == seq![InterfaceId::spec_class_factory()],
    ensures
        s.push(obj).wf(),
        s.push(obj).is_live(s.next_id()),
        s.push(obj).object(s.next_id()) == obj,
        !s.is_live(s.next_id()),
        forall|x: usize| x != s.next_id() ==> s.push(obj).is_live(x) == s.is_live(x),
        forall|x: usize| #[trigger] s.is_live(x) ==> s.push(obj).object(x) == s.object(x),
{
    let t = s.push(obj);
    let n = s.next_id();
    assert forall|x: usize| #[trigger] t.is_live(x) implies t.object_wf(x) by {
        if x != n {
            assert(s.is_live(x));
            assert(s.object_wf(x));
            let o = t.object(x);
            assert forall|k: int| 0 <= k < o.inners.len() implies t.is_live(#[trigger] o.inners[k])
                && t.object(o.inners[k]).outer == Some(first_field(x)) by {
                assert(s.is_live(s.object(x).inners[k]));
            }
        }
    }
}

/// Creating an instance, on its own or as the inner part of an aggregate,
/// keeps the state well formed. The new object is live, holds one
/// reference of its own, and has the fields of its class.
pub proof fn lemma_with_instance_keeps_wf(s: RuntimeModel, class: ClassModel, outer: Option<InterfacePointer>)
    requires
        s.wf(),
        s.objects.len() < usize::MAX,
        1 <= class.interfaces.len() <= usize::MAX,
        outer matches Some(op) ==> s.can_be_outer(op),
    ensures
        s.with_instance(class, outer).wf(),
        s.with_instance(class, outer).objects.len() == s.objects.len() + 1,
        s.with_instance(class, outer).is_live(s.next_id()),
        s.with_instance(class, outer).object(s.next_id()) == new_instance(
            class.interfaces,
            match outer {
                Some(op) => Some(s.identity(op.object)),
                None => None,
            },
        ),
        forall|x: usize| x != s.next_id() ==> s.with_instance(class, outer).is_live(x) == s.is_live(x),
        forall|x: usize| #[trigger]
            s.is_live(x) ==> s.with_instance(class, outer).object(x).ref_count == s.object(x).ref_count
                && s.with_instance(class, outer).object(x).interfaces == s.object(x).interfaces
                && s.with_instance(class, outer).object(x).outer == s.object(x).outer,
{
    let n = s.next_id();
    match outer {
        None => {
            lemma_push_keeps_wf(s, new_instance(class.interfaces, None));
        },
        Some(op) => {
            assert(s.object_wf(op.object));
            let c = s.controller(op.object);
            assert(s.object_wf(c));
            let t = s.with_instance(class, outer);
            assert forall|x: usize| #[trigger] t.is_live(x) implies t.object_wf(x) by {
                if x == n {
                    assert(t.object(c).inners[s.object(c).inners.len() as int] == n);
                } else {
                    assert(s.is_live(x));
                    assert(s.object_wf(x));
                    let o = t.object(x);
                    assert forall|k: int| 0 <= k < o.inners.len() implies t.is_live(
                        #[trigger] o.inners[k],
                    ) && t.object(o.inners[k]).outer == Some(first_field(x)) by {
                        if x == c && k == s.object(c).inners.len() {
                        } else {
                            assert(s.is_live(s.object(x).inners[k]));
                        }
                    }
                    if x == c {
                        assert forall|i: int, j: int|
                            0 <= i < o.inners.len() && 0 <= j < o.inners.len() && i != j implies o.inners[i]
                            != o.inners[j] by {
                            if i < s.object(c).inners.len() {
                                assert(s.is_live(s.object(c).inners[i]));
                            }
                            if j < s.object(c).inners.len() {
                                assert(s.is_live(s.object(c).inners[j]));
                            }
                        }
                    }
                    match s.object(x).outer {
                        Some(p) => {
                            let j = choose|j: int|
                                0 <= j < s.object(p.object).inners.len() && s.object(p.object).inners[j]
                                    == x;
                            assert(t.object(p.object).inners[j] == x);
                        },
                        None => {},
                    }
                }
            }
        },
    }
}

/// Destroying an aggregated object alone keeps the state well formed and
/// leaves every other object live.
pub proof fn lemma_detach_keeps_wf(s: RuntimeModel, o: usize)
    requires
        s.wf(),
        s.is_aggregated(o),
    ensures
        s.detach(o).wf(),
        forall|x: usize| s.detach(o).is_live(x) == (s.is_live(x) && x != o),
        forall|x: usize| #[trigger]
            s.detach(o).is_live(x) ==> s.detach(o).object(x).ref_count == s.object(x).ref_count
                && s.detach(o).object(x).interfaces == s.object(x).interfaces && s.detach(o).object(
                x,
            ).outer == s.object(x).outer,
{
    let t = s.detach(o);
    assert(s.object_wf(o));
    let c = s.controller(o);
    assert(s.object_wf(c));
    let old_inners = s.object(c).inners;
    old_inners.index_of_first_ensures(o);
    let at = old_inners.index_of_first(o).unwrap();
    let new_inners = old_inners.remove(at);
    assert(t.object(c).inners == new_inners);
    assert forall|x: usize| #[trigger] t.is_live(x) implies t.object_wf(x) by {
        assert(s.is_live(x));
        assert(s.object_wf(x));
        let obj = t.object(x);
        assert forall|k: int| 0 <= k < obj.inners.len() implies t.is_live(#[trigger] obj.inners[k])
            && t.object(obj.inners[k]).outer == Some(first_field(x)) by {
            if x == c {
                let k0 = if k < at { k } else { k + 1 };
                assert(new_inners[k] == old_inners[k0]);
                assert(s.is_live(old_inners[k0]));
            } else {
                assert(s.is_live(s.object(x).inners[k]));
            }
        }
        if x == c {
            assert forall|i: int, j: int|
                0 <= i < new_inners.len() && 0 <= j < new_inners.len() && i != j implies new_inners[i]
                != new_inners[j] by {
                let i0 = if i < at { i } else { i + 1 };
                let j0 = if j < at { j } else { j + 1 };
                assert(new_inners[i] == old_inners[i0]);
                assert(new_inners[j] == old_inners[j0]);
            }
        }
        match s.object(x).outer {
            Some(p) => {
                let j = choose|j: int|
                    0 <= j < s.object(p.object).inners.len() && s.object(p.object).inners[j] == x;
                if p.object == c {
                    let j1 = if j < at { j } else { j - 1 };
                    assert(new_inners[j1] == x);
                } else {
                    assert(t.object(p.object).inners[j] == x);
                }
            },
            None => {},
        }
    }
}

/// Whatever table is reached for an interface, its first three slots are
/// the identity query, the increment and the decrement.
pub proof fn lemma_reserved_slots_dispatch(s: RuntimeModel, iid: InterfaceId)
    requires
        s.wf(),
    ensures
        s.slots_of(iid).len() >= 3,
        s.slots_of(iid)[0] == SlotEntry::QueryInterface,
        s.slots_of(iid)[1] == SlotEntry::AddRef,
        s.slots_of(iid)[2] == SlotEntry::Release,
{
    let ids = s.tables.map_values(|t: TableModel| t.iid);
    ids.index_of_first_ensures(iid);
    let slots = s.slots_of(iid);
    match s.table_of(iid) {
        Some(k) => {
            assert(table_wf(s.tables[k].slots));
        },
        None => {},
    }
    assert(table_wf(slots)) by {
        assert(reserved_slots().subrange(0, 3) =~= reserved_slots());
        assert(class_factory_slots().subrange(0, 3) =~= reserved_slots());
    }
    assert(slots.subrange(0, 3)[0] == slots[0]);
    assert(slots.subrange(0, 3)[1] == slots[1]);
    assert(slots.subrange(0, 3)[2] == slots[2]);
}

/// Publishing a table leaves the table of every interface that already
/// had one, or whose table is fixed, as it was; an interface without one
/// keeps its reserved slots.
pub proof fn lemma_publish_keeps_tables(s: RuntimeModel, table: TableModel, iid: InterfaceId)
    requires
        s.wf(),
        table_wf(table.slots),
    ensures
        !s.may_publish(iid) ==> s.publish(table).slots_of(iid) == s.slots_of(iid),
        iid != table.iid ==> s.publish(table).slots_of(iid) == s.slots_of(iid),
        s.may_publish(iid) && iid == table.iid ==> s.publish(table).slots_of(iid) == table.slots,
        forall|k: int| 0 <= k < 3 ==> s.publish(table).slots_of(iid)[k] == s.slots_of(iid)[k],
        s.publish(table).slots_of(iid).len() >= s.slots_of(iid).len(),
{
    let t = s.publish(table);
    let ids = s.tables.map_values(|x: TableModel| x.iid);
    let new_ids = t.tables.map_values(|x: TableModel| x.iid);
    ids.index_of_first_ensures(iid);
    ids.index_of_first_ensures(table.iid);
    new_ids.index_of_first_ensures(iid);
    if s.may_publish(table.iid) {
        assert(new_ids =~= ids.push(table.iid));
        match s.table_of(iid) {
            Some(k) => {
                assert(new_ids[k] == iid);
                let k2 = new_ids.index_of_first(iid).unwrap();
                if k2 < k {
                    assert(ids[k2] == iid);
                }
            },
            None => {
                if iid == table.iid {
                    assert(new_ids[ids.len() as int] == iid);
                    let k2 = new_ids.index_of_first(iid).unwrap();
                    if k2 < ids.len() {
                        assert(ids[k2] == iid);
                    }
                } else {
                    if new_ids.contains(iid) {
                        let k2 = new_ids.index_of_first(iid).unwrap();
                        assert(ids[k2] == iid);
                    }
                }
            },
        }
    }
    lemma_reserved_slots_dispatch(s, iid);
    assert(t.wf()) by {
        assert forall|o: usize| #[trigger] t.is_live(o) implies t.object_wf(o) by {
            assert(s.is_live(o));
            assert(s.object_wf(o));
        }
    }
    lemma_reserved_slots_dispatch(t, iid);
}

/// The activation table holds a class exactly when the search for it
/// finds an entry, and the entry found is one for that class.
pub proof fn lemma_class_index(s: RuntimeModel, clsid: ClassId)
    ensures
        s.class_index(clsid).is_some() == s.has_class(clsid),
        s.class_index(clsid) matches Some(k) ==> 0 <= k < s.classes.len() && s.classes[k].clsid == clsid,
{
    let ids = s.classes.map_values(|c: ClassModel| c.clsid);
    ids.index_of_first_ensures(clsid);
    if s.has_class(clsid) {
        let k = choose|k: int| 0 <= k < s.classes.len() && (#[trigger] s.classes[k]).clsid == clsid;
        assert(ids[k] == clsid);
    }
    if let Some(k) = s.class_index(clsid) {
        assert(ids[k] == clsid);
        assert(s.classes[k].clsid == clsid);
    }
}

} // verus!

//! The laws of the object model, proved about the mathematical model that
//! the runtime's operations are specified by.

use vstd::prelude::*;
use crate::ids::{ClassId, InterfaceId};
use crate::invariants::{
    lemma_add_ref_keeps_wf, lemma_destroy_keeps_wf, lemma_detach_keeps_wf, lemma_inner_field_of,
    lemma_push_keeps_wf, lemma_resolve_stays_inside, lemma_with_count_keeps_wf,
    lemma_with_instance_keeps_wf,
};
use crate::model::{
    ClassModel, InterfacePointer, ObjectModel, RuntimeModel, first_field, new_factory, new_instance,
    report,
};
use crate::status::ComError;

verus! {

/// Identity rule: asked for the identity interface, an object gives the same
/// pointer whichever of its interface pointers the question comes through.
pub proof fn law_identity_is_unique(s: RuntimeModel, p: InterfacePointer, q: InterfacePointer)
    requires
        s.wf(),
        s.valid(p),
        s.valid(q),
        p.object == q.object,
    ensures
        s.query_result(p, InterfaceId::spec_unknown()) == s.query_result(q, InterfaceId::spec_unknown()),
        s.query_result(p, InterfaceId::spec_unknown()) == Some(s.identity(p.object)),
        s.valid(s.identity(p.object)),
{
    assert(s.object_wf(p.object));
    assert(s.object_wf(s.controller(p.object)));
}

/// The identity that a query hands out is itself a pointer that answers
/// with the same identity: asking again changes nothing.
pub proof fn law_identity_is_canonical(s: RuntimeModel, p: InterfacePointer)
    requires
        s.wf(),
        s.valid(p),
    ensures
        s.query_result(s.identity(p.object), InterfaceId::spec_unknown()) == Some(s.identity(p.object)),
{
    assert(s.object_wf(p.object));
    assert(s.object_wf(s.controller(p.object)));
}

/// An increment followed at once by a decrement leaves the state as it was:
/// the count is unchanged and the object is not destroyed.
pub proof fn law_add_ref_then_release(s: RuntimeModel, p: InterfacePointer)
    requires
        s.wf(),
        s.valid(p),
    ensures
        s.add_ref(p).release(p) == s,
        s.add_ref(p).release(p).valid(p),
        s.add_ref(p).release(p).ref_count(p) == s.ref_count(p),
{
    assert(s.object_wf(p.object));
    let c = s.controller(p.object);
    assert(s.add_ref(p).release(p).objects =~= s.objects);
}

/// Increments through pointers into one logical object count up and
/// change nothing else.
pub proof fn law_add_refs_count_up(s: RuntimeModel, ps: Seq<InterfacePointer>, c: usize)
    requires
        s.wf(),
        s.is_live(c),
        s.all_into(ps, c),
    ensures
        s.add_refs(ps) == s.with_count(c, s.object(c).ref_count + ps.len()),
        s.add_refs(ps).wf(),
    decreases ps.len(),
{
    let count = s.object(c).ref_count;
    lemma_with_count_keeps_wf(s, c, count + ps.len());
    if ps.len() == 0 {
        assert(s.objects =~= s.with_count(c, count).objects);
    } else {
        let t = s.add_ref(ps.first());
        let rest = ps.drop_first();
        assert(s.valid(ps[0]));
        lemma_with_count_keeps_wf(s, c, count + 1);
        assert(t.all_into(ps, c));
        assert(t.all_into(rest, c)) by {
            assert forall|i: int| 0 <= i < rest.len() implies t.valid(#[trigger] rest[i]) && t.controller(
                rest[i].object,
            ) == c by {
                assert(t.valid(ps[i + 1]));
            }
        }
        law_add_refs_count_up(t, rest, c);
        assert(t.with_count(c, count + 1 + rest.len()).objects =~= s.with_count(
            c,
            count + ps.len(),
        ).objects);
    }
}

/// Decrements through pointers into one logical object count down: while
/// fewer decrements are made than references are held, they lower the count
/// by their number and change nothing else, so that the object lives on.
pub proof fn law_releases_count_down(s: RuntimeModel, ps: Seq<InterfacePointer>, c: usize)
    requires
        s.wf(),
        s.is_live(c),
        s.all_into(ps, c),
        ps.len() < s.object(c).ref_count,
    ensures
        s.releases(ps) == s.with_count(c, (s.object(c).ref_count - ps.len()) as nat),
        s.releases(ps).wf(),
        s.releases(ps).is_live(c),
        s.releases(ps).all_into(ps, c),
    decreases ps.len(),
{
    let count = s.object(c).ref_count;
    lemma_with_count_keeps_wf(s, c, (count - ps.len()) as nat);
    if ps.len() == 0 {
        assert(s.objects =~= s.with_count(c, count).objects);
    } else {
        let t = s.release(ps.first());
        let rest = ps.drop_first();
        assert(s.valid(ps[0]));
        lemma_with_count_keeps_wf(s, c, (count - 1) as nat);
        assert(t.all_into(ps, c));
        assert(t.all_into(rest, c)) by {
            assert forall|i: int| 0 <= i < rest.len() implies t.valid(#[trigger] rest[i]) && t.controller(
                rest[i].object,
            ) == c by {
                assert(t.valid(ps[i + 1]));
            }
        }
        law_releases_count_down(t, rest, c);
        assert(t.with_count(c, (count - 1 - rest.len()) as nat).objects =~= s.with_count(
            c,
            (count - ps.len()) as nat,
        ).objects);
    }
}

/// Decrements made one after the other are the decrements of a first part
/// followed by those of the rest.
pub proof fn lemma_releases_split(s: RuntimeModel, ps: Seq<InterfacePointer>, k: int)
    requires
        0 <= k <= ps.len(),
    ensures
        s.releases(ps) == s.releases(ps.take(k)).releases(ps.skip(k)),
    decreases k,
{
    if k == 0 {
        assert(ps.skip(0) =~= ps);
        assert(ps.take(0).len() == 0);
    } else {
        let t = s.release(ps.first());
        let rest = ps.drop_first();
        lemma_releases_split(t, rest, k - 1);
        assert(ps.take(k).first() == ps.first());
        assert(ps.take(k).drop_first() =~= rest.take(k - 1));
        assert(ps.skip(k) =~= rest.skip(k - 1));
    }
}

/// When as many decrements are made as references are held, all through
/// pointers into one logical object and in whichever order, the object
/// lives through all but the last of them and is destroyed inside the
/// last: the outcome is the destruction of the object, once.
pub proof fn law_last_release_destroys(s: RuntimeModel, ps: Seq<InterfacePointer>, c: usize)
    requires
        s.wf(),
        s.is_live(c),
        s.all_into(ps, c),
        ps.len() == s.object(c).ref_count,
    ensures
        forall|k: int|
            0 <= k < ps.len() ==> #[trigger] s.releases(ps.take(k)) == s.with_count(
                c,
                (ps.len() - k) as nat,
            ),
        forall|k: int| 0 <= k < ps.len() ==> (#[trigger] s.releases(ps.take(k))).all_into(ps, c),
        s.releases(ps) == s.destroy(c),
        s.releases(ps).wf(),
        !s.releases(ps).is_live(c),
        forall|i: int| 0 <= i < ps.len() ==> !s.releases(ps).valid(#[trigger] ps[i]),
{
    let n = ps.len() as int;
    let count = s.object(c).ref_count;
    assert(s.object_wf(c));
    assert forall|k: int| 0 <= k < n implies #[trigger] s.releases(ps.take(k)) == s.with_count(
        c,
        (n - k) as nat,
    ) && s.releases(ps.take(k)).all_into(ps, c) by {
        lemma_into_prefix(s, ps, c, k);
        law_releases_count_down(s, ps.take(k), c);
        lemma_with_count_keeps_wf(s, c, (n - k) as nat);
    }
    let last = ps[n - 1];
    let t = s.releases(ps.take(n - 1));
    assert(t == s.with_count(c, 1));
    lemma_with_count_keeps_wf(s, c, 1);
    lemma_releases_split(s, ps, n - 1);
    assert(ps.skip(n - 1) =~= seq![last]);
    assert(t.releases(seq![last]) == t.release(last)) by {
        reveal_with_fuel(RuntimeModel::releases, 2);
        assert(seq![last].first() == last);
        assert(seq![last].drop_first().len() == 0);
    }
    assert(s.valid(ps[n - 1]));
    assert(t.valid(last) && t.controller(last.object) == c);
    assert(t.release(last) == t.destroy(c));
    assert(t.destroy(c).objects =~= s.destroy(c).objects);
    assert(s.object(c).outer.is_none()) by {
        assert(s.object_wf(last.object));
    }
    lemma_destroy_keeps_wf(s, c);
    assert forall|i: int| 0 <= i < n implies !s.releases(ps).valid(#[trigger] ps[i]) by {
        assert(s.valid(ps[i]));
    }
}

/// The start of a run of pointers into one logical object is such a run.
pub proof fn lemma_into_prefix(s: RuntimeModel, ps: Seq<InterfacePointer>, c: usize, k: int)
    requires
        s.all_into(ps, c),
        0 <= k <= ps.len(),
    ensures
        s.all_into(ps.take(k), c),
{
    let init = ps.take(k);
    assert forall|i: int| 0 <= i < init.len() implies s.valid(#[trigger] init[i]) && s.controller(
        init[i].object,
    ) == c by {
        assert(s.valid(ps[i]));
    }
}

/// The lifetime of an object: once it holds its creation reference alone
/// and `n` increments were made, it takes exactly `n + 1` decrements to
/// destroy it. Through whichever pointers into the object they are made, and
/// in whichever order, the object lives through the first `n` of them and is
/// destroyed inside the last.
pub proof fn law_lifetime_is_balanced(
    s: RuntimeModel,
    incs: Seq<InterfacePointer>,
    decs: Seq<InterfacePointer>,
    c: usize,
)
    requires
        s.wf(),
        s.is_live(c),
        s.object(c).ref_count == 1,
        s.all_into(incs, c),
        s.all_into(decs, c),
        decs.len() == incs.len() + 1,
    ensures
        s.add_refs(incs) == s.with_count(c, incs.len() + 1),
        forall|k: int|
            0 <= k < decs.len() ==> #[trigger] s.add_refs(incs).releases(decs.take(k)) == s.with_count(
                c,
                (decs.len() - k) as nat,
            ),
        forall|k: int|
            0 <= k < decs.len() ==> (#[trigger] s.add_refs(incs).releases(decs.take(k))).is_live(c),
        s.add_refs(incs).releases(decs) == s.destroy(c),
        !s.add_refs(incs).releases(decs).is_live(c),
        s.add_refs(incs).releases(decs).wf(),
{
    let t = s.add_refs(incs);
    law_add_refs_count_up(s, incs, c);
    lemma_with_count_keeps_wf(s, c, incs.len() + 1);
    law_last_release_destroys(t, decs, c);
    assert forall|k: int| 0 <= k < decs.len() implies #[trigger] t.releases(decs.take(k))
        == s.with_count(c, (decs.len() - k) as nat) && t.releases(decs.take(k)).is_live(c) by {
        assert(t.with_count(c, (decs.len() - k) as nat).objects =~= s.with_count(
            c,
            (decs.len() - k) as nat,
        ).objects);
        lemma_with_count_keeps_wf(s, c, (decs.len() - k) as nat);
    }
    assert(t.destroy(c).objects =~= s.destroy(c).objects);
    assert(s.object(c).outer.is_none()) by {
        assert(s.valid(decs[0]));
        assert(s.object_wf(decs[0].object));
    }
    lemma_destroy_keeps_wf(s, c);
}

/// A query is answered exactly when the logical object implements the
/// interface. The answer points at a field for that interface, or is the
/// object's identity where the identity interface was asked for. A query
/// that is not answered reports `NoSuchInterface` and leaves the state,
/// and so every count, as it was.
pub proof fn law_query_answers_what_is_implemented(s: RuntimeModel, p: InterfacePointer, iid: InterfaceId)
    requires
        s.wf(),
        s.valid(p),
    ensures
        s.query_result(p, iid).is_some() == s.implements(s.controller(p.object), iid),
        s.query_result(p, iid) matches Some(q) ==> {
            &&& s.valid(q)
            &&& s.controller(q.object) == s.controller(p.object)
            &&& iid == InterfaceId::spec_unknown() ==> q == s.identity(p.object)
            &&& iid != InterfaceId::spec_unknown() ==> s.interface_at(q) == iid
        },
        s.query_result(p, iid).is_none() ==> {
            &&& report(s.query_result(p, iid)) == Err::<InterfacePointer, ComError>(ComError::NoSuchInterface)
            &&& s.after_answer(s.query_result(p, iid)) == s
        },
{
    assert(s.object_wf(p.object));
    let c = s.controller(p.object);
    assert(s.object_wf(c));
    lemma_resolve_stays_inside(s, c, iid);
    if iid != InterfaceId::spec_unknown() {
        s.object(c).interfaces.index_of_first_ensures(iid);
        if s.field_of(c, iid).is_none() {
            let inners = s.object(c).inners;
            lemma_inner_field_of(s, inners, iid, 0);
            if let Some(q) = s.inner_field_of(inners, iid, 0) {
                let k = choose|k: int| 0 <= k < inners.len() && inners[k] == q.object;
                assert(s.object(inners[k]).interfaces.contains(iid));
            }
        }
    }
}

/// An aggregated object never shows an identity of its own: asked for the
/// identity interface it answers with the identity pointer of its
/// controlling object, through each of its interface pointers and on its
/// private surface alike, and that is also what the controlling object
/// answers for itself.
pub proof fn law_aggregate_has_one_identity(s: RuntimeModel, o: usize, p: InterfacePointer)
    requires
        s.wf(),
        s.is_aggregated(o),
        s.valid(p),
        p.object == o,
    ensures
        s.object(o).outer == Some(first_field(s.controller(o))),
        s.resolve(o, InterfaceId::spec_unknown()) == s.object(o).outer,
        s.query_result(p, InterfaceId::spec_unknown()) == s.object(o).outer,
        s.query_result(first_field(s.controller(o)), InterfaceId::spec_unknown()) == s.object(o).outer,
        s.valid(first_field(s.controller(o))),
        s.controller(o) != o,
{
    assert(s.object_wf(o));
    assert(s.object_wf(s.controller(o)));
}

/// The increments and decrements of an aggregated object act on the count
/// of its controlling object.
pub proof fn law_aggregate_forwards_counting(s: RuntimeModel, p: InterfacePointer)
    requires
        s.wf(),
        s.valid(p),
        s.is_aggregated(p.object),
    ensures
        s.add_ref(p) == s.add_ref(first_field(s.controller(p.object))),
        s.release(p) == s.release(first_field(s.controller(p.object))),
        s.add_ref(p).object(p.object).ref_count == s.object(p.object).ref_count,
{
    assert(s.object_wf(p.object));
    assert(s.object_wf(s.controller(p.object)));
}

/// A factory refuses to build the inner part of an aggregate from a class
/// that cannot be aggregated: the result is `AggregationNotSupported`,
/// nothing is allocated and no count changes.
pub proof fn law_create_instance_refuses_aggregation(
    s: RuntimeModel,
    fp: InterfacePointer,
    outer: InterfacePointer,
    iid: InterfaceId,
)
    requires
        s.wf(),
        s.is_factory(fp),
        !s.class_of(fp).aggregable,
    ensures
        s.create_instance_result(fp, Some(outer), iid) == Err::<InterfacePointer, ComError>(
            ComError::AggregationNotSupported,
        ),
        s.create_instance(fp, Some(outer), iid) == s,
{
}

/// CreateInstance without an outer object succeeds exactly when the class
/// has the interface asked for. On success the instance is a new live
/// object with the fields of its class, the returned pointer is one of its
/// own, and exactly one reference to it is outstanding. On failure the
/// result is `NoSuchInterface` and the instance is gone again. Either way
/// no object that existed before is touched.
pub proof fn law_create_instance_alone(s: RuntimeModel, fp: InterfacePointer, iid: InterfaceId)
    requires
        s.wf(),
        s.is_factory(fp),
        s.objects.len() < usize::MAX,
    ensures
        s.create_instance(fp, None, iid).wf(),
        s.create_instance(fp, None, iid).objects.len() == s.objects.len() + 1,
        s.create_instance_result(fp, None, iid).is_ok() == (iid == InterfaceId::spec_unknown()
            || s.class_of(fp).interfaces.contains(iid)),
        s.create_instance_result(fp, None, iid) matches Ok(q) ==> {
            &&& q.object == s.next_id()
            &&& s.create_instance(fp, None, iid).valid(q)
            &&& s.create_instance(fp, None, iid).ref_count(q) == 1
            &&& s.create_instance(fp, None, iid).object(q.object) == new_instance(
                s.class_of(fp).interfaces,
                None,
            )
            &&& iid == InterfaceId::spec_unknown() ==> q == first_field(s.next_id())
            &&& iid != InterfaceId::spec_unknown() ==> s.create_instance(fp, None, iid).interface_at(q)
                == iid
        },
        s.create_instance_result(fp, None, iid) matches Err(e) ==> {
            &&& e == ComError::NoSuchInterface
            &&& !s.create_instance(fp, None, iid).is_live(s.next_id())
        },
        forall|x: usize|
            x != s.next_id() ==> s.create_instance(fp, None, iid).is_live(x) == s.is_live(x),
        forall|x: usize| #[trigger]
            s.is_live(x) ==> s.create_instance(fp, None, iid).object(x) == s.object(x),
{
    assert(s.object_wf(fp.object));
    let class = s.class_of(fp);
    let n = s.next_id();
    let inst = new_instance(class.interfaces, None);
    lemma_push_keeps_wf(s, inst);
    lemma_fresh_object_round_trip(s, inst, iid);
    let created = s.push(inst);
    class.interfaces.index_of_first_ensures(iid);
}

/// Allocating an object that stands on its own with its creation
/// reference, asking it for an interface and then giving the creation
/// reference up leaves the object with one reference where it answered,
/// and destroys it where it did not. No other object is touched.
pub proof fn lemma_fresh_object_round_trip(s: RuntimeModel, obj: ObjectModel, iid: InterfaceId)
    requires
        s.wf(),
        s.objects.len() < usize::MAX,
        obj.ref_count == 1,
        1 <= obj.interfaces.len() <= usize::MAX,
        obj.inners.len() == 0,
        obj.outer.is_none(),
        obj.factory_of matches Some(k) ==> k < s.classes.len() && obj.interfaces
            == seq![InterfaceId::spec_class_factory()],
    ensures
        ({
            let created = s.push(obj);
            let answer = created.resolve(s.next_id(), iid);
            let t = created.after_answer(answer).release(first_field(s.next_id()));
            &&& t.wf()
            &&& t.objects.len() == s.objects.len() + 1
            &&& answer.is_some() == (iid == InterfaceId::spec_unknown() || obj.interfaces.contains(iid))
            &&& answer matches Some(q) ==> {
                &&& q.object == s.next_id()
                &&& t == created
                &&& created.valid(q)
                &&& iid == InterfaceId::spec_unknown() ==> q == first_field(s.next_id())
                &&& iid != InterfaceId::spec_unknown() ==> created.interface_at(q) == iid
            }
            &&& answer.is_none() ==> !t.is_live(s.next_id())
            &&& forall|x: usize| x != s.next_id() ==> t.is_live(x) == s.is_live(x)
            &&& forall|x: usize| #[trigger] s.is_live(x) ==> t.object(x) == s.object(x)
        }),
{
    let n = s.next_id();
    let created = s.push(obj);
    lemma_push_keeps_wf(s, obj);
    let answer = created.resolve(n, iid);
    assert(created.object_wf(n));
    lemma_resolve_stays_inside(created, n, iid);
    obj.interfaces.index_of_first_ensures(iid);
    assert(created.inner_field_of(obj.inners, iid, 0).is_none());
    let p = first_field(n);
    match answer {
        Some(q) => {
            law_add_ref_then_release(created, q);
            assert(created.add_ref(q).release(p) == created.add_ref(q).release(q));
        },
        None => {
            lemma_destroy_keeps_wf(created, n);
            assert(created.release(p) == created.destroy(n));
            let t = created.destroy(n);
            assert forall|x: usize| x != n implies t.is_live(x) == s.is_live(x) by {
                if created.is_live(x) {
                    assert(created.object_wf(x));
                }
            }
            assert forall|x: usize| #[trigger] s.is_live(x) implies t.object(x) == s.object(x) by {
                assert(created.is_live(x));
                assert(created.object_wf(x));
            }
        },
    }
}

/// GetClassObject fails with `ClassNotAvailable`, and changes nothing,
/// exactly when the activation table does not hold the class. For a class
/// that it holds, a new factory is handed out exactly when the identity
/// interface or the factory interface is asked for: the caller then holds
/// the one outstanding reference to it. For any other interface the result
/// is `NoSuchInterface` and the factory is gone again. No object that
/// existed before is touched.
pub proof fn law_get_class_object(s: RuntimeModel, clsid: ClassId, iid: InterfaceId)
    requires
        s.wf(),
        s.has_class(clsid) ==> s.objects.len() < usize::MAX,
    ensures
        s.get_class_object(clsid, iid).wf(),
        (s.get_class_object_result(clsid, iid) == Err::<InterfacePointer, ComError>(
            ComError::ClassNotAvailable,
        )) == !s.has_class(clsid),
        s.get_class_object_result(clsid, iid) == Err::<InterfacePointer, ComError>(
            ComError::ClassNotAvailable,
        ) ==> s.get_class_object(clsid, iid) == s,
        s.get_class_object_result(clsid, iid).is_ok() == (s.has_class(clsid) && (iid
            == InterfaceId::spec_unknown() || iid == InterfaceId::spec_class_factory())),
        s.get_class_object_result(clsid, iid) matches Ok(q) ==> {
            &&& q == first_field(s.next_id())
            &&& s.get_class_object(clsid, iid).is_factory(q)
            &&& s.get_class_object(clsid, iid).class_of(q).clsid == clsid
            &&& s.get_class_object(clsid, iid).ref_count(q) == 1
        },
        s.get_class_object_result(clsid, iid) == Err::<InterfacePointer, ComError>(
            ComError::NoSuchInterface,
        ) ==> !s.get_class_object(clsid, iid).is_live(s.next_id()),
        forall|x: usize| x != s.next_id() ==> s.get_class_object(clsid, iid).is_live(x) == s.is_live(x),
        forall|x: usize| #[trigger] s.is_live(x) ==> s.get_class_object(clsid, iid).object(x) == s.object(x),
{
    let ids = s.classes.map_values(|c: ClassModel| c.clsid);
    ids.index_of_first_ensures(clsid);
    crate::invariants::lemma_class_index(s, clsid);
    match s.class_index(clsid) {
        Some(k) => {
            assert(ids[k] == clsid);
            assert(s.classes[k].clsid == clsid);
            let obj = new_factory(k as usize);
            lemma_fresh_object_round_trip(s, obj, iid);
            obj.interfaces.index_of_first_ensures(iid);
            assert(obj.interfaces[0] == InterfaceId::spec_class_factory());
        },
        None => {
            assert forall|k: int| 0 <= k < s.classes.len() implies (#[trigger] s.classes[k]).clsid
                != clsid by {
                assert(ids[k] == s.classes[k].clsid);
            }
        },
    }
}

/// CreateInstance with an outer object, for a class that can be
/// aggregated, succeeds exactly when the new inner object has an answer
/// for the interface. On success the inner object is live, linked to the
/// identity of the controlling object and owned by it, and the pointer
/// handed out counts as one more reference to the aggregate. On failure
/// the result is `NoSuchInterface`, the inner object is gone again, and
/// the aggregate is as it was.
pub proof fn law_create_instance_aggregated(
    s: RuntimeModel,
    fp: InterfacePointer,
    outer: InterfacePointer,
    iid: InterfaceId,
)
    requires
        s.wf(),
        s.is_factory(fp),
        s.class_of(fp).aggregable,
        s.can_be_outer(outer),
        s.objects.len() < usize::MAX,
    ensures
        s.create_instance(fp, Some(outer), iid).wf(),
        s.create_instance_result(fp, Some(outer), iid).is_ok() == (iid == InterfaceId::spec_unknown()
            || s.class_of(fp).interfaces.contains(iid)),
        s.create_instance_result(fp, Some(outer), iid) matches Ok(q) ==> {
            let t = s.create_instance(fp, Some(outer), iid);
            &&& t.valid(q)
            &&& t.is_aggregated(s.next_id())
            &&& t.object(s.next_id()).outer == Some(s.identity(outer.object))
            &&& t.object(s.next_id()).ref_count == 1
            &&& t.object(s.controller(outer.object)).inners == s.object(
                s.controller(outer.object),
            ).inners.push(s.next_id())
            &&& t.ref_count(q) == s.ref_count(outer) + 1
            &&& iid == InterfaceId::spec_unknown() ==> q == s.identity(outer.object)
            &&& iid != InterfaceId::spec_unknown() ==> q.object == s.next_id() && t.interface_at(q) == iid
        },
        s.create_instance_result(fp, Some(outer), iid) matches Err(e) ==> {
            let t = s.create_instance(fp, Some(outer), iid);
            &&& e == ComError::NoSuchInterface
            &&& !t.is_live(s.next_id())
            &&& forall|x: usize| #[trigger] s.is_live(x) ==> t.object(x) == s.object(x)
        },
        forall|x: usize|
            x != s.next_id() ==> s.create_instance(fp, Some(outer), iid).is_live(x) == s.is_live(x),
        forall|x: usize| #[trigger]
            s.is_live(x) && x != s.controller(outer.object) ==> s.create_instance(
                fp,
                Some(outer),
                iid,
            ).object(x) == s.object(x),
        ({
            let t = s.create_instance(fp, Some(outer), iid);
            let c = s.controller(outer.object);
            &&& t.object(c).interfaces == s.object(c).interfaces
            &&& t.object(c).outer == s.object(c).outer
            &&& t.object(c).factory_of == s.object(c).factory_of
        }),
{
    assert(s.object_wf(fp.object));
    assert(s.object_wf(outer.object));
    let class = s.class_of(fp);
    let n = s.next_id();
    let c = s.controller(outer.object);
    assert(s.object_wf(c));
    lemma_with_instance_keeps_wf(s, class, Some(outer));
    let created = s.with_instance(class, Some(outer));
    let answer = created.resolve(n, iid);
    assert(created.object_wf(n));
    lemma_resolve_stays_inside(created, n, iid);
    class.interfaces.index_of_first_ensures(iid);
    assert(created.inner_field_of(created.object(n).inners, iid, 0).is_none());
    match answer {
        Some(q) => {
            lemma_add_ref_keeps_wf(created, q);
            assert(created.object_wf(q.object));
        },
        None => {
            lemma_detach_keeps_wf(created, n);
            let t = created.detach(n);
            assert(created.inner_release(n) == t);
            let old_inners = s.object(c).inners;
            let mid = created.object(c).inners;
            assert(mid == old_inners.push(n));
            mid.index_of_first_ensures(n);
            let at = mid.index_of_first(n).unwrap();
            assert(at == old_inners.len()) by {
                if at < old_inners.len() {
                    assert(s.is_live(old_inners[at]));
                }
            }
            assert(mid.remove(at) =~= old_inners);
            assert forall|x: usize| #[trigger] s.is_live(x) implies t.object(x) == s.object(x) by {
                if x == c {
                    assert(t.object(c).inners == old_inners);
                }
            }
        },
    }
}

/// Destruction is final: no increment, decrement or query brings a
/// destroyed object back, and none moves an object to another place.
pub proof fn law_counting_never_revives(s: RuntimeModel, p: InterfacePointer, iid: InterfaceId)
    requires
        s.wf(),
        s.valid(p),
    ensures
        s.never_revived_in(s.add_ref(p)),
        s.never_revived_in(s.release(p)),
        s.never_revived_in(s.after_answer(s.query_result(p, iid))),
{
    assert(s.object_wf(p.object));
    let c = s.controller(p.object);
    assert(s.object_wf(c));
    lemma_with_count_keeps_wf(s, c, s.object(c).ref_count + 1);
    crate::invariants::lemma_release_keeps_wf(s, p);
    if s.object(c).ref_count > 1 {
        lemma_with_count_keeps_wf(s, c, (s.object(c).ref_count - 1) as nat);
    } else {
        lemma_destroy_keeps_wf(s, c);
    }
    lemma_resolve_stays_inside(s, c, iid);
    if let Some(q) = s.query_result(p, iid) {
        lemma_with_count_keeps_wf(s, c, s.object(c).ref_count + 1);
    }
}

/// Destruction is final: the private increment, decrement and query of an
/// aggregated object bring no destroyed object back.
pub proof fn law_private_counting_never_revives(s: RuntimeModel, o: usize, iid: InterfaceId)
    requires
        s.wf(),
        s.is_aggregated(o),
    ensures
        s.never_revived_in(s.inner_add_ref(o)),
        s.never_revived_in(s.inner_release(o)),
        s.never_revived_in(s.after_answer(s.resolve(o, iid))),
{
    assert(s.object_wf(o));
    let c = s.controller(o);
    lemma_with_count_keeps_wf(s, o, s.object(o).ref_count + 1);
    if s.object(o).ref_count > 1 {
        lemma_with_count_keeps_wf(s, o, (s.object(o).ref_count - 1) as nat);
    } else {
        lemma_detach_keeps_wf(s, o);
    }
    lemma_resolve_stays_inside(s, o, iid);
    if let Some(q) = s.resolve(o, iid) {
        lemma_with_count_keeps_wf(s, c, s.object(c).ref_count + 1);
    }
}

/// Destruction is final: a new object takes a new place, never the place
/// of a destroyed one, and the creation brings no destroyed object back.
pub proof fn law_creation_never_revives(
    s: RuntimeModel,
    fp: InterfacePointer,
    outer: Option<InterfacePointer>,
    iid: InterfaceId,
    clsid: ClassId,
)
    requires
        s.wf(),
        s.objects.len() < usize::MAX,
        s.is_factory(fp),
        outer matches Some(op) ==> (s.class_of(fp).aggregable ==> s.can_be_outer(op)),
    ensures
        s.never_revived_in(s.create_instance(fp, outer, iid)),
        s.never_revived_in(s.get_class_object(clsid, iid)),
{
    law_get_class_object(s, clsid, iid);
    match outer {
        Some(op) => {
            if s.class_of(fp).aggregable {
                law_create_instance_aggregated(s, fp, op, iid);
            }
        },
        None => {
            law_create_instance_alone(s, fp, iid);
        },
    }
}

/// A class factory implements exactly the identity interface and the
/// class factory interface: a query through a factory's pointer is
/// answered for these two and for no other.
pub proof fn law_factory_answers_two_interfaces(s: RuntimeModel, p: InterfacePointer, iid: InterfaceId)
    requires
        s.wf(),
        s.is_factory(p),
    ensures
        s.controller(p.object) == p.object,
        s.implements(p.object, iid) == (iid == InterfaceId::spec_unknown() || iid
            == InterfaceId::spec_class_factory()),
        s.query_result(p, iid).is_some() == (iid == InterfaceId::spec_unknown() || iid
            == InterfaceId::spec_class_factory()),
        s.query_result(p, iid) matches Some(q) ==> q == first_field(p.object),
{
    assert(s.object_wf(p.object));
    law_query_answers_what_is_implemented(s, p, iid);
    let interfaces = s.object(p.object).interfaces;
    interfaces.index_of_first_ensures(iid);
    assert(interfaces[0] == InterfaceId::spec_class_factory());
}

/// The identity of an object does not change while references to it are
/// taken and given up: what one query for the identity interface answers,
/// the next one answers too, through whichever pointer into the object.
pub proof fn law_identity_is_stable(
    s: RuntimeModel,
    p: InterfacePointer,
    q: InterfacePointer,
    iid: InterfaceId,
)
    requires
        s.wf(),
        s.valid(p),
        s.valid(q),
        s.controller(p.object) == s.controller(q.object),
    ensures
        s.after_answer(s.query_result(p, iid)).valid(q),
        s.after_answer(s.query_result(p, iid)).query_result(q, InterfaceId::spec_unknown())
            == s.query_result(p, InterfaceId::spec_unknown()),
        s.add_ref(p).query_result(q, InterfaceId::spec_unknown()) == s.query_result(
            p,
            InterfaceId::spec_unknown(),
        ),
        s.ref_count(p) > 1 ==> s.release(p).query_result(q, InterfaceId::spec_unknown())
            == s.query_result(p, InterfaceId::spec_unknown()),
{
    assert(s.object_wf(p.object));
    assert(s.object_wf(q.object));
    let c = s.controller(p.object);
    assert(s.object_wf(c));
    lemma_resolve_stays_inside(s, c, iid);
    lemma_with_count_keeps_wf(s, c, s.object(c).ref_count + 1);
    if s.object(c).ref_count > 1 {
        lemma_with_count_keeps_wf(s, c, (s.object(c).ref_count - 1) as nat);
    }
}

} // verus!

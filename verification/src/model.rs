//! The mathematical model of the runtime: what objects exist, what each
//! operation does to them, and when a state is well formed.
//!
//! The executable runtime is specified against this model; the laws of the
//! object model are proved about it.

use vstd::prelude::*;
use crate::ids::{ClassId, InterfaceId};
use crate::status::ComError;
use crate::vtable::{SlotEntry, class_factory_slots, reserved_slots, RESERVED_SLOTS};

verus! {

/// The address of one vtable-pointer field inside an object: the object, and
/// which of its fields.
#[derive(Clone, Copy, Debug, PartialEq, Eq, Structural)]
pub struct InterfacePointer {
    pub object: usize,
    pub field: usize,
}

/// The private identity-management surface of an aggregated object. It is
/// handed to whoever composes the aggregate and bypasses the forwarding to
/// the controlling object.
#[derive(Clone, Copy, Debug, PartialEq, Eq, Structural)]
pub struct ControlPointer {
    pub object: usize,
}

/// A class that can be instantiated.
pub struct ClassModel {
    pub clsid: ClassId,
    pub name: Seq<char>,
    /// The interfaces of an instance, one vtable-pointer field each.
    pub interfaces: Seq<InterfaceId>,
    /// Whether an instance may be created as the inner part of an aggregate.
    pub aggregable: bool,
}

/// The published function-pointer table of an interface.
pub struct TableModel {
    pub iid: InterfaceId,
    pub slots: Seq<SlotEntry>,
}

/// One live object.
pub struct ObjectModel {
    /// The interface behind each vtable-pointer field, in field order.
    pub interfaces: Seq<InterfaceId>,
    /// The object's own reference count.
    pub ref_count: nat,
    /// For the inner part of an aggregate: the identity pointer of the
    /// controlling object. The link is not counted.
    pub outer: Option<InterfacePointer>,
    /// For a controlling object: the inner objects that it owns, in the order
    /// in which they were attached.
    pub inners: Seq<usize>,
    /// For a class factory: which class of the activation table it constructs.
    pub factory_of: Option<usize>,
}

/// The whole state: every object ever allocated, the activation table, the
/// published interface tables, and the server lock counter. A destroyed
/// object leaves `None` behind; its place is never used again.
pub struct RuntimeModel {
    pub objects: Seq<Option<ObjectModel>>,
    pub classes: Seq<ClassModel>,
    pub tables: Seq<TableModel>,
    pub server_locks: nat,
}

/// The first field of `object`.
pub open spec fn first_field(object: usize) -> InterfacePointer {
    InterfacePointer { object, field: 0 }
}

/// How an answer is reported: the pointer, or that there is no such interface.
pub open spec fn report(answer: Option<InterfacePointer>) -> Result<InterfacePointer, ComError> {
    match answer {
        Some(q) => Ok(q),
        None => Err(ComError::NoSuchInterface),
    }
}

/// The table of an interface whose table nobody can publish: the identity
/// interface has the reserved slots alone, the class factory interface has
/// CreateInstance and LockServer after them.
pub open spec fn fixed_slots(iid: InterfaceId) -> Option<Seq<SlotEntry>> {
    if iid == InterfaceId::spec_unknown() {
        Some(reserved_slots())
    } else if iid == InterfaceId::spec_class_factory() {
        Some(class_factory_slots())
    } else {
        None
    }
}

/// A table starts with the slots that every interface has.
pub open spec fn table_wf(slots: Seq<SlotEntry>) -> bool {
    slots.len() >= RESERVED_SLOTS && slots.subrange(0, RESERVED_SLOTS as int) == reserved_slots()
}

/// A fresh object with the given fields that holds its creation reference.
pub open spec fn new_instance(interfaces: Seq<InterfaceId>, outer: Option<InterfacePointer>) -> ObjectModel {
    ObjectModel { interfaces, ref_count: 1, outer, inners: Seq::empty(), factory_of: None }
}

/// A fresh factory for entry `k` of the activation table: an object with the
/// factory interface alone that holds its creation reference.
pub open spec fn new_factory(k: usize) -> ObjectModel {
    ObjectModel {
        interfaces: seq![InterfaceId::spec_class_factory()],
        ref_count: 1,
        outer: None,
        inners: Seq::empty(),
        factory_of: Some(k),
    }
}

impl RuntimeModel {
    /// Whether `o` was allocated and not yet destroyed.
    pub open spec fn is_live(self, o: usize) -> bool {
        o < self.objects.len() && self.objects[o as int].is_some()
    }

    /// The live object `o`.
    pub open spec fn object(self, o: usize) -> ObjectModel
        recommends
            self.is_live(o),
    {
        self.objects[o as int].unwrap()
    }

    /// Whether `p` points at a field of a live object.
    pub open spec fn valid(self, p: InterfacePointer) -> bool {
        self.is_live(p.object) && p.field < self.object(p.object).interfaces.len()
    }

    /// Whether `o` is live and the inner part of an aggregate.
    pub open spec fn is_aggregated(self, o: usize) -> bool {
        self.is_live(o) && self.object(o).outer.is_some()
    }

    /// Whether `p` points at a live class factory.
    pub open spec fn is_factory(self, p: InterfacePointer) -> bool {
        self.valid(p) && self.object(p.object).factory_of.is_some()
    }

    /// The object whose reference count governs `o`: the controlling object
    /// of an aggregated object, the object itself otherwise.
    pub open spec fn controller(self, o: usize) -> usize {
        match self.object(o).outer {
            Some(p) => p.object,
            None => o,
        }
    }

    /// The canonical pointer that identifies the logical object `o` is part of.
    pub open spec fn identity(self, o: usize) -> InterfacePointer {
        first_field(self.controller(o))
    }

    /// The reference count that callers of `p` share.
    pub open spec fn ref_count(self, p: InterfacePointer) -> nat {
        self.object(self.controller(p.object)).ref_count
    }

    /// The state with the own count of `o` set to `count`.
    pub open spec fn with_count(self, o: usize, count: nat) -> RuntimeModel {
        RuntimeModel {
            objects: self.objects.update(
                o as int,
                Some(ObjectModel { ref_count: count, ..self.object(o) }),
            ),
            ..self
        }
    }

    /// The state after destroying the controlling object `c` together with
    /// the inner objects that it owns.
    pub open spec fn destroy(self, c: usize) -> RuntimeModel {
        RuntimeModel {
            objects: Seq::new(
                self.objects.len(),
                |i: int|
                    if i == c || self.object(c).inners.contains(i as usize) {
                        None
                    } else {
                        self.objects[i]
                    },
            ),
            ..self
        }
    }

    /// The state after destroying the aggregated object `o` alone, which
    /// also takes it off its controlling object's list.
    pub open spec fn detach(self, o: usize) -> RuntimeModel {
        let c = self.controller(o);
        RuntimeModel {
            objects: self.objects.update(
                c as int,
                Some(
                    ObjectModel {
                        inners: self.object(c).inners.remove_value(o),
                        ..self.object(c)
                    },
                ),
            ).update(o as int, None),
            ..self
        }
    }

    /// Increment through `p`.
    pub open spec fn add_ref(self, p: InterfacePointer) -> RuntimeModel {
        let c = self.controller(p.object);
        self.with_count(c, self.object(c).ref_count + 1)
    }

    /// Decrement through `p`; the object is destroyed when its count reaches 0.
    pub open spec fn release(self, p: InterfacePointer) -> RuntimeModel {
        let c = self.controller(p.object);
        if self.object(c).ref_count > 1 {
            self.with_count(c, (self.object(c).ref_count - 1) as nat)
        } else {
            self.destroy(c)
        }
    }

    /// Increment of an aggregated object's own count.
    pub open spec fn inner_add_ref(self, o: usize) -> RuntimeModel {
        self.with_count(o, self.object(o).ref_count + 1)
    }

    /// Decrement of an aggregated object's own count; the object alone is
    /// destroyed when that count reaches 0.
    pub open spec fn inner_release(self, o: usize) -> RuntimeModel {
        if self.object(o).ref_count > 1 {
            self.with_count(o, (self.object(o).ref_count - 1) as nat)
        } else {
            self.detach(o)
        }
    }

    /// The pointer to the first field of `o` that stands for `iid`.
    pub open spec fn field_of(self, o: usize, iid: InterfaceId) -> Option<InterfacePointer> {
        match self.object(o).interfaces.index_of_first(iid) {
            Some(i) => Some(InterfacePointer { object: o, field: i as usize }),
            None => None,
        }
    }

    /// The pointer for `iid` into the first object of `inners[from..]` that
    /// has a field for it.
    pub open spec fn inner_field_of(self, inners: Seq<usize>, iid: InterfaceId, from: int) -> Option<
        InterfacePointer,
    >
        decreases inners.len() - from,
    {
        if from < 0 || from >= inners.len() {
            None
        } else {
            match self.field_of(inners[from], iid) {
                Some(p) => Some(p),
                None => self.inner_field_of(inners, iid, from + 1),
            }
        }
    }

    /// What object `o` itself answers when asked for `iid`: its identity for
    /// the identity interface, else its own field for `iid`, else the field
    /// of the first inner object that has one.
    pub open spec fn resolve(self, o: usize, iid: InterfaceId) -> Option<InterfacePointer> {
        if iid == InterfaceId::spec_unknown() {
            Some(self.identity(o))
        } else {
            match self.field_of(o, iid) {
                Some(p) => Some(p),
                None => self.inner_field_of(self.object(o).inners, iid, 0),
            }
        }
    }

    /// What a query through `p` answers: an aggregated object hands the
    /// question to its controlling object.
    pub open spec fn query_result(self, p: InterfacePointer, iid: InterfaceId) -> Option<
        InterfacePointer,
    > {
        self.resolve(self.controller(p.object), iid)
    }

    /// The state after an answer: one more reference where a pointer was
    /// handed out, no change otherwise.
    pub open spec fn after_answer(self, answer: Option<InterfacePointer>) -> RuntimeModel {
        match answer {
            Some(q) => self.add_ref(q),
            None => self,
        }
    }

    /// The interface that `p` was obtained for.
    pub open spec fn interface_at(self, p: InterfacePointer) -> InterfaceId
        recommends
            self.valid(p),
    {
        self.object(p.object).interfaces[p.field as int]
    }

    /// Whether the logical object that `c` controls implements `iid`: the
    /// identity interface always, else through a field of `c` or of one of
    /// its inner objects.
    pub open spec fn implements(self, c: usize, iid: InterfaceId) -> bool {
        ||| iid == InterfaceId::spec_unknown()
        ||| self.object(c).interfaces.contains(iid)
        ||| exists|k: int|
            0 <= k < self.object(c).inners.len() && self.object(
                #[trigger] self.object(c).inners[k],
            ).interfaces.contains(iid)
    }

    /// Whether `after` has every object of this state in its place, and
    /// none that this state had destroyed is live in it.
    pub open spec fn never_revived_in(self, after: RuntimeModel) -> bool {
        &&& self.objects.len() <= after.objects.len()
        &&& forall|x: usize| x < self.objects.len() && !self.is_live(x) ==> !#[trigger] after.is_live(x)
    }

    /// Whether every pointer of `ps` is valid and points into the logical
    /// object that `c` controls.
    pub open spec fn all_into(self, ps: Seq<InterfacePointer>, c: usize) -> bool {
        forall|i: int|
            0 <= i < ps.len() ==> self.valid(#[trigger] ps[i]) && self.controller(ps[i].object) == c
    }

    /// The state after incrementing through each pointer of `ps` in turn.
    pub open spec fn add_refs(self, ps: Seq<InterfacePointer>) -> RuntimeModel
        decreases ps.len(),
    {
        if ps.len() == 0 {
            self
        } else {
            self.add_ref(ps.first()).add_refs(ps.drop_first())
        }
    }

    /// The state after decrementing through each pointer of `ps` in turn.
    pub open spec fn releases(self, ps: Seq<InterfacePointer>) -> RuntimeModel
        decreases ps.len(),
    {
        if ps.len() == 0 {
            self
        } else {
            self.release(ps.first()).releases(ps.drop_first())
        }
    }

    /// Where the table of `iid` stands among the published tables.
    pub open spec fn table_of(self, iid: InterfaceId) -> Option<int> {
        self.tables.map_values(|t: TableModel| t.iid).index_of_first(iid)
    }

    /// The slots of the table that is reached from a field for `iid`. The
    /// tables of the identity interface and of the class factory interface
    /// are fixed. Any other interface has its published table, or, without
    /// one, the slots that every interface has.
    pub open spec fn slots_of(self, iid: InterfaceId) -> Seq<SlotEntry> {
        match fixed_slots(iid) {
            Some(slots) => slots,
            None => match self.table_of(iid) {
                Some(k) => self.tables[k].slots,
                None => reserved_slots(),
            },
        }
    }

    /// Whether a table for `iid` would be taken: the interface has no fixed
    /// table and none was published for it yet.
    pub open spec fn may_publish(self, iid: InterfaceId) -> bool {
        fixed_slots(iid).is_none() && self.table_of(iid).is_none()
    }

    /// What a call through `p` at slot `slot` dispatches to, if the table
    /// behind `p` has that slot.
    pub open spec fn dispatch(self, p: InterfacePointer, slot: usize) -> Option<SlotEntry> {
        let slots = self.slots_of(self.interface_at(p));
        if slot < slots.len() {
            Some(slots[slot as int])
        } else {
            None
        }
    }

    /// The state after publishing a table: it is added where its interface
    /// has none yet, and refused otherwise.
    pub open spec fn publish(self, table: TableModel) -> RuntimeModel {
        if self.may_publish(table.iid) {
            RuntimeModel { tables: self.tables.push(table), ..self }
        } else {
            self
        }
    }

    /// The place that the next allocated object takes.
    pub open spec fn next_id(self) -> usize {
        self.objects.len() as usize
    }

    /// The state with `obj` allocated at the next place.
    pub open spec fn push(self, obj: ObjectModel) -> RuntimeModel {
        RuntimeModel { objects: self.objects.push(Some(obj)), ..self }
    }

    /// The state with `o` added to the inner objects that `c` owns.
    pub open spec fn attach(self, c: usize, o: usize) -> RuntimeModel {
        RuntimeModel {
            objects: self.objects.update(
                c as int,
                Some(ObjectModel { inners: self.object(c).inners.push(o), ..self.object(c) }),
            ),
            ..self
        }
    }

    /// The class that the factory behind `fp` constructs.
    pub open spec fn class_of(self, fp: InterfacePointer) -> ClassModel {
        self.classes[self.object(fp.object).factory_of.unwrap() as int]
    }

    /// The state with a new instance of `class` that holds its creation
    /// reference. With `outer`, the instance is the inner part of the
    /// aggregate that `outer` points into, linked to its controlling object
    /// and owned by it.
    pub open spec fn with_instance(self, class: ClassModel, outer: Option<InterfacePointer>) -> RuntimeModel {
        match outer {
            None => self.push(new_instance(class.interfaces, None)),
            Some(op) => {
                let c = self.controller(op.object);
                self.push(new_instance(class.interfaces, Some(first_field(c)))).attach(
                    c,
                    self.next_id(),
                )
            },
        }
    }

    /// Whether an object may be aggregated into the logical object that
    /// `op` points into: `op` is valid, and the controlling object is no
    /// class factory.
    pub open spec fn can_be_outer(self, op: InterfacePointer) -> bool {
        self.valid(op) && self.object(self.controller(op.object)).factory_of.is_none()
    }

    /// Whether the new instance that the factory behind `fp` would build
    /// has an answer for `iid`.
    pub open spec fn class_answers(self, fp: InterfacePointer, iid: InterfaceId) -> bool {
        iid == InterfaceId::spec_unknown() || self.class_of(fp).interfaces.contains(iid)
    }

    /// Whether the activation table holds the class.
    pub open spec fn has_class(self, clsid: ClassId) -> bool {
        exists|k: int| 0 <= k < self.classes.len() && (#[trigger] self.classes[k]).clsid == clsid
    }

    /// Whether the factory behind `fp` accepts a request with `outer`: a
    /// class that cannot be aggregated is created on its own only.
    pub open spec fn may_create(self, fp: InterfacePointer, outer: Option<InterfacePointer>) -> bool {
        outer.is_none() || self.class_of(fp).aggregable
    }

    /// What the new instance answers when asked for `iid`.
    pub open spec fn create_instance_answer(
        self,
        fp: InterfacePointer,
        outer: Option<InterfacePointer>,
        iid: InterfaceId,
    ) -> Option<InterfacePointer> {
        self.with_instance(self.class_of(fp), outer).resolve(self.next_id(), iid)
    }

    /// What CreateInstance returns.
    pub open spec fn create_instance_result(
        self,
        fp: InterfacePointer,
        outer: Option<InterfacePointer>,
        iid: InterfaceId,
    ) -> Result<InterfacePointer, ComError> {
        if self.may_create(fp, outer) {
            report(self.create_instance_answer(fp, outer, iid))
        } else {
            Err(ComError::AggregationNotSupported)
        }
    }

    /// The state after CreateInstance. A request that is refused changes
    /// nothing. Otherwise the instance is allocated with its creation
    /// reference and asked for `iid`. An instance on its own then loses the
    /// creation reference, which destroys it where it had no answer. An
    /// aggregated instance keeps it for its owner where it had an answer,
    /// and loses it, and with it its life, where it had none.
    pub open spec fn create_instance(
        self,
        fp: InterfacePointer,
        outer: Option<InterfacePointer>,
        iid: InterfaceId,
    ) -> RuntimeModel {
        if self.may_create(fp, outer) {
            let created = self.with_instance(self.class_of(fp), outer);
            let answer = self.create_instance_answer(fp, outer, iid);
            match outer {
                None => created.after_answer(answer).release(first_field(self.next_id())),
                Some(_) => match answer {
                    Some(q) => created.add_ref(q),
                    None => created.inner_release(self.next_id()),
                },
            }
        } else {
            self
        }
    }

    /// The first entry of the activation table for `clsid`.
    pub open spec fn class_index(self, clsid: ClassId) -> Option<int> {
        self.classes.map_values(|c: ClassModel| c.clsid).index_of_first(clsid)
    }

    /// What GetClassObject returns.
    pub open spec fn get_class_object_result(self, clsid: ClassId, iid: InterfaceId) -> Result<
        InterfacePointer,
        ComError,
    > {
        match self.class_index(clsid) {
            Some(k) => report(self.push(new_factory(k as usize)).resolve(self.next_id(), iid)),
            None => Err(ComError::ClassNotAvailable),
        }
    }

    /// The state after GetClassObject. For an unknown class nothing
    /// changes. Otherwise the class's factory is allocated with its creation
    /// reference, asked for `iid`, and then loses the creation reference,
    /// which destroys it where it had no answer.
    pub open spec fn get_class_object(self, clsid: ClassId, iid: InterfaceId) -> RuntimeModel {
        match self.class_index(clsid) {
            Some(k) => {
                let created = self.push(new_factory(k as usize));
                created.after_answer(created.resolve(self.next_id(), iid)).release(
                    first_field(self.next_id()),
                )
            },
            None => self,
        }
    }

    /// The state after LockServer: the counter goes up by one for a lock and
    /// down by one for an unlock, and stays within `0..=u32::MAX`.
    pub open spec fn lock_server(self, lock: bool) -> RuntimeModel {
        RuntimeModel {
            server_locks: if lock {
                if self.server_locks < u32::MAX {
                    self.server_locks + 1
                } else {
                    self.server_locks
                }
            } else {
                if self.server_locks > 0 {
                    (self.server_locks - 1) as nat
                } else {
                    0
                }
            },
            ..self
        }
    }

    /// Every live object has a positive count and at least one field; the
    /// links between the parts of an aggregate agree with each other; a
    /// factory has a field for the factory interface alone, owns no inner
    /// object and constructs a known class; every published table starts with the reserved slots.
    pub open spec fn wf(self) -> bool {
        &&& forall|o: usize| #[trigger] self.is_live(o) ==> self.object_wf(o)
        &&& self.objects.len() <= usize::MAX
        &&& self.classes.len() <= usize::MAX
        &&& forall|k: int| 0 <= k < self.tables.len() ==> table_wf((#[trigger] self.tables[k]).slots)
        &&& forall|k: int|
            0 <= k < self.classes.len() ==> 1 <= (#[trigger] self.classes[k]).interfaces.len()
                <= usize::MAX
    }

    /// The part of `wf` that speaks of the live object `o`.
    pub open spec fn object_wf(self, o: usize) -> bool {
        let obj = self.object(o);
        &&& obj.ref_count >= 1
        &&& 1 <= obj.interfaces.len() <= usize::MAX
        &&& obj.inners.no_duplicates()
        &&& forall|k: int|
            0 <= k < obj.inners.len() ==> self.is_live(#[trigger] obj.inners[k]) && self.object(
                obj.inners[k],
            ).outer == Some(first_field(o))
        &&& match obj.outer {
            Some(p) => {
                &&& p.field == 0
                &&& p.object != o
                &&& self.is_live(p.object)
                &&& self.object(p.object).outer.is_none()
                &&& self.object(p.object).inners.contains(o)
                &&& obj.inners.len() == 0
                &&& obj.factory_of.is_none()
            },
            None => true,
        }
        &&& match obj.factory_of {
            Some(k) => {
                &&& k < self.classes.len()
                &&& obj.interfaces == seq![InterfaceId::spec_class_factory()]
                &&& obj.inners.len() == 0
            },
            None => true,
        }
    }
}

} // verus!

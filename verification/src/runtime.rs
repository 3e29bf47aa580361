//! The executable runtime: a table of reference-counted objects, the
//! activation table of the classes that can be created, and the operations
//! on interface pointers.

use vstd::prelude::*;
use crate::ids::{ClassId, InterfaceId};
use crate::model::{
    ClassModel, ControlPointer, InterfacePointer, ObjectModel, RuntimeModel, TableModel, first_field,
    new_factory, new_instance, report,
};
use crate::vtable::{
    SlotEntry, VTable, class_factory_entry, reserved_entry, SLOT_ADD_REF, SLOT_CREATE_INSTANCE,
    SLOT_LOCK_SERVER, SLOT_QUERY_INTERFACE, SLOT_RELEASE,
};
use crate::status::ComError;

verus! {

/// One entry of the activation table: a class and what its factory builds.
pub struct ClassEntry {
    clsid: ClassId,
    name: String,
    interfaces: Vec<InterfaceId>,
    aggregable: bool,
}

impl ClassEntry {
    #[verifier::type_invariant]
    spec fn has_a_field(self) -> bool {
        1 <= self.interfaces@.len() <= usize::MAX
    }

    /// The entry as a mathematical value.
    pub closed spec fn view(&self) -> ClassModel {
        ClassModel {
            clsid: self.clsid,
            name: self.name@,
            interfaces: self.interfaces@,
            aggregable: self.aggregable,
        }
    }

    /// A class named `name` whose instances have one field for each of
    /// `interfaces`. An object needs a field to be pointed at: without any
    /// interface there is no class, and the result is `None`.
    pub fn new(clsid: ClassId, name: String, interfaces: Vec<InterfaceId>, aggregable: bool) -> (entry:
        Option<ClassEntry>)
        ensures
            entry.is_some() == (interfaces@.len() >= 1),
            entry matches Some(e) ==> e@ == (ClassModel {
                clsid,
                name: name@,
                interfaces: interfaces@,
                aggregable,
            }),
    {
        if interfaces.len() == 0 {
            None
        } else {
            Some(ClassEntry { clsid, name, interfaces, aggregable })
        }
    }

    /// The class that the entry stands for.
    pub fn clsid(&self) -> (id: ClassId)
        ensures
            id == self@.clsid,
    {
        self.clsid
    }

    /// The class's name for people to read.
    pub fn name(&self) -> (name: &String)
        ensures
            name@ == self@.name,
    {
        &self.name
    }

    /// The interfaces of an instance, in field order.
    pub fn interfaces(&self) -> (interfaces: &Vec<InterfaceId>)
        ensures
            interfaces@ == self@.interfaces,
    {
        &self.interfaces
    }

    /// Whether an instance has a field for `iid`.
    pub fn has_interface(&self, iid: InterfaceId) -> (b: bool)
        ensures
            b == self@.interfaces.contains(iid),
    {
        let mut i: usize = 0;
        while i < self.interfaces.len()
            invariant
                0 <= i <= self.interfaces@.len(),
                forall|j: int| 0 <= j < i ==> self.interfaces@[j] != iid,
            decreases self.interfaces@.len() - i,
        {
            if self.interfaces[i] == iid {
                return true;
            }
            i += 1;
        }
        false
    }

    /// Whether an instance may be created as the inner part of an aggregate.
    pub fn aggregable(&self) -> (b: bool)
        ensures
            b == self@.aggregable,
    {
        self.aggregable
    }
}

struct ComObject {
    live: bool,
    interfaces: Vec<InterfaceId>,
    ref_count: u32,
    outer: Option<InterfacePointer>,
    inners: Vec<usize>,
    factory_of: Option<usize>,
}

impl ComObject {
    spec fn view(&self) -> Option<ObjectModel> {
        if self.live {
            Some(
                ObjectModel {
                    interfaces: self.interfaces@,
                    ref_count: self.ref_count as nat,
                    outer: self.outer,
                    inners: self.inners@,
                    factory_of: self.factory_of,
                },
            )
        } else {
            None
        }
    }
}

/// The runtime of one process.
pub struct Runtime {
    objects: Vec<ComObject>,
    classes: Vec<ClassEntry>,
    tables: Vec<VTable>,
    server_locks: u32,
}

impl Runtime {
    /// The state as a mathematical value.
    pub closed spec fn view(&self) -> RuntimeModel {
        RuntimeModel {
            objects: Seq::new(self.objects@.len(), |i: int| self.objects@[i]@),
            classes: Seq::new(self.classes@.len(), |k: int| self.classes@[k]@),
            tables: Seq::new(self.tables@.len(), |k: int| table_model(self.tables@[k])),
            server_locks: self.server_locks as nat,
        }
    }

    /// The state is well formed, and every count fits its counter.
    pub open spec fn wf(&self) -> bool {
        &&& self@.wf()
        &&& self@.server_locks <= u32::MAX
        &&& forall|o: usize| #[trigger] self@.is_live(o) ==> self@.object(o).ref_count <= u32::MAX
    }

    /// A runtime without objects whose activation table is `classes`. The
    /// table is fixed from here on.
    pub fn new(classes: Vec<ClassEntry>) -> (rt: Runtime)
        ensures
            rt.wf(),
            rt@.objects.len() == 0,
            rt@.tables.len() == 0,
            rt@.server_locks == 0,
            rt@.classes == classes@.map_values(|c: ClassEntry| c@),
    {
        let mut k: usize = 0;
        while k < classes.len()
            invariant
                0 <= k <= classes@.len(),
                forall|j: int|
                    0 <= j < k ==> 1 <= (#[trigger] classes@[j])@.interfaces.len() <= usize::MAX,
            decreases classes@.len() - k,
        {
            let entry = &classes[k];
            proof {
                use_type_invariant(entry);
            }
            k += 1;
        }
        assert(classes@.len() <= usize::MAX);
        let rt = Runtime { objects: Vec::new(), classes, tables: Vec::new(), server_locks: 0 };
        assert(rt@.classes =~= classes@.map_values(|c: ClassEntry| c@));
        rt
    }

    /// The activation table.
    pub fn classes(&self) -> (classes: &Vec<ClassEntry>)
        ensures
            classes@.map_values(|c: ClassEntry| c@) == self@.classes,
    {
        proof {
            assert(self.classes@.map_values(|c: ClassEntry| c@) =~= self@.classes);
        }
        &self.classes
    }

    /// Number of objects allocated so far, destroyed ones included.
    pub fn allocated(&self) -> (n: usize)
        ensures
            n == self@.objects.len(),
    {
        self.objects.len()
    }

    /// Whether `o` was allocated and not yet destroyed.
    pub fn is_live(&self, o: usize) -> (b: bool)
        ensures
            b == self@.is_live(o),
    {
        o < self.objects.len() && self.objects[o].live
    }

    /// Whether `p` points at a field of a live object.
    pub fn is_valid(&self, p: InterfacePointer) -> (b: bool)
        ensures
            b == self@.valid(p),
    {
        p.object < self.objects.len() && self.objects[p.object].live && p.field
            < self.objects[p.object].interfaces.len()
    }

    /// The reference count that callers of `p` share.
    pub fn ref_count(&self, p: InterfacePointer) -> (count: u32)
        requires
            self.wf(),
            self@.valid(p),
        ensures
            count == self@.ref_count(p),
            count >= 1,
    {
        let c = self.controller(p.object);
        self.objects[c].ref_count
    }

    fn controller(&self, o: usize) -> (c: usize)
        requires
            self.wf(),
            self@.is_live(o),
        ensures
            c == self@.controller(o),
            self@.is_live(c),
            self@.object(c).outer.is_none(),
    {
        match self.objects[o].outer {
            Some(p) => p.object,
            None => o,
        }
    }

    /// Increment: one more reference to the object behind `p`. Returns the
    /// new count.
    pub fn add_ref(&mut self, p: InterfacePointer) -> (count: u32)
        requires
            old(self).wf(),
            old(self)@.valid(p),
            old(self)@.ref_count(p) < u32::MAX,
        ensures
            final(self).wf(),
            final(self)@ == old(self)@.add_ref(p),
            count == old(self)@.ref_count(p) + 1,
    {
        let c = self.controller(p.object);
        let count = self.objects[c].ref_count + 1;
        self.objects[c].ref_count = count;
        proof {
            assert(final(self)@.objects =~= old(self)@.add_ref(p).objects);
            assert(final(self)@.classes =~= old(self)@.classes);
            assert(final(self)@.tables =~= old(self)@.tables);
            crate::invariants::lemma_add_ref_keeps_wf(old(self)@, p);
        }
        count
    }

    /// Decrement: one reference to the object behind `p` is given up. Returns
    /// the new count. At 0 the object is destroyed within the call, together
    /// with the inner objects that it owns, and no pointer into any of them
    /// is valid afterwards.
    pub fn release(&mut self, p: InterfacePointer) -> (count: u32)
        requires
            old(self).wf(),
            old(self)@.valid(p),
        ensures
            final(self).wf(),
            final(self)@ == old(self)@.release(p),
            count == old(self)@.ref_count(p) - 1,
            (count == 0) == !final(self)@.is_live(p.object),
    {
        let c = self.controller(p.object);
        proof {
            assert(self@.object_wf(c));
            crate::invariants::lemma_release_keeps_wf(self@, p);
        }
        let count = self.objects[c].ref_count - 1;
        if count > 0 {
            self.objects[c].ref_count = count;
            proof {
                assert(final(self)@.objects =~= old(self)@.release(p).objects);
                assert(final(self)@.classes =~= old(self)@.classes);
                assert(final(self)@.tables =~= old(self)@.tables);
            }
        } else {
            self.destroy(c);
        }
        count
    }

    fn destroy(&mut self, c: usize)
        requires
            old(self).wf(),
            old(self)@.is_live(c),
            old(self)@.object(c).outer.is_none(),
        ensures
            final(self)@ == old(self)@.destroy(c),
    {
        let ghost pre = self@;
        let ghost inners = self.objects@[c as int].inners@;
        proof {
            assert(pre.object_wf(c));
        }
        let n = self.objects[c].inners.len();
        let total = self.objects.len();
        let mut k: usize = 0;
        while k < n
            invariant
                0 <= k <= n,
                n == inners.len(),
                total == self.objects@.len(),
                pre == old(self)@,
                pre.wf(),
                pre.is_live(c),
                pre.object(c).outer.is_none(),
                pre.object(c).inners == inners,
                self.objects@.len() == pre.objects.len(),
                self.classes == old(self).classes,
                self.tables == old(self).tables,
                self.server_locks == old(self).server_locks,
                self.objects@[c as int].live,
                self.objects@[c as int].inners@ == inners,
                forall|i: int|
                    0 <= i < self.objects@.len() ==> (#[trigger] self.objects@[i])@ == (if inners.subrange(
                        0,
                        k as int,
                    ).contains(i as usize) {
                        None
                    } else {
                        pre.objects[i]
                    }),
            decreases n - k,
        {
            let i = self.objects[c].inners[k];
            proof {
                assert(pre.object_wf(c));
                assert(pre.is_live(inners[k as int]));
                assert(pre.object(i).outer == Some(first_field(c)));
            }
            self.objects[i].live = false;
            self.objects[i].interfaces = Vec::new();
            proof {
                let before = inners.subrange(0, k as int);
                let after = inners.subrange(0, k + 1);
                assert(after =~= before.push(i));
                assert forall|x: int| 0 <= x < self.objects@.len() implies (#[trigger] self.objects@[x])@
                    == (if after.contains(x as usize) {
                    None
                } else {
                    pre.objects[x]
                }) by {
                    assert(after[k as int] == i);
                    assert(x as usize == x);
                    if x != i {
                        if after.contains(x as usize) {
                            let j = choose|j: int| 0 <= j < after.len() && after[j] == x as usize;
                            assert(j != k);
                            assert(before[j] == x as usize);
                        }
                        if before.contains(x as usize) {
                            let j = choose|j: int| 0 <= j < before.len() && before[j] == x as usize;
                            assert(after[j] == x as usize);
                        }
                    }
                }
            }
            k += 1;
        }
        self.objects[c].live = false;
        self.objects[c].interfaces = Vec::new();
        self.objects[c].inners = Vec::new();
        proof {
            assert(inners.subrange(0, n as int) =~= inners);
            assert(final(self)@.objects =~= pre.destroy(c).objects);
            assert(final(self)@.classes =~= pre.classes);
            assert(final(self)@.tables =~= pre.tables);
        }
    }

    fn find_field(&self, o: usize, iid: InterfaceId) -> (r: Option<InterfacePointer>)
        requires
            self@.is_live(o),
        ensures
            r == self@.field_of(o, iid),
    {
        let interfaces = &self.objects[o].interfaces;
        let mut i: usize = 0;
        while i < interfaces.len()
            invariant
                0 <= i <= interfaces@.len(),
                self@.is_live(o),
                interfaces@ == self@.object(o).interfaces,
                forall|j: int| 0 <= j < i ==> interfaces@[j] != iid,
            decreases interfaces@.len() - i,
        {
            if interfaces[i] == iid {
                proof {
                    interfaces@.index_of_first_ensures(iid);
                }
                return Some(InterfacePointer { object: o, field: i });
            }
            i += 1;
        }
        proof {
            interfaces@.index_of_first_ensures(iid);
        }
        None
    }

    fn resolve(&self, o: usize, iid: InterfaceId) -> (r: Option<InterfacePointer>)
        requires
            self.wf(),
            self@.is_live(o),
        ensures
            r == self@.resolve(o, iid),
    {
        if iid.is_unknown() {
            return Some(InterfacePointer { object: self.controller(o), field: 0 });
        }
        let own = self.find_field(o, iid);
        if own.is_some() {
            return own;
        }
        let ghost inners = self.objects@[o as int].inners@;
        proof {
            assert(self@.object_wf(o));
        }
        let n = self.objects[o].inners.len();
        let mut k: usize = 0;
        while k < n
            invariant
                0 <= k <= n,
                n == inners.len(),
                self.wf(),
                self@.is_live(o),
                inners == self@.object(o).inners,
                self.objects@[o as int].inners@ == inners,
                iid != InterfaceId::spec_unknown(),
                self@.field_of(o, iid).is_none(),
                self@.inner_field_of(inners, iid, 0) == self@.inner_field_of(inners, iid, k as int),
            decreases n - k,
        {
            let i = self.objects[o].inners[k];
            proof {
                assert(self@.object_wf(o));
                assert(self@.is_live(inners[k as int]));
            }
            let found = self.find_field(i, iid);
            assert(self@.inner_field_of(inners, iid, k as int) == (match found {
                Some(q) => Some(q),
                None => self@.inner_field_of(inners, iid, k + 1),
            }));
            if found.is_some() {
                return found;
            }
            k += 1;
        }
        assert(self@.inner_field_of(inners, iid, n as int).is_none());
        None
    }

    /// QueryInterface: asks the object behind `p` for its interface `iid`.
    /// Where the object has it, the pointer for it is returned and counts as
    /// one more reference. Where it has not, the answer is
    /// `NoSuchInterface` and nothing changes. Asked for the identity
    /// interface, every pointer into one logical object gives the same answer.
    pub fn query_interface(&mut self, p: InterfacePointer, iid: InterfaceId) -> (r: Result<
        InterfacePointer,
        ComError,
    >)
        requires
            old(self).wf(),
            old(self)@.valid(p),
            old(self)@.implements(old(self)@.controller(p.object), iid) ==> old(self)@.ref_count(p)
                < u32::MAX,
        ensures
            final(self).wf(),
            r == report(old(self)@.query_result(p, iid)),
            final(self)@ == old(self)@.after_answer(old(self)@.query_result(p, iid)),
            r.is_ok() == old(self)@.implements(old(self)@.controller(p.object), iid),
            old(self)@.is_factory(p) ==> r.is_ok() == (iid == InterfaceId::spec_unknown() || iid
                == InterfaceId::spec_class_factory()),
            r matches Ok(q) ==> {
                &&& final(self)@.valid(q)
                &&& final(self)@.ref_count(q) == old(self)@.ref_count(p) + 1
                &&& iid == InterfaceId::spec_unknown() ==> q == old(self)@.identity(p.object)
                &&& iid != InterfaceId::spec_unknown() ==> final(self)@.interface_at(q) == iid
            },
            r matches Err(e) ==> e == ComError::NoSuchInterface && final(self)@ == old(self)@,
    {
        let c = self.controller(p.object);
        let answer = self.resolve(c, iid);
        proof {
            crate::invariants::lemma_resolve_stays_inside(self@, c, iid);
            crate::laws::law_query_answers_what_is_implemented(self@, p, iid);
            if self@.is_factory(p) {
                crate::laws::law_factory_answers_two_interfaces(self@, p, iid);
            }
            if let Some(q) = answer {
                assert(self@.object_wf(q.object));
            }
        }
        match answer {
            Some(q) => {
                self.add_ref(q);
                Ok(q)
            },
            None => Err(ComError::NoSuchInterface),
        }
    }

    /// QueryInterface on the private surface of an aggregated object: the
    /// object answers for itself, without handing the question to its
    /// controlling object. For the identity interface the answer is still
    /// the controlling object's identity. A pointer that is handed out
    /// counts as one more reference to the aggregate.
    pub fn inner_query_interface(&mut self, inner: ControlPointer, iid: InterfaceId) -> (r: Result<
        InterfacePointer,
        ComError,
    >)
        requires
            old(self).wf(),
            old(self)@.is_aggregated(inner.object),
            old(self)@.resolve(inner.object, iid).is_some() ==> old(self)@.ref_count(
                first_field(inner.object),
            ) < u32::MAX,
        ensures
            final(self).wf(),
            r == report(old(self)@.resolve(inner.object, iid)),
            final(self)@ == old(self)@.after_answer(old(self)@.resolve(inner.object, iid)),
            r matches Ok(q) ==> {
                &&& final(self)@.valid(q)
                &&& final(self)@.ref_count(q) == old(self)@.ref_count(first_field(inner.object)) + 1
                &&& iid == InterfaceId::spec_unknown() ==> Some(q) == old(self)@.object(inner.object).outer
            },
            r matches Err(e) ==> e == ComError::NoSuchInterface && final(self)@ == old(self)@,
    {
        proof {
            assert(self@.object_wf(inner.object));
        }
        let answer = self.resolve(inner.object, iid);
        proof {
            crate::invariants::lemma_resolve_stays_inside(self@, inner.object, iid);
        }
        match answer {
            Some(q) => {
                self.add_ref(q);
                Ok(q)
            },
            None => Err(ComError::NoSuchInterface),
        }
    }

    /// Increment on the private surface of an aggregated object: one more
    /// reference to the inner object itself. Returns its new own count.
    pub fn inner_add_ref(&mut self, inner: ControlPointer) -> (count: u32)
        requires
            old(self).wf(),
            old(self)@.is_aggregated(inner.object),
            old(self)@.object(inner.object).ref_count < u32::MAX,
        ensures
            final(self).wf(),
            final(self)@ == old(self)@.inner_add_ref(inner.object),
            count == old(self)@.object(inner.object).ref_count + 1,
    {
        let o = inner.object;
        let count = self.objects[o].ref_count + 1;
        self.objects[o].ref_count = count;
        proof {
            assert(final(self)@.objects =~= old(self)@.inner_add_ref(o).objects);
            assert(final(self)@.classes =~= old(self)@.classes);
            assert(final(self)@.tables =~= old(self)@.tables);
            crate::invariants::lemma_with_count_keeps_wf(old(self)@, o, count as nat);
        }
        count
    }

    /// Decrement on the private surface of an aggregated object. Returns the
    /// new own count. At 0 the inner object alone is destroyed within the
    /// call and leaves its aggregate.
    pub fn inner_release(&mut self, inner: ControlPointer) -> (count: u32)
        requires
            old(self).wf(),
            old(self)@.is_aggregated(inner.object),
        ensures
            final(self).wf(),
            final(self)@ == old(self)@.inner_release(inner.object),
            count == old(self)@.object(inner.object).ref_count - 1,
            (count == 0) == !final(self)@.is_live(inner.object),
            forall|x: usize| x != inner.object ==> final(self)@.is_live(x) == old(self)@.is_live(x),
    {
        let o = inner.object;
        proof {
            assert(self@.object_wf(o));
        }
        let count = self.objects[o].ref_count - 1;
        if count > 0 {
            self.objects[o].ref_count = count;
            proof {
                assert(final(self)@.objects =~= old(self)@.inner_release(o).objects);
                assert(final(self)@.classes =~= old(self)@.classes);
                assert(final(self)@.tables =~= old(self)@.tables);
                crate::invariants::lemma_with_count_keeps_wf(old(self)@, o, count as nat);
            }
        } else {
            proof {
                crate::invariants::lemma_detach_keeps_wf(self@, o);
            }
            self.detach(o);
        }
        count
    }

    fn detach(&mut self, o: usize)
        requires
            old(self).wf(),
            old(self)@.is_aggregated(o),
        ensures
            final(self)@ == old(self)@.detach(o),
    {
        let c = self.controller(o);
        let ghost inners = self.objects@[c as int].inners@;
        proof {
            assert(self@.object_wf(o));
            assert(self@.object_wf(c));
            inners.index_of_first_ensures(o);
        }
        let n = self.objects[c].inners.len();
        let mut k: usize = 0;
        while k < n && self.objects[c].inners[k] != o
            invariant
                0 <= k <= n,
                n == inners.len(),
                inners.contains(o),
                self.objects@.len() > c,
                self.objects@[c as int].inners@ == inners,
                forall|j: int| 0 <= j < k ==> inners[j] != o,
            decreases n - k,
        {
            k += 1;
        }
        self.objects[c].inners.remove(k);
        self.objects[o].live = false;
        self.objects[o].interfaces = Vec::new();
        proof {
            assert(final(self)@.objects =~= old(self)@.detach(o).objects);
            assert(final(self)@.classes =~= old(self)@.classes);
            assert(final(self)@.tables =~= old(self)@.tables);
        }
    }

    /// Whether `p` points at a live class factory.
    pub fn is_factory(&self, p: InterfacePointer) -> (b: bool)
        ensures
            b == self@.is_factory(p),
    {
        self.is_valid(p) && self.objects[p.object].factory_of.is_some()
    }

    /// Whether `o` is live and the inner part of an aggregate.
    pub fn is_aggregated(&self, o: usize) -> (b: bool)
        ensures
            b == self@.is_aggregated(o),
    {
        self.is_live(o) && self.objects[o].outer.is_some()
    }

    /// CreateInstance: has the factory behind `factory` construct an
    /// instance of its class and returns the instance's pointer for `iid`.
    ///
    /// With `outer`, the instance becomes the inner part of the aggregate
    /// that `outer` points into. A class that cannot be aggregated refuses
    /// every `outer`, wherever it points, with `AggregationNotSupported`,
    /// and nothing is allocated. For a class that can be aggregated,
    /// `outer` has to be a valid pointer into an object that is no class
    /// factory: a factory owns no inner objects. On
    /// success the caller holds exactly one reference through the returned
    /// pointer. Where the instance has no interface `iid`, the result is
    /// `NoSuchInterface` and the instance is destroyed again.
    pub fn create_instance(
        &mut self,
        factory: InterfacePointer,
        outer: Option<InterfacePointer>,
        iid: InterfaceId,
    ) -> (r: Result<InterfacePointer, ComError>)
        requires
            old(self).wf(),
            old(self)@.is_factory(factory),
            old(self)@.may_create(factory, outer) ==> old(self)@.objects.len() < usize::MAX,
            outer matches Some(op) ==> (old(self)@.class_of(factory).aggregable ==> {
                &&& old(self)@.can_be_outer(op)
                &&& old(self)@.class_answers(factory, iid) ==> old(self)@.ref_count(op) < u32::MAX
            }),
        ensures
            final(self).wf(),
            r == old(self)@.create_instance_result(factory, outer, iid),
            final(self)@ == old(self)@.create_instance(factory, outer, iid),
            (r == Err::<InterfacePointer, ComError>(ComError::AggregationNotSupported)) == (outer.is_some()
                && !old(self)@.class_of(factory).aggregable),
            r == Err::<InterfacePointer, ComError>(ComError::AggregationNotSupported) ==> final(self)@
                == old(self)@,
            old(self)@.may_create(factory, outer) ==> r.is_ok() == old(self)@.class_answers(factory, iid),
            r matches Ok(q) ==> final(self)@.valid(q) && final(self)@.ref_count(q) == (match outer {
                Some(op) => old(self)@.ref_count(op) + 1,
                None => 1,
            }),
            r.is_err() ==> forall|x: usize| final(self)@.is_live(x) == old(self)@.is_live(x),
            forall|x: usize| #[trigger] old(self)@.is_live(x) ==> final(self)@.is_live(x),
            forall|x: usize| #[trigger]
                old(self)@.is_live(x) && !(outer matches Some(op) && old(self)@.class_of(
                    factory,
                ).aggregable && x == old(self)@.controller(op.object)) ==> final(self)@.object(x) == old(self)@.object(x),
            forall|p: InterfacePointer| #[trigger]
                old(self)@.is_factory(p) ==> final(self)@.is_factory(p) && final(self)@.class_of(p) == old(self)@.class_of(p),
            final(self)@.classes == old(self)@.classes,
            final(self)@.tables == old(self)@.tables,
            final(self)@.server_locks == old(self)@.server_locks,
    {
        proof {
            assert(self@.object_wf(factory.object));
        }
        let k = self.objects[factory.object].factory_of.unwrap();
        if outer.is_some() && !self.classes[k].aggregable {
            return Err(ComError::AggregationNotSupported);
        }
        proof {
            match outer {
                Some(op) => {
                    crate::laws::law_create_instance_aggregated(self@, factory, op, iid);
                },
                None => {
                    crate::laws::law_create_instance_alone(self@, factory, iid);
                },
            }
        }
        let interfaces = copy_interfaces(&self.classes[k].interfaces);
        let n = self.objects.len();
        let ghost class = self@.class_of(factory);
        proof {
            assert(class == self@.classes[k as int]);
            assert(class.interfaces == interfaces@);
            crate::invariants::lemma_with_instance_keeps_wf(self@, class, outer);
        }
        match outer {
            None => {
                self.objects.push(
                    ComObject {
                        live: true,
                        interfaces,
                        ref_count: 1,
                        outer: None,
                        inners: Vec::new(),
                        factory_of: None,
                    },
                );
                proof {
                    assert(self@.objects =~= old(self)@.with_instance(class, outer).objects);
                    assert(self@.classes =~= old(self)@.classes);
                    assert(self@.tables =~= old(self)@.tables);
                }
                let r = self.query_interface(InterfacePointer { object: n, field: 0 }, iid);
                self.release(InterfacePointer { object: n, field: 0 });
                r
            },
            Some(op) => {
                let c = self.controller(op.object);
                self.objects.push(
                    ComObject {
                        live: true,
                        interfaces,
                        ref_count: 1,
                        outer: Some(InterfacePointer { object: c, field: 0 }),
                        inners: Vec::new(),
                        factory_of: None,
                    },
                );
                self.objects[c].inners.push(n);
                proof {
                    assert(self@.objects =~= old(self)@.with_instance(class, outer).objects);
                    assert(self@.classes =~= old(self)@.classes);
                    assert(self@.tables =~= old(self)@.tables);
                }
                let r = self.inner_query_interface(ControlPointer { object: n }, iid);
                if r.is_err() {
                    self.inner_release(ControlPointer { object: n });
                }
                r
            },
        }
    }

    fn find_class(&self, clsid: ClassId) -> (r: Option<usize>)
        ensures
            match r {
                Some(k) => self@.class_index(clsid) == Some(k as int) && k < self@.classes.len()
                    && self@.classes[k as int].clsid == clsid,
                None => self@.class_index(clsid).is_none(),
            },
    {
        let ghost ids = self@.classes.map_values(|c: ClassModel| c.clsid);
        let mut k: usize = 0;
        while k < self.classes.len()
            invariant
                0 <= k <= self.classes@.len(),
                ids == self@.classes.map_values(|c: ClassModel| c.clsid),
                ids.len() == self.classes@.len(),
                forall|j: int| 0 <= j < k ==> ids[j] != clsid,
            decreases self.classes@.len() - k,
        {
            if self.classes[k].clsid == clsid {
                proof {
                    assert(ids[k as int] == clsid);
                    ids.index_of_first_ensures(clsid);
                }
                return Some(k);
            }
            k += 1;
        }
        proof {
            ids.index_of_first_ensures(clsid);
        }
        None
    }

    /// GetClassObject: looks `clsid` up in the activation table and returns
    /// a new factory for it, as its pointer for `iid`.
    ///
    /// For a class that the table does not hold the result is
    /// `ClassNotAvailable` and nothing changes. On success the caller holds
    /// exactly one reference to the new factory. Where the factory has no
    /// interface `iid`, the result is `NoSuchInterface` and the factory is
    /// destroyed again.
    pub fn get_class_object(&mut self, clsid: ClassId, iid: InterfaceId) -> (r: Result<
        InterfacePointer,
        ComError,
    >)
        requires
            old(self).wf(),
            old(self)@.has_class(clsid) ==> old(self)@.objects.len() < usize::MAX,
        ensures
            final(self).wf(),
            r == old(self)@.get_class_object_result(clsid, iid),
            final(self)@ == old(self)@.get_class_object(clsid, iid),
            (r == Err::<InterfacePointer, ComError>(ComError::ClassNotAvailable)) == !old(self)@.has_class(
                clsid,
            ),
            r == Err::<InterfacePointer, ComError>(ComError::ClassNotAvailable) ==> final(self)@ == old(self)@,
            r.is_ok() == (old(self)@.has_class(clsid) && (iid == InterfaceId::spec_unknown() || iid
                == InterfaceId::spec_class_factory())),
            r matches Ok(q) ==> {
                &&& final(self)@.is_factory(q)
                &&& final(self)@.class_of(q).clsid == clsid
                &&& final(self)@.ref_count(q) == 1
                &&& q == first_field(old(self)@.next_id())
            },
            r.is_err() ==> forall|x: usize| final(self)@.is_live(x) == old(self)@.is_live(x),
            forall|x: usize| #[trigger]
                old(self)@.is_live(x) ==> final(self)@.is_live(x) && final(self)@.object(x) == old(self)@.object(x),
            forall|p: InterfacePointer| #[trigger]
                old(self)@.is_factory(p) ==> final(self)@.is_factory(p) && final(self)@.class_of(p) == old(self)@.class_of(p),
            final(self)@.classes == old(self)@.classes,
            final(self)@.tables == old(self)@.tables,
            final(self)@.server_locks == old(self)@.server_locks,
    {
        let found = self.find_class(clsid);
        proof {
            crate::invariants::lemma_class_index(self@, clsid);
            crate::laws::law_get_class_object(self@, clsid, iid);
        }
        let k = match found {
            Some(k) => k,
            None => { return Err(ComError::ClassNotAvailable); },
        };
        let n = self.objects.len();
        let mut interfaces: Vec<InterfaceId> = Vec::new();
        interfaces.push(InterfaceId::class_factory());
        proof {
            assert(interfaces@ =~= seq![InterfaceId::spec_class_factory()]);
            crate::invariants::lemma_push_keeps_wf(self@, new_factory(k));
        }
        self.objects.push(
            ComObject {
                live: true,
                interfaces,
                ref_count: 1,
                outer: None,
                inners: Vec::new(),
                factory_of: Some(k),
            },
        );
        proof {
            assert(self@.objects =~= old(self)@.push(new_factory(k)).objects);
            assert(self@.classes =~= old(self)@.classes);
            assert(self@.tables =~= old(self)@.tables);
        }
        let r = self.query_interface(InterfacePointer { object: n, field: 0 }, iid);
        self.release(InterfacePointer { object: n, field: 0 });
        r
    }

    /// LockServer: an advisory sign that the process should stay loaded
    /// (`lock`) or need no longer (`!lock`). It is kept as a counter that
    /// saturates at both ends; the new value is returned.
    pub fn lock_server(&mut self, factory: InterfacePointer, lock: bool) -> (locks: u32)
        requires
            old(self).wf(),
            old(self)@.is_factory(factory),
        ensures
            final(self).wf(),
            final(self)@ == old(self)@.lock_server(lock),
            locks == final(self)@.server_locks,
    {
        if lock {
            if self.server_locks < u32::MAX {
                self.server_locks = self.server_locks + 1;
            }
        } else {
            if self.server_locks > 0 {
                self.server_locks = self.server_locks - 1;
            }
        }
        proof {
            assert(final(self)@.objects =~= old(self)@.objects);
            assert(final(self)@.classes =~= old(self)@.classes);
            assert(final(self)@.tables =~= old(self)@.tables);
            assert forall|o: usize| #[trigger] final(self)@.is_live(o) implies final(self)@.object_wf(o) by {
                assert(old(self)@.is_live(o));
                assert(old(self)@.object_wf(o));
            }
        }
        self.server_locks
    }

    /// The identity of the logical object behind `p`: the pointer that a
    /// query for the identity interface through `p` answers with. It is
    /// handed out for comparison only and is not counted as a reference.
    pub fn identity(&self, p: InterfacePointer) -> (id: InterfacePointer)
        requires
            self.wf(),
            self@.valid(p),
        ensures
            Some(id) == self@.query_result(p, InterfaceId::spec_unknown()),
            id == self@.identity(p.object),
            self@.valid(id),
            self@.is_aggregated(p.object) ==> Some(id) == self@.object(p.object).outer,
    {
        proof {
            assert(self@.object_wf(p.object));
            crate::laws::law_identity_is_unique(self@, p, p);
        }
        InterfacePointer { object: self.controller(p.object), field: 0 }
    }

    /// The identity that the private surface `inner` answers with: that of
    /// the controlling object, never one of the inner object's own. It is
    /// handed out for comparison only and is not counted as a reference.
    pub fn inner_identity(&self, inner: ControlPointer) -> (id: InterfacePointer)
        requires
            self.wf(),
            self@.is_aggregated(inner.object),
        ensures
            Some(id) == self@.resolve(inner.object, InterfaceId::spec_unknown()),
            Some(id) == self@.object(inner.object).outer,
            id.object != inner.object,
            self@.valid(id),
            Some(id) == self@.query_result(id, InterfaceId::spec_unknown()),
    {
        proof {
            assert(self@.object_wf(inner.object));
            assert(self@.object_wf(self@.controller(inner.object)));
        }
        InterfacePointer { object: self.controller(inner.object), field: 0 }
    }

    /// Whether a query through `p` for `iid` would be answered. Nothing is
    /// counted.
    pub fn implements(&self, p: InterfacePointer, iid: InterfaceId) -> (b: bool)
        requires
            self.wf(),
            self@.valid(p),
        ensures
            b == self@.implements(self@.controller(p.object), iid),
            b == self@.query_result(p, iid).is_some(),
    {
        let c = self.controller(p.object);
        proof {
            crate::laws::law_query_answers_what_is_implemented(self@, p, iid);
        }
        self.resolve(c, iid).is_some()
    }

    /// Whether a query on the private surface `inner` for `iid` would be
    /// answered. Nothing is counted.
    pub fn inner_implements(&self, inner: ControlPointer, iid: InterfaceId) -> (b: bool)
        requires
            self.wf(),
            self@.is_aggregated(inner.object),
        ensures
            b == self@.resolve(inner.object, iid).is_some(),
    {
        self.resolve(inner.object, iid).is_some()
    }

    /// Whether the activation table holds the class.
    pub fn has_class(&self, clsid: ClassId) -> (b: bool)
        ensures
            b == self@.has_class(clsid),
    {
        let found = self.find_class(clsid);
        proof {
            if found.is_none() {
                crate::invariants::lemma_class_index(self@, clsid);
            }
        }
        found.is_some()
    }

    /// The class that the factory behind `factory` constructs.
    pub fn factory_class(&self, factory: InterfacePointer) -> (class: &ClassEntry)
        requires
            self.wf(),
            self@.is_factory(factory),
        ensures
            class@ == self@.class_of(factory),
    {
        proof {
            assert(self@.object_wf(factory.object));
        }
        let k = self.objects[factory.object].factory_of.unwrap();
        &self.classes[k]
    }

    /// Whether an object may be aggregated into the logical object that
    /// `op` points into.
    pub fn can_be_outer(&self, op: InterfacePointer) -> (b: bool)
        requires
            self.wf(),
        ensures
            b == self@.can_be_outer(op),
    {
        if !self.is_valid(op) {
            return false;
        }
        let c = self.controller(op.object);
        self.objects[c].factory_of.is_none()
    }

    /// The interface that `p` was obtained for.
    pub fn interface_at(&self, p: InterfacePointer) -> (iid: InterfaceId)
        requires
            self@.valid(p),
        ensures
            iid == self@.interface_at(p),
    {
        self.objects[p.object].interfaces[p.field]
    }

    /// Whether `p` and `q` point into the same logical object: whether both
    /// give the same answer when asked for the identity interface.
    pub fn same_object(&self, p: InterfacePointer, q: InterfacePointer) -> (b: bool)
        requires
            self.wf(),
            self@.valid(p),
            self@.valid(q),
        ensures
            b == (self@.identity(p.object) == self@.identity(q.object)),
            b == (self@.query_result(p, InterfaceId::spec_unknown()) == self@.query_result(
                q,
                InterfaceId::spec_unknown(),
            )),
    {
        self.controller(p.object) == self.controller(q.object)
    }

    /// The private surfaces of the inner objects that the logical object
    /// behind `p` owns, in the order in which they were attached.
    pub fn inners(&self, p: InterfacePointer) -> (r: Vec<ControlPointer>)
        requires
            self.wf(),
            self@.valid(p),
        ensures
            r@.len() == self@.object(self@.controller(p.object)).inners.len(),
            forall|k: int|
                0 <= k < r@.len() ==> (#[trigger] r@[k]).object == self@.object(
                    self@.controller(p.object),
                ).inners[k],
            forall|k: int| 0 <= k < r@.len() ==> self@.is_aggregated((#[trigger] r@[k]).object),
    {
        let c = self.controller(p.object);
        let mut r: Vec<ControlPointer> = Vec::new();
        let mut k: usize = 0;
        proof {
            assert(self@.object_wf(c));
        }
        while k < self.objects[c].inners.len()
            invariant
                self.wf(),
                self@.is_live(c),
                c == self@.controller(p.object),
                0 <= k <= self.objects@[c as int].inners@.len(),
                self.objects@[c as int].inners@ == self@.object(c).inners,
                r@.len() == k,
                forall|j: int| 0 <= j < k ==> (#[trigger] r@[j]).object == self@.object(c).inners[j],
                forall|j: int| 0 <= j < k ==> self@.is_aggregated((#[trigger] r@[j]).object),
            decreases self.objects@[c as int].inners@.len() - k,
        {
            proof {
                assert(self@.object_wf(c));
                assert(self@.is_live(self@.object(c).inners[k as int]));
            }
            r.push(ControlPointer { object: self.objects[c].inners[k] });
            k += 1;
        }
        r
    }

    /// Publishes the function-pointer table of an interface. A published
    /// table is never changed or replaced: for an interface that already
    /// has one, the table is refused and `false` is returned. So is a table
    /// for the identity interface or the class factory interface, whose
    /// tables are fixed.
    pub fn publish(&mut self, table: VTable) -> (added: bool)
        requires
            old(self).wf(),
            table.wf(),
        ensures
            final(self).wf(),
            final(self)@ == old(self)@.publish(table_model(table)),
            added == old(self)@.may_publish(table.spec_iid()),
            table.spec_iid() == InterfaceId::spec_unknown() || table.spec_iid()
                == InterfaceId::spec_class_factory() ==> !added,
            forall|p: InterfacePointer, slot: usize|
                old(self)@.valid(p) && old(self)@.dispatch(p, slot).is_some() ==> #[trigger] final(self)@.dispatch(p, slot) == old(self)@.dispatch(p, slot),
    {
        let iid = table.iid();
        if iid.is_unknown() || iid == InterfaceId::class_factory() || self.find_table(iid).is_some() {
            return false;
        }
        self.tables.push(table);
        proof {
            assert(final(self)@.objects =~= old(self)@.objects);
            assert(final(self)@.classes =~= old(self)@.classes);
            assert(final(self)@.tables =~= old(self)@.tables.push(table_model(table)));
            assert forall|o: usize| #[trigger] final(self)@.is_live(o) implies final(self)@.object_wf(o) by {
                assert(old(self)@.is_live(o));
                assert(old(self)@.object_wf(o));
            }
            assert forall|p: InterfacePointer, slot: usize|
                old(self)@.valid(p) && old(self)@.dispatch(p, slot).is_some() implies #[trigger] final(self)@.dispatch(p, slot) == old(self)@.dispatch(p, slot) by {
                crate::invariants::lemma_publish_keeps_tables(
                    old(self)@,
                    table_model(table),
                    old(self)@.interface_at(p),
                );
            }
        }
        true
    }

    fn find_table(&self, iid: InterfaceId) -> (r: Option<usize>)
        ensures
            match r {
                Some(k) => self@.table_of(iid) == Some(k as int) && k < self.tables@.len(),
                None => self@.table_of(iid).is_none(),
            },
    {
        let ghost ids = self@.tables.map_values(|t: TableModel| t.iid);
        let mut k: usize = 0;
        while k < self.tables.len()
            invariant
                0 <= k <= self.tables@.len(),
                ids == self@.tables.map_values(|t: TableModel| t.iid),
                ids.len() == self.tables@.len(),
                forall|j: int| 0 <= j < k ==> ids[j] != iid,
            decreases self.tables@.len() - k,
        {
            if self.tables[k].iid() == iid {
                proof {
                    assert(ids[k as int] == iid);
                    ids.index_of_first_ensures(iid);
                }
                return Some(k);
            }
            k += 1;
        }
        proof {
            ids.index_of_first_ensures(iid);
        }
        None
    }

    /// Dispatch: what a call through `p` at slot `slot` of its table goes
    /// to. The first three slots of every table are the identity query, the
    /// increment and the decrement; the interface's own methods follow. In
    /// the table of a class factory these are CreateInstance and
    /// LockServer. `None` where the table has no such slot.
    pub fn dispatch(&self, p: InterfacePointer, slot: usize) -> (e: Option<SlotEntry>)
        requires
            self.wf(),
            self@.valid(p),
        ensures
            e == self@.dispatch(p, slot),
            slot == SLOT_QUERY_INTERFACE ==> e == Some(SlotEntry::QueryInterface),
            slot == SLOT_ADD_REF ==> e == Some(SlotEntry::AddRef),
            slot == SLOT_RELEASE ==> e == Some(SlotEntry::Release),
            self@.interface_at(p) == InterfaceId::spec_class_factory() ==> {
                &&& slot == SLOT_CREATE_INSTANCE ==> e == Some(SlotEntry::CreateInstance)
                &&& slot == SLOT_LOCK_SERVER ==> e == Some(SlotEntry::LockServer)
                &&& slot > SLOT_LOCK_SERVER ==> e.is_none()
            },
            self@.is_factory(p) ==> self@.interface_at(p) == InterfaceId::spec_class_factory(),
    {
        let iid = self.objects[p.object].interfaces[p.field];
        proof {
            crate::invariants::lemma_reserved_slots_dispatch(self@, iid);
            assert(self@.object_wf(p.object));
        }
        if iid.is_unknown() {
            reserved_entry(slot)
        } else if iid == InterfaceId::class_factory() {
            class_factory_entry(slot)
        } else {
            match self.find_table(iid) {
                Some(k) => self.tables[k].entry(slot),
                None => reserved_entry(slot),
            }
        }
    }

    /// The current value of the server lock counter.
    pub fn server_locks(&self) -> (locks: u32)
        ensures
            locks == self@.server_locks,
    {
        self.server_locks
    }
}

/// A table as a mathematical value.
pub open spec fn table_model(table: VTable) -> TableModel {
    TableModel { iid: table.spec_iid(), slots: table@ }
}

fn copy_interfaces(v: &Vec<InterfaceId>) -> (r: Vec<InterfaceId>)
    ensures
        r@ == v@,
{
    let mut r: Vec<InterfaceId> = Vec::new();
    let mut i: usize = 0;
    while i < v.len()
        invariant
            0 <= i <= v@.len(),
            r@ == v@.subrange(0, i as int),
        decreases v@.len() - i,
    {
        r.push(v[i]);
        proof {
            assert(r@ =~= v@.subrange(0, i + 1));
        }
        i += 1;
    }
    proof {
        assert(v@.subrange(0, v@.len() as int) =~= v@);
    }
    r
}

} // verus!

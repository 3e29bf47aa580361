//! The layout of an interface's table of function pointers.
//!
//! Every table starts with the three slots that all interfaces share, in a
//! fixed order; the methods of the interface itself follow in the order in
//! which they were declared. A table only ever grows at its end.

use vstd::prelude::*;
use crate::ids::InterfaceId;

verus! {

/// Number of slots that every table reserves at its start.
pub const RESERVED_SLOTS: usize = 3;

/// Slot of the identity query.
pub const SLOT_QUERY_INTERFACE: usize = 0;

/// Slot of the reference increment.
pub const SLOT_ADD_REF: usize = 1;

/// Slot of the reference decrement.
pub const SLOT_RELEASE: usize = 2;

/// Slot of CreateInstance in the table of the class factory interface.
pub const SLOT_CREATE_INSTANCE: usize = 3;

/// Slot of LockServer in the table of the class factory interface.
pub const SLOT_LOCK_SERVER: usize = 4;

/// What one slot of a table dispatches to.
#[derive(Clone, Copy, Debug, PartialEq, Eq, Structural)]
pub enum SlotEntry {
    QueryInterface,
    AddRef,
    Release,
    /// The class factory interface's method that constructs an instance.
    CreateInstance,
    /// The class factory interface's method that keeps the server loaded.
    LockServer,
    /// A method of the interface itself, named by the number it was declared with.
    Method(u32),
}

/// The three reserved slots, in their fixed order.
pub open spec fn reserved_slots() -> Seq<SlotEntry> {
    seq![SlotEntry::QueryInterface, SlotEntry::AddRef, SlotEntry::Release]
}

/// The table of the class factory interface: the reserved slots, then
/// CreateInstance, then LockServer.
pub open spec fn class_factory_slots() -> Seq<SlotEntry> {
    seq![
        SlotEntry::QueryInterface,
        SlotEntry::AddRef,
        SlotEntry::Release,
        SlotEntry::CreateInstance,
        SlotEntry::LockServer,
    ]
}

/// What slot `slot` of the class factory interface's table dispatches to;
/// `None` where the table has no such slot.
pub fn class_factory_entry(slot: usize) -> (e: Option<SlotEntry>)
    ensures
        slot < class_factory_slots().len() ==> e == Some(class_factory_slots()[slot as int]),
        slot >= class_factory_slots().len() ==> e.is_none(),
        class_factory_slots().len() == 5,
{
    if slot == SLOT_QUERY_INTERFACE {
        Some(SlotEntry::QueryInterface)
    } else if slot == SLOT_ADD_REF {
        Some(SlotEntry::AddRef)
    } else if slot == SLOT_RELEASE {
        Some(SlotEntry::Release)
    } else if slot == SLOT_CREATE_INSTANCE {
        Some(SlotEntry::CreateInstance)
    } else if slot == SLOT_LOCK_SERVER {
        Some(SlotEntry::LockServer)
    } else {
        None
    }
}

/// What slot `slot` of a table with the reserved slots alone dispatches to.
pub fn reserved_entry(slot: usize) -> (e: Option<SlotEntry>)
    ensures
        slot < RESERVED_SLOTS ==> e == Some(reserved_slots()[slot as int]),
        slot >= RESERVED_SLOTS ==> e.is_none(),
{
    if slot == SLOT_QUERY_INTERFACE {
        Some(SlotEntry::QueryInterface)
    } else if slot == SLOT_ADD_REF {
        Some(SlotEntry::AddRef)
    } else if slot == SLOT_RELEASE {
        Some(SlotEntry::Release)
    } else {
        None
    }
}

/// The slots of a table whose own methods are `methods`, in declaration order.
pub open spec fn layout(methods: Seq<u32>) -> Seq<SlotEntry> {
    reserved_slots() + methods.map_values(|m: u32| SlotEntry::Method(m))
}

/// The function-pointer table of one interface.
pub struct VTable {
    iid: InterfaceId,
    slots: Vec<SlotEntry>,
}

impl VTable {
    /// The interface that this table belongs to.
    pub closed spec fn spec_iid(&self) -> InterfaceId {
        self.iid
    }

    /// The table's slots in order.
    pub closed spec fn view(&self) -> Seq<SlotEntry> {
        self.slots@
    }

    /// The table starts with the reserved slots, and every later slot is a
    /// method of the interface itself.
    pub open spec fn wf(&self) -> bool {
        &&& self@.len() >= RESERVED_SLOTS
        &&& self@.subrange(0, RESERVED_SLOTS as int) == reserved_slots()
        &&& forall|k: int| RESERVED_SLOTS <= k < self@.len() ==> (#[trigger] self@[k]) is Method
    }

    /// A table with the reserved slots only.
    pub fn new(iid: InterfaceId) -> (table: VTable)
        ensures
            table.wf(),
            table.spec_iid() == iid,
            table@ == reserved_slots(),
    {
        let mut slots: Vec<SlotEntry> = Vec::new();
        slots.push(SlotEntry::QueryInterface);
        slots.push(SlotEntry::AddRef);
        slots.push(SlotEntry::Release);
        let table = VTable { iid, slots };
        assert(table@ =~= reserved_slots());
        assert(table@.subrange(0, RESERVED_SLOTS as int) =~= reserved_slots());
        table
    }

    /// The interface that this table belongs to.
    #[verifier::when_used_as_spec(spec_iid)]
    pub fn iid(&self) -> (iid: InterfaceId)
        ensures
            iid == self.spec_iid(),
    {
        self.iid
    }

    /// Number of slots.
    pub fn len(&self) -> (n: usize)
        ensures
            n == self@.len(),
    {
        self.slots.len()
    }

    /// Declares one more method. It takes the slot after the last one, which
    /// is returned; no existing slot moves.
    pub fn append(&mut self, method: u32) -> (slot: usize)
        requires
            old(self).wf(),
        ensures
            final(self).wf(),
            final(self).spec_iid() == old(self).spec_iid(),
            slot == old(self)@.len(),
            final(self)@ == old(self)@.push(SlotEntry::Method(method)),
            forall|k: int| 0 <= k < old(self)@.len() ==> final(self)@[k] == old(self)@[k],
    {
        let n = self.slots.len();
        self.slots.push(SlotEntry::Method(method));
        proof {
            assert(final(self)@.subrange(0, RESERVED_SLOTS as int) =~= old(self)@.subrange(
                0,
                RESERVED_SLOTS as int,
            ));
        }
        n
    }

    /// What slot `slot` dispatches to; `None` when the table has no such slot.
    pub fn entry(&self, slot: usize) -> (e: Option<SlotEntry>)
        ensures
            slot < self@.len() ==> e == Some(self@[slot as int]),
            slot >= self@.len() ==> e.is_none(),
    {
        if slot < self.slots.len() {
            Some(self.slots[slot])
        } else {
            None
        }
    }

    /// The first slot that dispatches to `method`, if the interface declares it.
    pub fn slot_of(&self, method: u32) -> (slot: Option<usize>)
        ensures
            match slot {
                Some(k) => {
                    &&& k < self@.len()
                    &&& self@[k as int] == SlotEntry::Method(method)
                    &&& forall|j: int| 0 <= j < k ==> self@[j] != SlotEntry::Method(method)
                },
                None => forall|j: int| 0 <= j < self@.len() ==> self@[j] != SlotEntry::Method(method),
            },
    {
        let mut i: usize = 0;
        while i < self.slots.len()
            invariant
                0 <= i <= self.slots@.len(),
                forall|j: int| 0 <= j < i ==> self.slots@[j] != SlotEntry::Method(method),
            decreases self.slots@.len() - i,
        {
            match self.slots[i] {
                SlotEntry::Method(m) => {
                    if m == method {
                        return Some(i);
                    }
                },
                _ => {},
            }
            i += 1;
        }
        None
    }
}

/// A well-formed table is the layout of the methods that it declares.
pub proof fn law_wf_is_layout(table: VTable)
    requires
        table.wf(),
    ensures
        exists|methods: Seq<u32>| table@ == layout(methods),
{
    let methods = Seq::new(
        (table@.len() - RESERVED_SLOTS) as nat,
        |i: int| table@[RESERVED_SLOTS + i]->Method_0,
    );
    assert(table@.subrange(0, RESERVED_SLOTS as int)[0] == reserved_slots()[0]);
    assert(table@.subrange(0, RESERVED_SLOTS as int)[1] == reserved_slots()[1]);
    assert(table@.subrange(0, RESERVED_SLOTS as int)[2] == reserved_slots()[2]);
    assert(table@ =~= layout(methods));
}

/// A table that grew by declaring methods still dispatches each of its
/// earlier slots to what it dispatched to before.
pub proof fn law_layout_is_append_only(methods: Seq<u32>, more: Seq<u32>, k: int)
    requires
        0 <= k < layout(methods).len(),
    ensures
        layout(methods + more).len() == layout(methods).len() + more.len(),
        layout(methods + more)[k] == layout(methods)[k],
{
}

/// The reserved slots stand at the start of every table, whatever it declares.
pub proof fn law_reserved_slots_lead(methods: Seq<u32>)
    ensures
        layout(methods).len() == RESERVED_SLOTS + methods.len(),
        layout(methods)[SLOT_QUERY_INTERFACE as int] == SlotEntry::QueryInterface,
        layout(methods)[SLOT_ADD_REF as int] == SlotEntry::AddRef,
        layout(methods)[SLOT_RELEASE as int] == SlotEntry::Release,
        forall|i: int| 0 <= i < methods.len() ==> layout(methods)[RESERVED_SLOTS + i] == SlotEntry::Method(methods[i]),
{
}

} // verus!

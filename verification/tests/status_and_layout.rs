use com_model::ids::{ClassId, InterfaceId, IID_ICLASS_FACTORY, IID_IUNKNOWN};
use com_model::layout::{enclosing_object, field_address, field_offset, FIELD_SIZE};
use com_model::model::InterfacePointer;
use com_model::status::{
    is_failure, status_code, ComError, CLASS_E_CLASSNOTAVAILABLE, CLASS_E_NOAGGREGATION,
    E_NOINTERFACE, SELFREG_E_CLASS, S_OK,
};
use com_model::vtable::{
    class_factory_entry, reserved_entry, SlotEntry, VTable, RESERVED_SLOTS, SLOT_ADD_REF,
    SLOT_CREATE_INSTANCE, SLOT_LOCK_SERVER, SLOT_QUERY_INTERFACE, SLOT_RELEASE,
};

#[test]
fn well_known_interface_ids() {
    assert_eq!(IID_IUNKNOWN, 0x00000000_0000_0000_C000_000000000046);
    assert_eq!(IID_ICLASS_FACTORY, 0x00000001_0000_0000_C000_000000000046);
    assert_eq!(InterfaceId::unknown(), InterfaceId::new(IID_IUNKNOWN));
    assert_eq!(InterfaceId::class_factory(), InterfaceId::new(IID_ICLASS_FACTORY));
    assert!(InterfaceId::unknown().is_unknown());
    assert!(!InterfaceId::class_factory().is_unknown());
    assert_ne!(ClassId::new(1), ClassId::new(2));
}

#[test]
fn status_codes_have_their_values() {
    assert_eq!(S_OK, 0);
    assert_eq!(ComError::NoSuchInterface.code(), 0x80004002);
    assert_eq!(ComError::AggregationNotSupported.code(), 0x80040110);
    assert_eq!(ComError::ClassNotAvailable.code(), 0x80040111);
    assert_eq!(ComError::RegistrationPartialFailure.code(), 0x80040201);
    assert_eq!(E_NOINTERFACE, 0x80004002);
    assert_eq!(CLASS_E_NOAGGREGATION, 0x80040110);
    assert_eq!(CLASS_E_CLASSNOTAVAILABLE, 0x80040111);
    assert_eq!(SELFREG_E_CLASS, 0x80040201);
}

#[test]
fn status_codes_lead_back_to_their_failures() {
    for e in [
        ComError::NoSuchInterface,
        ComError::ClassNotAvailable,
        ComError::AggregationNotSupported,
        ComError::RegistrationPartialFailure,
    ] {
        assert_eq!(ComError::from_code(e.code()), Some(e));
        assert!(is_failure(e.code()));
    }
    assert_eq!(ComError::from_code(S_OK), None);
    assert_eq!(ComError::from_code(0x80004005), None);
}

#[test]
fn failure_is_the_top_bit() {
    assert!(!is_failure(0));
    assert!(!is_failure(1));
    assert!(!is_failure(0x7FFF_FFFF));
    assert!(is_failure(0x8000_0000));
    assert!(is_failure(0xFFFF_FFFF));
}

#[test]
fn status_code_of_an_outcome() {
    let ok: Result<InterfacePointer, ComError> = Ok(InterfacePointer { object: 0, field: 0 });
    let err: Result<InterfacePointer, ComError> = Err(ComError::ClassNotAvailable);
    assert_eq!(status_code(&ok), 0);
    assert_eq!(status_code(&err), 0x80040111);
}

#[test]
fn new_vtable_has_the_reserved_slots() {
    let table = VTable::new(InterfaceId::new(7));
    assert_eq!(table.iid(), InterfaceId::new(7));
    assert_eq!(table.len(), 3);
    assert_eq!(RESERVED_SLOTS, 3);
    assert_eq!(table.entry(SLOT_QUERY_INTERFACE), Some(SlotEntry::QueryInterface));
    assert_eq!(table.entry(SLOT_ADD_REF), Some(SlotEntry::AddRef));
    assert_eq!(table.entry(SLOT_RELEASE), Some(SlotEntry::Release));
    assert_eq!(table.entry(0), Some(SlotEntry::QueryInterface));
    assert_eq!(table.entry(1), Some(SlotEntry::AddRef));
    assert_eq!(table.entry(2), Some(SlotEntry::Release));
    assert_eq!(table.entry(3), None);
}

#[test]
fn vtable_grows_at_its_end_only() {
    let mut table = VTable::new(InterfaceId::new(7));
    assert_eq!(table.append(40), 3);
    assert_eq!(table.append(10), 4);
    let before: Vec<Option<SlotEntry>> = (0..table.len()).map(|k| table.entry(k)).collect();
    assert_eq!(table.append(40), 5);
    assert_eq!(table.len(), 6);
    for (k, e) in before.iter().enumerate() {
        assert_eq!(table.entry(k), *e);
    }
    assert_eq!(table.entry(3), Some(SlotEntry::Method(40)));
    assert_eq!(table.entry(4), Some(SlotEntry::Method(10)));
    assert_eq!(table.entry(5), Some(SlotEntry::Method(40)));
    assert_eq!(table.entry(6), None);
    assert_eq!(table.iid(), InterfaceId::new(7));
}

#[test]
fn vtable_finds_the_first_slot_of_a_method() {
    let mut table = VTable::new(InterfaceId::new(7));
    table.append(40);
    table.append(10);
    table.append(40);
    assert_eq!(table.slot_of(40), Some(3));
    assert_eq!(table.slot_of(10), Some(4));
    assert_eq!(table.slot_of(0), None);
    assert_eq!(table.slot_of(2), None);
}

#[test]
fn field_offsets_are_fixed() {
    assert_eq!(FIELD_SIZE, 8);
    assert_eq!(field_offset(0), Some(0));
    assert_eq!(field_offset(1), Some(8));
    assert_eq!(field_offset(5), Some(40));
    assert_eq!(field_offset(usize::MAX), None);
    assert_eq!(field_offset(usize::MAX / 8), Some(usize::MAX - 7));
}

#[test]
fn field_address_leads_back_to_the_object() {
    assert_eq!(field_address(0x1000, 0), Some(0x1000));
    assert_eq!(field_address(0x1000, 2), Some(0x1010));
    assert_eq!(enclosing_object(0x1010, 2), Some(0x1000));
    assert_eq!(enclosing_object(0x1010, 0), Some(0x1010));
    for field in 0..4 {
        let address = field_address(0x2000, field).unwrap();
        assert_eq!(enclosing_object(address, field), Some(0x2000));
    }
    assert_eq!(field_address(usize::MAX, 1), None);
    assert_eq!(field_address(usize::MAX - 8, 1), Some(usize::MAX));
    assert_eq!(enclosing_object(7, 1), None);
    assert_eq!(enclosing_object(8, 1), Some(0));
    assert_eq!(enclosing_object(8, usize::MAX), None);
}

#[test]
fn class_factory_table_has_five_slots() {
    assert_eq!(SLOT_CREATE_INSTANCE, 3);
    assert_eq!(SLOT_LOCK_SERVER, 4);
    assert_eq!(class_factory_entry(0), Some(SlotEntry::QueryInterface));
    assert_eq!(class_factory_entry(1), Some(SlotEntry::AddRef));
    assert_eq!(class_factory_entry(2), Some(SlotEntry::Release));
    assert_eq!(class_factory_entry(3), Some(SlotEntry::CreateInstance));
    assert_eq!(class_factory_entry(4), Some(SlotEntry::LockServer));
    assert_eq!(class_factory_entry(5), None);
    assert_eq!(reserved_entry(2), Some(SlotEntry::Release));
    assert_eq!(reserved_entry(3), None);
}

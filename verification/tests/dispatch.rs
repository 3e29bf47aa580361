use com_model::ids::{ClassId, InterfaceId};
use com_model::model::InterfacePointer;
use com_model::runtime::{ClassEntry, Runtime};
use com_model::vtable::{SlotEntry, VTable};

const CLSID_CAT: u128 = 0xC5F45CBC_4439_418C_A9F9_05AC67525E43;
const IID_ANIMAL: u128 = 0xEFF8970E_C50F_45E0_9284_291CE5A6F771;
const IID_CAT: u128 = 0xF5353C58_CFD9_4204_8D92_D274C7578B53;

const METHOD_EAT: u32 = 1;
const METHOD_HAPPINESS: u32 = 2;
const METHOD_IGNORE_HUMANS: u32 = 3;

fn animal_table() -> VTable {
    let mut table = VTable::new(InterfaceId::new(IID_ANIMAL));
    table.append(METHOD_EAT);
    table.append(METHOD_HAPPINESS);
    table
}

fn runtime_with_cat() -> (Runtime, InterfacePointer, InterfacePointer) {
    let entry = ClassEntry::new(
        ClassId::new(CLSID_CAT),
        "Cat Component".to_string(),
        vec![InterfaceId::new(IID_ANIMAL), InterfaceId::new(IID_CAT)],
        false,
    )
    .unwrap();
    let mut rt = Runtime::new(vec![entry]);
    let f = rt.get_class_object(ClassId::new(CLSID_CAT), InterfaceId::class_factory()).unwrap();
    let animal = rt.create_instance(f, None, InterfaceId::new(IID_ANIMAL)).unwrap();
    let cat = InterfacePointer { object: animal.object, field: 1 };
    (rt, animal, cat)
}

#[test]
fn reserved_slots_dispatch_without_a_published_table() {
    let (rt, animal, cat) = runtime_with_cat();
    for p in [animal, cat] {
        assert_eq!(rt.dispatch(p, 0), Some(SlotEntry::QueryInterface));
        assert_eq!(rt.dispatch(p, 1), Some(SlotEntry::AddRef));
        assert_eq!(rt.dispatch(p, 2), Some(SlotEntry::Release));
        assert_eq!(rt.dispatch(p, 3), None);
    }
}

#[test]
fn methods_dispatch_in_declaration_order() {
    let (mut rt, animal, cat) = runtime_with_cat();
    assert!(rt.publish(animal_table()));
    assert_eq!(rt.dispatch(animal, 0), Some(SlotEntry::QueryInterface));
    assert_eq!(rt.dispatch(animal, 1), Some(SlotEntry::AddRef));
    assert_eq!(rt.dispatch(animal, 2), Some(SlotEntry::Release));
    assert_eq!(rt.dispatch(animal, 3), Some(SlotEntry::Method(METHOD_EAT)));
    assert_eq!(rt.dispatch(animal, 4), Some(SlotEntry::Method(METHOD_HAPPINESS)));
    assert_eq!(rt.dispatch(animal, 5), None);
    assert_eq!(rt.dispatch(cat, 3), None);
}

#[test]
fn each_field_reaches_the_table_of_its_interface() {
    let (mut rt, animal, cat) = runtime_with_cat();
    let mut cat_table = VTable::new(InterfaceId::new(IID_CAT));
    cat_table.append(METHOD_IGNORE_HUMANS);
    assert!(rt.publish(cat_table));
    assert!(rt.publish(animal_table()));
    assert_eq!(rt.dispatch(cat, 3), Some(SlotEntry::Method(METHOD_IGNORE_HUMANS)));
    assert_eq!(rt.dispatch(cat, 4), None);
    assert_eq!(rt.dispatch(animal, 3), Some(SlotEntry::Method(METHOD_EAT)));
}

#[test]
fn a_published_table_is_never_replaced() {
    let (mut rt, animal, _) = runtime_with_cat();
    assert!(rt.publish(animal_table()));
    let mut other = VTable::new(InterfaceId::new(IID_ANIMAL));
    other.append(METHOD_IGNORE_HUMANS);
    assert!(!rt.publish(other));
    assert_eq!(rt.dispatch(animal, 3), Some(SlotEntry::Method(METHOD_EAT)));
    assert_eq!(rt.dispatch(animal, 4), Some(SlotEntry::Method(METHOD_HAPPINESS)));
    assert_eq!(rt.dispatch(animal, 5), None);
}

#[test]
fn a_factory_dispatches_create_instance_and_lock_server() {
    let (mut rt, _, _) = runtime_with_cat();
    let f = rt.get_class_object(ClassId::new(CLSID_CAT), InterfaceId::class_factory()).unwrap();
    assert_eq!(rt.dispatch(f, 0), Some(SlotEntry::QueryInterface));
    assert_eq!(rt.dispatch(f, 1), Some(SlotEntry::AddRef));
    assert_eq!(rt.dispatch(f, 2), Some(SlotEntry::Release));
    assert_eq!(rt.dispatch(f, 3), Some(SlotEntry::CreateInstance));
    assert_eq!(rt.dispatch(f, 4), Some(SlotEntry::LockServer));
    assert_eq!(rt.dispatch(f, 5), None);
    assert_eq!(rt.dispatch(f, usize::MAX), None);
}

#[test]
fn fixed_tables_cannot_be_published() {
    let (mut rt, _, _) = runtime_with_cat();
    let f = rt.get_class_object(ClassId::new(CLSID_CAT), InterfaceId::class_factory()).unwrap();
    let mut table = VTable::new(InterfaceId::class_factory());
    table.append(METHOD_EAT);
    table.append(METHOD_HAPPINESS);
    table.append(METHOD_IGNORE_HUMANS);
    assert!(!rt.publish(table));
    assert_eq!(rt.dispatch(f, 3), Some(SlotEntry::CreateInstance));
    assert_eq!(rt.dispatch(f, 4), Some(SlotEntry::LockServer));
    assert_eq!(rt.dispatch(f, 5), None);
    let mut identity_table = VTable::new(InterfaceId::unknown());
    identity_table.append(METHOD_EAT);
    assert!(!rt.publish(identity_table));
}

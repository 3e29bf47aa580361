use com_model::ids::{ClassId, InterfaceId};
use com_model::model::{ControlPointer, InterfacePointer};
use com_model::runtime::{ClassEntry, Runtime};
use com_model::status::ComError;

const CLSID_CAT: u128 = 0xC5F45CBC_4439_418C_A9F9_05AC67525E43;
const CLSID_FILE_MANAGER: u128 = 0x5FFA71BD_6D1D_4727_8B5A_A8F6F4E2E9A1;
const CLSID_UNKNOWN_CLASS: u128 = 0xDEAD;
const IID_ANIMAL: u128 = 0xEFF8970E_C50F_45E0_9284_291CE5A6F771;
const IID_CAT: u128 = 0xF5353C58_CFD9_4204_8D92_D274C7578B53;
const IID_FILE_MANAGER: u128 = 0x25A41124_23D0_46BE_8351_044889D5E37E;
const IID_NOT_IMPLEMENTED: u128 = 0x1234;

fn class(clsid: u128, name: &str, interfaces: &[u128], aggregable: bool) -> ClassEntry {
    let interfaces = interfaces.iter().map(|v| InterfaceId::new(*v)).collect();
    ClassEntry::new(ClassId::new(clsid), name.to_string(), interfaces, aggregable)
        .expect("a class with interfaces")
}

fn runtime() -> Runtime {
    Runtime::new(vec![
        class(CLSID_CAT, "Cat Component", &[IID_ANIMAL, IID_CAT], false),
        class(CLSID_FILE_MANAGER, "File Manager Component", &[IID_FILE_MANAGER], true),
    ])
}

fn factory(rt: &mut Runtime, clsid: u128) -> InterfacePointer {
    rt.get_class_object(ClassId::new(clsid), InterfaceId::class_factory()).expect("a factory")
}

fn cat(rt: &mut Runtime) -> InterfacePointer {
    let f = factory(rt, CLSID_CAT);
    rt.create_instance(f, None, InterfaceId::new(IID_ANIMAL)).expect("a cat")
}

#[test]
fn new_runtime_is_empty() {
    let rt = runtime();
    assert_eq!(rt.allocated(), 0);
    assert_eq!(rt.classes().len(), 2);
    assert_eq!(rt.classes()[1].clsid(), ClassId::new(CLSID_FILE_MANAGER));
    assert_eq!(rt.server_locks(), 0);
    assert!(!rt.is_live(0));
    assert!(!rt.is_valid(InterfacePointer { object: 0, field: 0 }));
}

#[test]
fn class_without_interfaces_is_no_class() {
    assert!(ClassEntry::new(ClassId::new(1), "Empty".to_string(), Vec::new(), false).is_none());
    let entry = class(CLSID_CAT, "Cat Component", &[IID_ANIMAL], true);
    assert_eq!(entry.clsid(), ClassId::new(CLSID_CAT));
    assert_eq!(entry.name(), "Cat Component");
    assert_eq!(entry.interfaces(), &vec![InterfaceId::new(IID_ANIMAL)]);
    assert!(entry.aggregable());
}

#[test]
fn get_class_object_returns_factory_with_one_reference() {
    let mut rt = runtime();
    let f = rt.get_class_object(ClassId::new(CLSID_CAT), InterfaceId::class_factory());
    assert_eq!(f, Ok(InterfacePointer { object: 0, field: 0 }));
    let f = f.unwrap();
    assert!(rt.is_factory(f));
    assert_eq!(rt.ref_count(f), 1);
    assert_eq!(rt.interface_at(f), InterfaceId::class_factory());
    assert_eq!(rt.allocated(), 1);
}

#[test]
fn get_class_object_by_identity_interface() {
    let mut rt = runtime();
    let f = rt.get_class_object(ClassId::new(CLSID_FILE_MANAGER), InterfaceId::unknown());
    assert_eq!(f, Ok(InterfacePointer { object: 0, field: 0 }));
    assert_eq!(rt.ref_count(f.unwrap()), 1);
}

#[test]
fn get_class_object_for_unknown_class_is_class_not_available() {
    let mut rt = runtime();
    let r = rt.get_class_object(ClassId::new(CLSID_UNKNOWN_CLASS), InterfaceId::class_factory());
    assert_eq!(r, Err(ComError::ClassNotAvailable));
    assert_eq!(rt.allocated(), 0);
}

#[test]
fn get_class_object_for_other_interface_is_no_such_interface() {
    let mut rt = runtime();
    let r = rt.get_class_object(ClassId::new(CLSID_CAT), InterfaceId::new(IID_ANIMAL));
    assert_eq!(r, Err(ComError::NoSuchInterface));
    assert_eq!(rt.allocated(), 1);
    assert!(!rt.is_live(0));
}

#[test]
fn each_factory_is_an_object_of_its_own() {
    let mut rt = runtime();
    let f1 = factory(&mut rt, CLSID_CAT);
    let f2 = factory(&mut rt, CLSID_CAT);
    assert_ne!(f1, f2);
    assert!(!rt.same_object(f1, f2));
    assert_eq!(rt.add_ref(f1), 2);
    assert_eq!(rt.ref_count(f2), 1);
}

#[test]
fn create_instance_returns_one_reference() {
    let mut rt = runtime();
    let f = factory(&mut rt, CLSID_CAT);
    let p = rt.create_instance(f, None, InterfaceId::new(IID_CAT));
    assert_eq!(p, Ok(InterfacePointer { object: 1, field: 1 }));
    let p = p.unwrap();
    assert!(rt.is_valid(p));
    assert!(!rt.is_factory(p));
    assert_eq!(rt.ref_count(p), 1);
    assert_eq!(rt.interface_at(p), InterfaceId::new(IID_CAT));
    assert_eq!(rt.ref_count(f), 1);
}

#[test]
fn create_instance_for_missing_interface_leaves_nothing() {
    let mut rt = runtime();
    let f = factory(&mut rt, CLSID_CAT);
    let r = rt.create_instance(f, None, InterfaceId::new(IID_NOT_IMPLEMENTED));
    assert_eq!(r, Err(ComError::NoSuchInterface));
    assert!(!rt.is_live(1));
    assert!(rt.is_live(0));
    assert_eq!(rt.ref_count(f), 1);
}

#[test]
fn create_instance_refuses_aggregation_without_allocating() {
    let mut rt = runtime();
    let f = factory(&mut rt, CLSID_CAT);
    let outer_factory = factory(&mut rt, CLSID_FILE_MANAGER);
    let outer = rt.create_instance(outer_factory, None, InterfaceId::unknown()).unwrap();
    let allocated = rt.allocated();
    let r = rt.create_instance(f, Some(outer), InterfaceId::unknown());
    assert_eq!(r, Err(ComError::AggregationNotSupported));
    assert_eq!(rt.allocated(), allocated);
    assert_eq!(rt.ref_count(outer), 1);
    assert_eq!(rt.ref_count(f), 1);
    assert!(rt.inners(outer).is_empty());
}

#[test]
fn identity_is_the_same_through_every_pointer() {
    let mut rt = runtime();
    let animal = cat(&mut rt);
    let as_cat = rt.query_interface(animal, InterfaceId::new(IID_CAT)).unwrap();
    assert_ne!(animal, as_cat);
    let from_animal = rt.query_interface(animal, InterfaceId::unknown()).unwrap();
    let from_cat = rt.query_interface(as_cat, InterfaceId::unknown()).unwrap();
    assert_eq!(from_animal, from_cat);
    assert_eq!(from_animal, InterfacePointer { object: animal.object, field: 0 });
    assert!(rt.same_object(animal, as_cat));
    assert_eq!(rt.ref_count(animal), 4);
}

#[test]
fn query_interface_counts_as_a_reference() {
    let mut rt = runtime();
    let animal = cat(&mut rt);
    let as_cat = rt.query_interface(animal, InterfaceId::new(IID_CAT)).unwrap();
    assert_eq!(as_cat, InterfacePointer { object: animal.object, field: 1 });
    assert_eq!(rt.ref_count(animal), 2);
    assert_eq!(rt.ref_count(as_cat), 2);
}

#[test]
fn query_for_missing_interface_changes_nothing() {
    let mut rt = runtime();
    let animal = cat(&mut rt);
    let before = rt.ref_count(animal);
    let r = rt.query_interface(animal, InterfaceId::new(IID_NOT_IMPLEMENTED));
    assert_eq!(r, Err(ComError::NoSuchInterface));
    assert_eq!(rt.ref_count(animal), before);
    assert!(rt.is_valid(animal));
}

#[test]
fn add_ref_then_release_leaves_the_count() {
    let mut rt = runtime();
    let animal = cat(&mut rt);
    assert_eq!(rt.add_ref(animal), 2);
    assert_eq!(rt.release(animal), 1);
    assert!(rt.is_valid(animal));
    assert_eq!(rt.ref_count(animal), 1);
}

#[test]
fn n_increments_take_n_plus_one_decrements() {
    let mut rt = runtime();
    let animal = cat(&mut rt);
    let as_cat = InterfacePointer { object: animal.object, field: 1 };
    assert_eq!(rt.add_ref(animal), 2);
    assert_eq!(rt.add_ref(as_cat), 3);
    assert_eq!(rt.add_ref(animal), 4);
    let mut destroyed = 0;
    let order = [as_cat, animal, animal, as_cat];
    for (k, p) in order.iter().enumerate() {
        assert!(rt.is_valid(*p));
        let left = rt.release(*p);
        assert_eq!(left as usize, order.len() - 1 - k);
        if !rt.is_live(animal.object) {
            destroyed += 1;
            assert_eq!(k, order.len() - 1);
        }
    }
    assert_eq!(destroyed, 1);
    assert!(!rt.is_valid(animal));
    assert!(!rt.is_valid(as_cat));
}

#[test]
fn release_of_last_reference_destroys_only_that_object() {
    let mut rt = runtime();
    let f = factory(&mut rt, CLSID_CAT);
    let animal = rt.create_instance(f, None, InterfaceId::new(IID_ANIMAL)).unwrap();
    assert_eq!(rt.release(f), 0);
    assert!(!rt.is_live(f.object));
    assert!(rt.is_valid(animal));
    assert_eq!(rt.ref_count(animal), 1);
}

fn aggregate(rt: &mut Runtime) -> (InterfacePointer, InterfacePointer, ControlPointer) {
    let outer = cat(rt);
    let f = factory(rt, CLSID_FILE_MANAGER);
    let inner = rt
        .create_instance(f, Some(outer), InterfaceId::new(IID_FILE_MANAGER))
        .expect("an inner object");
    let control = rt.inners(outer)[0];
    (outer, inner, control)
}

#[test]
fn aggregated_creation_links_inner_to_outer() {
    let mut rt = runtime();
    let (outer, inner, control) = aggregate(&mut rt);
    assert_ne!(inner.object, outer.object);
    assert_eq!(control.object, inner.object);
    assert!(rt.is_aggregated(inner.object));
    assert!(!rt.is_aggregated(outer.object));
    assert_eq!(rt.interface_at(inner), InterfaceId::new(IID_FILE_MANAGER));
    assert_eq!(rt.ref_count(outer), 2);
    assert_eq!(rt.ref_count(inner), 2);
    assert!(rt.same_object(outer, inner));
}

#[test]
fn aggregated_inner_resolves_outer_identity() {
    let mut rt = runtime();
    let (outer, inner, control) = aggregate(&mut rt);
    let identity = InterfacePointer { object: outer.object, field: 0 };
    assert_eq!(rt.query_interface(inner, InterfaceId::unknown()), Ok(identity));
    assert_eq!(rt.inner_query_interface(control, InterfaceId::unknown()), Ok(identity));
    assert_eq!(rt.query_interface(outer, InterfaceId::unknown()), Ok(identity));
    assert_eq!(rt.ref_count(outer), 5);
}

#[test]
fn outer_answers_for_the_interfaces_of_its_inner() {
    let mut rt = runtime();
    let (outer, inner, _) = aggregate(&mut rt);
    assert_eq!(rt.query_interface(outer, InterfaceId::new(IID_FILE_MANAGER)), Ok(inner));
    assert_eq!(rt.query_interface(inner, InterfaceId::new(IID_CAT)), Ok(InterfacePointer {
        object: outer.object,
        field: 1,
    }));
    assert_eq!(
        rt.query_interface(inner, InterfaceId::new(IID_NOT_IMPLEMENTED)),
        Err(ComError::NoSuchInterface)
    );
    assert_eq!(rt.ref_count(outer), 4);
}

#[test]
fn private_surface_answers_for_the_inner_alone() {
    let mut rt = runtime();
    let (outer, inner, control) = aggregate(&mut rt);
    assert_eq!(rt.inner_query_interface(control, InterfaceId::new(IID_FILE_MANAGER)), Ok(inner));
    assert_eq!(rt.ref_count(outer), 3);
    assert_eq!(
        rt.inner_query_interface(control, InterfaceId::new(IID_CAT)),
        Err(ComError::NoSuchInterface)
    );
    assert_eq!(rt.ref_count(outer), 3);
}

#[test]
fn aggregated_inner_counts_on_the_outer() {
    let mut rt = runtime();
    let (outer, inner, _) = aggregate(&mut rt);
    assert_eq!(rt.add_ref(inner), 3);
    assert_eq!(rt.ref_count(outer), 3);
    assert_eq!(rt.release(outer), 2);
    assert_eq!(rt.ref_count(inner), 2);
}

#[test]
fn destroying_the_outer_destroys_its_inner() {
    let mut rt = runtime();
    let (outer, inner, _) = aggregate(&mut rt);
    assert_eq!(rt.release(inner), 1);
    assert!(rt.is_valid(inner));
    assert_eq!(rt.release(outer), 0);
    assert!(!rt.is_live(outer.object));
    assert!(!rt.is_live(inner.object));
}

#[test]
fn private_counting_is_the_inner_objects_own() {
    let mut rt = runtime();
    let (outer, inner, control) = aggregate(&mut rt);
    assert_eq!(rt.inner_add_ref(control), 2);
    assert_eq!(rt.ref_count(outer), 2);
    assert_eq!(rt.inner_release(control), 1);
    assert!(rt.is_valid(inner));
    assert_eq!(rt.inner_release(control), 0);
    assert!(!rt.is_live(inner.object));
    assert!(rt.is_valid(outer));
    assert!(rt.inners(outer).is_empty());
    assert_eq!(
        rt.query_interface(outer, InterfaceId::new(IID_FILE_MANAGER)),
        Err(ComError::NoSuchInterface)
    );
}

#[test]
fn aggregated_creation_for_missing_interface_leaves_the_outer_alone() {
    let mut rt = runtime();
    let outer = cat(&mut rt);
    let f = factory(&mut rt, CLSID_FILE_MANAGER);
    let r = rt.create_instance(f, Some(outer), InterfaceId::new(IID_NOT_IMPLEMENTED));
    assert_eq!(r, Err(ComError::NoSuchInterface));
    assert_eq!(rt.ref_count(outer), 1);
    assert!(rt.inners(outer).is_empty());
    assert!(!rt.is_live(rt.allocated() - 1));
}

#[test]
fn aggregating_into_an_inner_reaches_the_controlling_object() {
    let mut rt = runtime();
    let (outer, inner, _) = aggregate(&mut rt);
    let f = factory(&mut rt, CLSID_FILE_MANAGER);
    let second = rt.create_instance(f, Some(inner), InterfaceId::unknown()).unwrap();
    assert_eq!(second, InterfacePointer { object: outer.object, field: 0 });
    assert_eq!(rt.inners(outer).len(), 2);
    assert_eq!(rt.query_interface(outer, InterfaceId::new(IID_FILE_MANAGER)), Ok(inner));
}

#[test]
fn lock_server_counts_and_saturates_at_zero() {
    let mut rt = runtime();
    let f = factory(&mut rt, CLSID_CAT);
    assert_eq!(rt.lock_server(f, false), 0);
    assert_eq!(rt.lock_server(f, true), 1);
    assert_eq!(rt.lock_server(f, true), 2);
    assert_eq!(rt.lock_server(f, false), 1);
    assert_eq!(rt.server_locks(), 1);
    assert_eq!(rt.lock_server(f, false), 0);
    assert_eq!(rt.lock_server(f, false), 0);
    assert_eq!(rt.ref_count(f), 1);
}

#[test]
fn refusal_does_not_look_at_the_outer_pointer() {
    let mut rt = runtime();
    let f = factory(&mut rt, CLSID_CAT);
    let nowhere = InterfacePointer { object: 12345, field: 9 };
    assert!(!rt.is_valid(nowhere));
    assert!(!rt.factory_class(f).aggregable());
    let allocated = rt.allocated();
    let r = rt.create_instance(f, Some(nowhere), InterfaceId::unknown());
    assert_eq!(r, Err(ComError::AggregationNotSupported));
    assert_eq!(rt.allocated(), allocated);
    assert_eq!(rt.ref_count(f), 1);
}

#[test]
fn factory_answers_two_interfaces_only() {
    let mut rt = runtime();
    let f = factory(&mut rt, CLSID_FILE_MANAGER);
    assert!(rt.implements(f, InterfaceId::unknown()));
    assert!(rt.implements(f, InterfaceId::class_factory()));
    assert!(!rt.implements(f, InterfaceId::new(IID_FILE_MANAGER)));
    assert_eq!(rt.query_interface(f, InterfaceId::unknown()), Ok(f));
    assert_eq!(rt.query_interface(f, InterfaceId::class_factory()), Ok(f));
    assert_eq!(
        rt.query_interface(f, InterfaceId::new(IID_FILE_MANAGER)),
        Err(ComError::NoSuchInterface)
    );
    assert_eq!(rt.ref_count(f), 3);
    assert!(rt.inners(f).is_empty());
}

#[test]
fn a_factory_cannot_be_the_outer_of_an_aggregate() {
    let mut rt = runtime();
    let f = factory(&mut rt, CLSID_FILE_MANAGER);
    let other = factory(&mut rt, CLSID_CAT);
    let animal = cat(&mut rt);
    assert!(!rt.can_be_outer(other));
    assert!(!rt.can_be_outer(f));
    assert!(rt.can_be_outer(animal));
    assert!(!rt.can_be_outer(InterfacePointer { object: 999, field: 0 }));
}

#[test]
fn factory_class_tells_what_the_factory_builds() {
    let mut rt = runtime();
    let f = factory(&mut rt, CLSID_FILE_MANAGER);
    let class = rt.factory_class(f);
    assert_eq!(class.clsid(), ClassId::new(CLSID_FILE_MANAGER));
    assert!(class.aggregable());
    assert!(class.has_interface(InterfaceId::new(IID_FILE_MANAGER)));
    assert!(!class.has_interface(InterfaceId::new(IID_CAT)));
    assert!(!class.has_interface(InterfaceId::unknown()));
}

#[test]
fn has_class_looks_the_table_up() {
    let rt = runtime();
    assert!(rt.has_class(ClassId::new(CLSID_CAT)));
    assert!(rt.has_class(ClassId::new(CLSID_FILE_MANAGER)));
    assert!(!rt.has_class(ClassId::new(CLSID_UNKNOWN_CLASS)));
}

#[test]
fn implements_counts_nothing() {
    let mut rt = runtime();
    let (outer, inner, control) = aggregate(&mut rt);
    let before = rt.ref_count(outer);
    assert!(rt.implements(outer, InterfaceId::new(IID_FILE_MANAGER)));
    assert!(rt.implements(inner, InterfaceId::new(IID_CAT)));
    assert!(!rt.implements(inner, InterfaceId::new(IID_NOT_IMPLEMENTED)));
    assert!(rt.inner_implements(control, InterfaceId::unknown()));
    assert!(rt.inner_implements(control, InterfaceId::new(IID_FILE_MANAGER)));
    assert!(!rt.inner_implements(control, InterfaceId::new(IID_CAT)));
    assert_eq!(rt.ref_count(outer), before);
}

#[test]
fn identity_is_one_for_the_whole_aggregate() {
    let mut rt = runtime();
    let (outer, inner, control) = aggregate(&mut rt);
    let identity = InterfacePointer { object: outer.object, field: 0 };
    let before = rt.ref_count(outer);
    assert_eq!(rt.identity(outer), identity);
    assert_eq!(rt.identity(inner), identity);
    assert_eq!(rt.inner_identity(control), identity);
    assert_eq!(rt.identity(identity), identity);
    assert_eq!(rt.ref_count(outer), before);
    assert_eq!(rt.query_interface(inner, InterfaceId::unknown()), Ok(identity));
    assert_eq!(rt.identity(inner), identity);
}

use com_model::ids::{ClassId, InterfaceId};
use com_model::registration::{relevant_records, Action, Failure, Record, RecordKind, Registrar};
use com_model::runtime::ClassEntry;
use com_model::status::ComError;

const CLSID_A: u128 = 0xA;
const CLSID_B: u128 = 0xB;

fn classes() -> Vec<ClassEntry> {
    vec![
        ClassEntry::new(ClassId::new(CLSID_A), "A Component".to_string(), vec![InterfaceId::new(1)], false)
            .unwrap(),
        ClassEntry::new(ClassId::new(CLSID_B), "B Component".to_string(), vec![InterfaceId::new(2)], false)
            .unwrap(),
    ]
}

/// A store that keeps records in memory and fails where it is told to.
struct Store {
    kept: Vec<usize>,
    log: Vec<Action>,
    fail_install: Vec<usize>,
    fail_remove: Vec<usize>,
}

impl Store {
    fn new(kept: Vec<usize>, fail_install: Vec<usize>, fail_remove: Vec<usize>) -> Store {
        Store { kept, log: Vec::new(), fail_install, fail_remove }
    }

    fn perform(&mut self, action: Action) -> Result<(), u32> {
        self.log.push(action);
        match action {
            Action::Install(i) => {
                if self.fail_install.contains(&i) {
                    Err(5)
                } else {
                    self.kept.push(i);
                    Ok(())
                }
            },
            Action::Remove(i) => {
                if self.fail_remove.contains(&i) {
                    Err(2 + i as u32)
                } else {
                    self.kept.retain(|k| *k != i);
                    Ok(())
                }
            },
            Action::Finish(_) => unreachable!(),
        }
    }
}

fn drive(mut registrar: Registrar, store: &mut Store) -> Option<Failure> {
    loop {
        match registrar.action() {
            Action::Finish(result) => {
                assert!(registrar.is_finished());
                return result;
            },
            action => {
                assert!(!registrar.is_finished());
                let outcome = store.perform(action);
                registrar.advance(outcome);
            },
        }
    }
}

#[test]
fn records_come_parent_then_child_in_class_order() {
    let records: Vec<Record> = relevant_records(&classes(), &"C:\\server.dll".to_string());
    assert_eq!(records.len(), 4);
    let shape: Vec<(u128, RecordKind, &str)> =
        records.iter().map(|r| (r.class.value, r.kind, r.value.as_str())).collect();
    assert_eq!(
        shape,
        vec![
            (CLSID_A, RecordKind::Parent, "A Component"),
            (CLSID_A, RecordKind::Child, "C:\\server.dll"),
            (CLSID_B, RecordKind::Parent, "B Component"),
            (CLSID_B, RecordKind::Child, "C:\\server.dll"),
        ]
    );
}

#[test]
fn no_classes_no_records() {
    assert!(relevant_records(&Vec::new(), &"x".to_string()).is_empty());
    let mut store = Store::new(vec![], vec![], vec![]);
    assert_eq!(drive(Registrar::register(0), &mut store), None);
    assert_eq!(drive(Registrar::unregister(0), &mut store), None);
    assert!(store.log.is_empty());
}

#[test]
fn register_installs_every_record_in_order() {
    let mut store = Store::new(vec![], vec![], vec![]);
    let result = drive(Registrar::register(4), &mut store);
    assert_eq!(result, None);
    assert_eq!(
        store.log,
        vec![Action::Install(0), Action::Install(1), Action::Install(2), Action::Install(3)]
    );
    assert_eq!(store.kept, vec![0, 1, 2, 3]);
}

#[test]
fn failed_child_record_rolls_everything_back() {
    // Records: 0 = A's parent, 1 = A's child, 2 = B's parent, 3 = B's child.
    let mut store = Store::new(vec![], vec![3], vec![]);
    let result = drive(Registrar::register(4), &mut store);
    assert_eq!(result, Some(Failure { record: 3, code: 5 }));
    assert_eq!(result.unwrap().status(), ComError::RegistrationPartialFailure);
    assert_eq!(
        store.log,
        vec![
            Action::Install(0),
            Action::Install(1),
            Action::Install(2),
            Action::Install(3),
            Action::Remove(2),
            Action::Remove(1),
            Action::Remove(0),
        ]
    );
    assert!(store.kept.is_empty());
}

#[test]
fn failed_first_record_has_nothing_to_roll_back() {
    let mut store = Store::new(vec![], vec![0], vec![]);
    let result = drive(Registrar::register(4), &mut store);
    assert_eq!(result, Some(Failure { record: 0, code: 5 }));
    assert_eq!(store.log, vec![Action::Install(0)]);
    assert!(store.kept.is_empty());
}

#[test]
fn rollback_goes_on_past_failed_removals_and_keeps_the_first_error() {
    let mut store = Store::new(vec![], vec![2], vec![1]);
    let result = drive(Registrar::register(4), &mut store);
    assert_eq!(result, Some(Failure { record: 2, code: 5 }));
    assert_eq!(
        store.log,
        vec![
            Action::Install(0),
            Action::Install(1),
            Action::Install(2),
            Action::Remove(1),
            Action::Remove(0),
        ]
    );
    assert_eq!(store.kept, vec![1]);
}

#[test]
fn unregister_removes_children_before_parents() {
    let mut store = Store::new(vec![0, 1, 2, 3], vec![], vec![]);
    let result = drive(Registrar::unregister(4), &mut store);
    assert_eq!(result, None);
    assert_eq!(
        store.log,
        vec![Action::Remove(3), Action::Remove(2), Action::Remove(1), Action::Remove(0)]
    );
    assert!(store.kept.is_empty());
}

#[test]
fn unregister_attempts_everything_and_reports_the_first_error() {
    let mut store = Store::new(vec![0, 1, 2, 3], vec![], vec![2, 0]);
    let result = drive(Registrar::unregister(4), &mut store);
    assert_eq!(result, Some(Failure { record: 2, code: 4 }));
    assert_eq!(
        store.log,
        vec![Action::Remove(3), Action::Remove(2), Action::Remove(1), Action::Remove(0)]
    );
    assert_eq!(store.kept, vec![0, 2]);
}

#[test]
fn reports_after_the_end_change_nothing() {
    let mut registrar = Registrar::register(1);
    registrar.advance(Ok(()));
    assert_eq!(registrar.action(), Action::Finish(None));
    registrar.advance(Err(9));
    assert_eq!(registrar.action(), Action::Finish(None));
    assert!(registrar.is_finished());
}

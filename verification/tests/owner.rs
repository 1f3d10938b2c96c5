use zshare::counter::Change;
use zshare::counter::Value;
use zshare::Error;
use zshare::KeyExpr;
use zshare::Update;
use zshare::ZSharedValue;
use zshare::{frame, split_frame};

fn key(text: &str) -> KeyExpr {
    KeyExpr::new(text).unwrap()
}

fn counter(start: u64) -> ZSharedValue<Value> {
    ZSharedValue::with_instance(Value(start), &key("ws"), key("id"), key("counter")).unwrap()
}

#[test]
fn counter_steps_up_and_down() {
    let mut v = Value(41);
    v.update(Change::Inc);
    assert_eq!(v, Value(42));
    v.update(Change::Dec);
    v.update(Change::Dec);
    assert_eq!(v, Value(40));
}

#[test]
fn counter_does_not_step_past_its_ends() {
    assert!(Value(0).can_apply(&Change::Inc));
    assert!(!Value(0).can_apply(&Change::Dec));
    assert!(Value(1).can_apply(&Change::Dec));
    assert!(Value(u64::MAX).can_apply(&Change::Dec));
    assert!(!Value(u64::MAX).can_apply(&Change::Inc));
    assert!(Value(u64::MAX - 1).can_apply(&Change::Inc));
    let mut top = Value(u64::MAX - 1);
    top.update(Change::Inc);
    assert_eq!(top, Value(u64::MAX));
    let mut bottom = Value(1);
    bottom.update(Change::Dec);
    assert_eq!(bottom, Value(0));
}

#[test]
fn owner_says_which_commands_its_value_admits() {
    let mut owner = counter(0);
    assert!(owner.admits(&Change::Inc));
    assert!(!owner.admits(&Change::Dec));
    owner.update(Change::Inc);
    assert!(owner.admits(&Change::Dec));
    assert_eq!(*owner.read(), Value(1));
    let top = counter(u64::MAX);
    assert!(!top.admits(&Change::Inc));
    assert!(top.admits(&Change::Dec));
}

#[test]
fn counter_starts_at_zero() {
    assert_eq!(Value::default(), Value(0));
}

#[test]
fn owner_starts_with_its_initial_state() {
    let owner = counter(42);
    assert_eq!(*owner.read(), Value(42));
    assert_eq!(owner.version(), 0);
    assert!(owner.is_live());
    assert_eq!(owner.name().as_str(), "counter");
    assert_eq!(owner.address().instance().as_str(), "id");
    assert_eq!(owner.address().workspace().as_str(), "ws");
    assert_eq!(owner.address().data_path().as_str(), "ws/counter/id/data");
    assert_eq!(owner.address().update_path().as_str(), "ws/counter/id/update");
    assert_eq!(owner.address().instance_path().as_str(), "ws/counter/id/instance");
}

#[test]
fn owner_refuses_an_address_that_does_not_join() {
    let r = ZSharedValue::with_instance(Value(0), &key("**"), key("id"), key("**"));
    assert_eq!(r.err(), Some(Error::Address));
}

#[test]
fn owner_reads_what_it_has_just_written() {
    let mut owner = counter(10);
    owner.update(Change::Inc);
    assert_eq!(*owner.read(), Value(11));
    owner.update(Change::Dec);
    assert_eq!(*owner.read(), Value(10));
    owner.update(Change::Dec);
    assert_eq!(*owner.read(), Value(9));
}

#[test]
fn owner_counts_three_increments() {
    let mut owner = counter(0);
    owner.update(Change::Inc);
    owner.update(Change::Inc);
    owner.update(Change::Inc);
    assert_eq!(*owner.read(), Value(3));
    assert_eq!(owner.version(), 3);
}

#[test]
fn owner_numbers_its_commands_in_order() {
    let mut owner = counter(0);
    assert_eq!(owner.command_message(&[7]).unwrap(), frame(1, &[7]));
    owner.update(Change::Inc);
    assert_eq!(owner.command_message(&[7]).unwrap(), frame(2, &[7]));
    owner.update(Change::Inc);
    assert_eq!(owner.command_message(&[]).unwrap(), vec![3, 0, 0, 0, 0, 0, 0, 0]);
}

#[test]
fn owner_staging_a_command_changes_nothing() {
    let owner = counter(5);
    let _ = owner.command_message(&[1, 2, 3]).unwrap();
    assert_eq!(*owner.read(), Value(5));
    assert_eq!(owner.version(), 0);
}

#[test]
fn owner_frames_its_snapshot_under_its_version() {
    let mut owner = counter(0);
    assert_eq!(owner.snapshot(&[0xaa]).unwrap(), vec![0, 0, 0, 0, 0, 0, 0, 0, 0xaa]);
    owner.update(Change::Inc);
    owner.update(Change::Inc);
    assert_eq!(split_frame(&owner.snapshot(&[0xbb, 0xcc]).unwrap()), Some((2, vec![0xbb, 0xcc])));
}

#[test]
fn owner_replies_with_its_instance() {
    let owner = counter(0);
    assert_eq!(owner.instance_reply().unwrap(), b"id".to_vec());
}

#[test]
fn owner_gets_a_fresh_instance() {
    let a = ZSharedValue::new(Value(0), &key("ws"), key("counter")).unwrap();
    let b = ZSharedValue::new(Value(0), &key("ws"), key("counter")).unwrap();
    let id = a.address().instance().as_str().to_string();
    assert_eq!(id.len(), 36);
    for (i, c) in id.chars().enumerate() {
        if i == 8 || i == 13 || i == 18 || i == 23 {
            assert_eq!(c, '-');
        } else {
            assert!(c.is_ascii_digit() || ('a'..='f').contains(&c));
        }
    }
    assert_ne!(a.address().instance(), b.address().instance());
    assert_eq!(a.address().data_path().as_str(), format!("ws/counter/{}/data", id));
    assert_eq!(a.name().as_str(), "counter");
    assert_eq!(*a.read(), Value(0));
    assert_eq!(a.version(), 0);
    assert!(a.is_live());
}

#[test]
fn owner_new_refuses_an_address_that_does_not_join() {
    let r = ZSharedValue::new(Value(0), &key("**"), key("**"));
    assert_eq!(r.err(), Some(Error::Address));
}

#[test]
fn closed_owner_answers_nothing() {
    let mut owner = counter(3);
    owner.update(Change::Inc);
    owner.close();
    assert!(!owner.is_live());
    assert_eq!(owner.snapshot(&[1]), None);
    assert_eq!(owner.instance_reply(), None);
    assert_eq!(owner.command_message(&[1]), Err(Error::Transport));
    assert_eq!(*owner.read(), Value(4));
    assert_eq!(owner.version(), 1);
}

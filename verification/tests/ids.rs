use hex_instance::instance_id::{iid, IdCounter};
use hex_instance::InstanceId;

#[test]
fn ids_count_up_from_zero() {
    let mut count = IdCounter::new();
    assert_eq!(*iid(&mut count), 0);
    assert_eq!(*iid(&mut count), 1);
    assert_eq!(*iid(&mut count), 2);
}

#[test]
fn an_identity_has_the_next_id() {
    let mut count = IdCounter::new();
    let a = InstanceId::new(&mut count);
    let b = InstanceId::new(&mut count);
    assert_eq!(a.get(), 0);
    assert_eq!(b.get(), 1);
    assert_ne!(a.get(), b.get());
}

#[test]
fn a_clone_shares_the_id() {
    let mut count = IdCounter::new();
    let _ = InstanceId::new(&mut count);
    let a = InstanceId::new(&mut count);
    let b = a.clone();
    assert_eq!(a.get(), 1);
    assert_eq!(b.get(), 1);
    assert_eq!(InstanceId::new(&mut count).get(), 2);
}

#[test]
fn counters_do_not_share() {
    let mut one = IdCounter::new();
    let mut two = IdCounter::new();
    assert_eq!(*iid(&mut one), 0);
    assert_eq!(*iid(&mut one), 1);
    assert_eq!(*iid(&mut two), 0);
}

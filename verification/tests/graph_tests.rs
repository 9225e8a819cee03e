use std::rc::Rc;

use kaitai::KError;
use kaitai::KStructUnit;
use kaitai::OptRc;
use kaitai::SharedType;

#[test]
fn back_reference_resolves_while_target_lives() {
    let parent = Rc::new(42u32);
    let back: SharedType<u32> = SharedType::new(Rc::clone(&parent));
    assert!(!back.is_empty());
    let got = back.get().unwrap();
    assert!(!got.is_none());
    assert_eq!(*got.get(), 42);
}

#[test]
fn back_reference_fails_cleanly_after_drop() {
    let parent = Rc::new(7u32);
    let back: SharedType<u32> = SharedType::new(Rc::clone(&parent));
    drop(parent);
    assert!(back.is_empty());
    assert_eq!(back.get().unwrap_err(), KError::MissingParent);
}

#[test]
fn empty_back_reference() {
    let back: SharedType<u32> = SharedType::empty();
    assert!(back.is_empty());
    assert_eq!(back.get().unwrap_err(), KError::MissingParent);
}

#[test]
fn set_rebinds_and_clears() {
    let first = Rc::new(1u32);
    let second = Rc::new(2u32);
    let back: SharedType<u32> = SharedType::new(Rc::clone(&first));

    back.set(Ok(OptRc::new(&Some(Rc::clone(&second)))));
    assert_eq!(*back.get().unwrap().get(), 2);

    back.set(Err(KError::MissingParent));
    assert!(back.is_empty());
    assert_eq!(back.get().unwrap_err(), KError::MissingParent);
}

#[test]
fn back_reference_does_not_keep_target_alive() {
    let parent = Rc::new(5u32);
    let back: SharedType<u32> = SharedType::new(Rc::clone(&parent));
    let cloned = back.clone();
    assert_eq!(Rc::strong_count(&parent), 1);
    drop(parent);
    assert!(back.is_empty());
    assert!(cloned.is_empty());
}

#[test]
fn opt_rc_lifecycle() {
    let empty: OptRc<u32> = OptRc::default();
    assert!(empty.is_none());
    assert!(empty.get_value().is_none());

    let filled = OptRc::from(9u32);
    assert!(!filled.is_none());
    assert_eq!(*filled.get(), 9);

    let copied = filled.clone();
    assert_eq!(*copied.get(), 9);

    let from_opt = OptRc::new(&Some(Rc::new(3u32)));
    assert_eq!(*from_opt.get(), 3);
    let from_none: OptRc<u32> = OptRc::new(&None);
    assert!(from_none.is_none());
}

#[test]
fn opt_rc_get_mut() {
    let mut filled = OptRc::from(1u32);
    *filled.get_mut() = Rc::new(8u32);
    assert_eq!(*filled.get(), 8);
}

#[test]
fn struct_unit_defaults() {
    let a = KStructUnit::default();
    let b = KStructUnit;
    assert_eq!(a, b);
}

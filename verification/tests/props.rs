use raui_core::props::{Props, PropsError, PropsValue};
use std::any::TypeId;

#[test]
fn props_write_then_read() {
    let mut p = Props::new(5i32);
    assert!(p.has::<i32>());
    assert!(!p.has::<String>());
    assert_eq!(*p.read::<i32>().unwrap(), 5);
    p.write("hello".to_owned());
    p.write(7i32);
    assert_eq!(*p.read::<i32>().unwrap(), 7);
    assert_eq!(p.read::<String>().unwrap(), "hello");
    assert_eq!(p.read_cloned::<i32>().unwrap(), 7);
}

#[test]
fn props_missing_type() {
    let p = Props::new(1u8);
    assert!(matches!(p.read::<bool>(), Err(PropsError::HasNoDataOfType(_))));
    assert!(matches!(p.read_cloned::<bool>(), Err(PropsError::HasNoDataOfType(_))));
    assert_eq!(p.read_cloned_or_default::<bool>(), false);
    assert_eq!(p.read_cloned_or_else::<u16, _>(|| 9), 9);
    assert_eq!(p.map_or_default::<u8, u32, _>(|v| *v as u32 + 1), 2);
    assert_eq!(p.map_or_else::<bool, u32, _, _>(|_| 1, || 2), 2);
}

#[test]
fn props_consume_and_without() {
    let mut p = Props::new(3i64).with(true);
    let v = p.consume::<i64>().unwrap();
    assert_eq!(v.downcast_ref::<i64>(), Some(&3));
    assert!(!p.has::<i64>());
    assert!(matches!(p.consume::<i64>(), Err(PropsError::HasNoDataOfType(_))));
    let p = p.without::<bool>();
    assert!(!p.has::<bool>());
}

#[test]
fn props_mutate() {
    let mut p = Props::new(10u32);
    p.mutate::<u32, _>(|v| v + 1);
    assert_eq!(*p.read::<u32>().unwrap(), 11);
    p.mutate_cloned::<u32, _>(|v| *v *= 2);
    assert_eq!(*p.read::<u32>().unwrap(), 22);
    p.mutate::<u8, _>(|v| v + 1);
    assert!(!p.has::<u8>());
    p.mutate_or_write::<u8, _, _>(|v| v + 1, || 40);
    assert_eq!(*p.read::<u8>().unwrap(), 40);
    p.mutate_or_write::<u8, _, _>(|v| v + 1, || 40);
    assert_eq!(*p.read::<u8>().unwrap(), 41);
}

#[test]
fn props_merge_prefers_right() {
    let a = Props::new(1i32).with(true);
    let b = Props::new(2i32).with("b".to_owned());
    let m = a.merge(b);
    assert_eq!(*m.read::<i32>().unwrap(), 2);
    assert_eq!(*m.read::<bool>().unwrap(), true);
    assert_eq!(m.read::<String>().unwrap(), "b");
    let mut c = Props::new(5i32);
    c.merge_from(Props::new(6u64));
    assert_eq!(*c.read::<i32>().unwrap(), 5);
    assert_eq!(*c.read::<u64>().unwrap(), 6);
}

#[test]
fn props_keys() {
    let mut p = Props::default();
    let k = TypeId::of::<i32>();
    assert!(!p.has_key(&k));
    p.write_key(k, PropsValue::new(4i32));
    assert!(p.has_key(&k));
    assert_eq!(p.read_key(&k).unwrap().downcast_ref::<i32>(), Some(&4));
    assert!(p.has::<i32>());
    let removed = p.remove_key(&k).unwrap();
    assert_eq!(removed.downcast_ref::<i32>(), Some(&4));
    assert!(p.remove_key(&k).is_none());
    assert!(p.read_key(&k).is_none());
}

#[test]
fn props_clone_copies_values() {
    let p = Props::new(8i16).with("x".to_owned());
    let q = p.clone();
    assert_eq!(*q.read::<i16>().unwrap(), 8);
    assert_eq!(q.read::<String>().unwrap(), "x");
}

use raui_core::identity::{
    combine_shared_props, component_identity, item_key, root_key, slot_key,
};
use raui_core::props::Props;

#[test]
fn identity_keys() {
    assert_eq!(root_key(), "<*>");
    assert_eq!(slot_key(), ".");
    assert_eq!(item_key(0), "<0>");
    assert_eq!(item_key(12), "<12>");
    assert_eq!(item_key(usize::MAX), format!("<{}>", usize::MAX));
}

#[test]
fn identity_of_components() {
    let path = vec![root_key(), item_key(0)];
    let (id, key, new_path) = component_identity("button", &path, None, "<3>");
    assert_eq!(id.as_str(), "button:<*>/<0>/<3>");
    assert_eq!(key, "<3>");
    assert_eq!(new_path, vec!["<*>".to_owned(), "<0>".to_owned(), "<3>".to_owned()]);
    let (id, key, _) = component_identity("label", &path, Some("title"), "<3>");
    assert_eq!(id.as_str(), "label:<*>/<0>/title");
    assert_eq!(key, "title");
    assert_eq!(id.key(), "title");
    let (root, _, _) = component_identity("app", &[], None, &root_key());
    assert_eq!(root.as_str(), "app:<*>");
}

#[test]
fn identity_shared_props() {
    let master = Props::new(1i32).with(true);
    let own = Props::new(2i32);
    let both = combine_shared_props(Some(master.clone()), Some(own.clone()));
    assert_eq!(*both.read::<i32>().unwrap(), 2);
    assert!(both.has::<bool>());
    assert_eq!(*combine_shared_props(None, Some(own)).read::<i32>().unwrap(), 2);
    assert!(combine_shared_props(Some(master), None).has::<bool>());
    assert!(!combine_shared_props(None, None).has::<i32>());
}

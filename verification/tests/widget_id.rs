use raui_core::widget_id::{WidgetId, WidgetIdDef};
use raui_core::widget_id_common::WidgetIdCommon;

#[test]
fn test_widget_id() {
    let id = WidgetId::empty();
    assert_eq!(id.type_str(), "");
    assert_eq!(id.path(), "");
    assert_eq!(id.depth(), 0);

    let id = WidgetId::new("type", &["parent", "me"]);
    assert_eq!(id.to_string(), "type:parent/me".to_owned());
    assert_eq!(id.type_str(), "type");
    assert_eq!(id.parts()[0], "parent");
    assert_eq!(id.key(), "me");
    assert_eq!(id.clone(), id);

    let a = WidgetId::from_str("a:root/a").unwrap();
    let b = WidgetId::from_str("b:root/b").unwrap();
    let mut common = WidgetIdCommon::default();
    assert_eq!(common.path(), None);
    common.include_id(&a);
    assert_eq!(common.path(), Some("root/a"));
    let mut common = WidgetIdCommon::default();
    common.include_id(&b);
    assert_eq!(common.path(), Some("root/b"));
    common.include_id(&a);
    assert_eq!(common.path(), Some("root"));

    let id = WidgetId::from_str("type:parent/me").unwrap();
    assert_eq!(id.as_str(), "type:parent/me");
    assert_eq!(id.path(), "parent/me");
    let id = id.pop();
    assert_eq!(id.as_str(), "type:parent");
    assert_eq!(id.path(), "parent");
    let id = id.pop();
    assert_eq!(id.as_str(), "type:");
    assert_eq!(id.path(), "");
    let id = id.push("parent");
    assert_eq!(id.as_str(), "type:parent");
    assert_eq!(id.path(), "parent");
    let id = id.push("me");
    assert_eq!(id.as_str(), "type:parent/me");
    assert_eq!(id.path(), "parent/me");
}

#[test]
fn widget_id_pop_undoes_push() {
    let id = WidgetId::new("list", &["root", "items"]);
    let pushed = id.push("3");
    assert_eq!(pushed.as_str(), "list:root/items/3");
    assert_eq!(pushed.depth(), 3);
    assert_eq!(pushed.key(), "3");
    assert_eq!(pushed.pop(), id);
}

#[test]
fn widget_id_parts_and_ranges() {
    let id = WidgetId::new("t", &["a", "bb", "ccc"]);
    assert_eq!(id.parts(), vec!["a", "bb", "ccc"]);
    assert_eq!(id.part(1), Some("bb"));
    assert_eq!(id.part(3), None);
    assert_eq!(id.range(0, 2), "a/bb");
    assert_eq!(id.range(1, 3), "bb/ccc");
    assert_eq!(id.range(2, 2), "ccc");
    assert_eq!(id.range(5, 0), "ccc");
    assert_eq!(id.path(), "a/bb/ccc");
    assert!(id.is_valid());
    assert!(!WidgetId::default().is_valid());
}

#[test]
fn widget_id_subsets() {
    let parent = WidgetId::from_str("x:root/a").unwrap();
    let child = WidgetId::from_str("y:root/a/b").unwrap();
    let other = WidgetId::from_str("y:root/ab").unwrap();
    assert!(parent.is_subset_of(&child));
    assert!(child.is_superset_of(&parent));
    assert!(!child.is_subset_of(&parent));
    assert!(!parent.is_subset_of(&other));
    assert!(parent.is_subset_of(&parent));
}

#[test]
fn widget_id_parse_errors() {
    assert!(WidgetId::from_str("no-colon").is_err());
    let id = WidgetId::from_str("k:").unwrap();
    assert_eq!(id.type_str(), "k");
    assert_eq!(id.depth(), 1);
    assert_eq!(id.path(), "");
}

#[test]
fn widget_id_def_round_trip() {
    let id = WidgetId::new("t", &["a"]);
    let def = WidgetIdDef::from_id(id.clone());
    assert_eq!(def.0, "t:a");
    let back = WidgetId::try_from_def(def).unwrap();
    assert_eq!(back, id);
    let bad = WidgetId::try_from_def(WidgetIdDef("nothing".to_owned()));
    assert_eq!(bad, Err("Could not parse id: `nothing`".to_owned()));
}

#[test]
fn widget_id_equal_ids_hash_alike() {
    let a = WidgetId::from_str("t:a/b").unwrap();
    let b = WidgetId::new("t", &["a", "b"]);
    assert_eq!(a, b);
    assert_eq!(a.hashed_value(), b.hashed_value());
    let c = WidgetId::new("t", &["a", "c"]);
    assert_ne!(a.hashed_value(), c.hashed_value());
}

#[test]
fn widget_id_common_of_many() {
    let ids = vec![
        WidgetId::from_str("a:root/x/1").unwrap(),
        WidgetId::from_str("b:root/x/2").unwrap(),
        WidgetId::from_str("c:root/x").unwrap(),
    ];
    let common = WidgetIdCommon::from_ids(&ids);
    assert_eq!(common.path(), Some("root/x"));
    assert_eq!(common.parts(), Some(vec!["root", "x"]));
    assert!(common.is_valid());
    let none = WidgetIdCommon::from_ids(&[]);
    assert!(!none.is_valid());
    assert_eq!(none.parts(), None);
}

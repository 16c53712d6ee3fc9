use raui_core::view_model::{ViewModelBindings, ViewModelProperties};
use raui_core::widget_id::WidgetId;

fn id(s: &str) -> WidgetId {
    WidgetId::from_str(s).unwrap()
}

#[test]
fn bindings_bind_and_unbind() {
    let mut b = ViewModelBindings::default();
    assert!(b.is_empty());
    assert!(b.is_notified());
    b.bind(id("a:root/x/1"));
    b.bind(id("b:root/x/2"));
    b.bind(id("a:root/x/1"));
    assert_eq!(b.widgets().len(), 2);
    assert!(b.is_bound(&id("a:root/x/1")));
    assert_eq!(b.common_root().path(), Some("root/x"));
    b.unbind(&id("a:root/x/1"));
    assert!(!b.is_bound(&id("a:root/x/1")));
    assert_eq!(b.widgets(), &[id("b:root/x/2")]);
    assert_eq!(b.common_root().path(), Some("root/x/2"));
    b.clear();
    assert!(b.is_empty());
    assert_eq!(b.common_root().path(), None);
}

#[test]
fn bindings_unbind_undoes_bind() {
    let mut b = ViewModelBindings::default();
    b.bind(id("a:r/1"));
    let before: Vec<WidgetId> = b.widgets().to_vec();
    b.bind(id("a:r/2"));
    b.unbind(&id("a:r/2"));
    assert_eq!(b.widgets(), before.as_slice());
    assert_eq!(b.common_root().path(), Some("r/1"));
}

#[test]
fn bindings_notifications() {
    let mut b = ViewModelBindings::default();
    assert!(!b.consume_notification());
    assert!(b.is_notified());
    b.bind(id("a:r"));
    assert!(b.consume_notification());
    assert!(!b.is_notified());
    assert!(!b.consume_notification());
    b.notify();
    assert!(b.is_notified());
    assert!(b.consume_notification());
}

const COUNTER_PROPERTY: &str = "counter";
const FLAG_PROPERTY: &str = "flag";

#[test]
fn test_view_model() {
    let a = id("a:root/a");
    let b = id("b:root/b");
    let mut properties = ViewModelProperties::new();
    properties.notify(COUNTER_PROPERTY);
    properties.notify(FLAG_PROPERTY);

    // unbound properties do not trigger a rebuild until widgets are bound.
    assert!(!properties.consume_notified_common_root().is_valid());
    properties.notify(FLAG_PROPERTY);
    assert!(!properties.consume_notified_common_root().is_valid());
    assert!(properties.bindings(COUNTER_PROPERTY).unwrap().is_notified());
    assert!(properties.bindings(FLAG_PROPERTY).unwrap().is_notified());

    // once bound, the pending notifications report the common root.
    properties.bind(COUNTER_PROPERTY, a);
    properties.bind(FLAG_PROPERTY, b);
    assert_eq!(properties.consume_notified_common_root().path(), Some("root"));

    properties.notify(COUNTER_PROPERTY);
    assert_eq!(properties.consume_notified_common_root().path(), Some("root/a"));

    properties.notify(FLAG_PROPERTY);
    assert_eq!(properties.consume_notified_common_root().path(), Some("root/b"));

    properties.notify(COUNTER_PROPERTY);
    properties.notify(FLAG_PROPERTY);
    assert_eq!(properties.consume_notified_common_root().path(), Some("root"));
    assert!(!properties.consume_notified_common_root().is_valid());
}

#[test]
fn view_model_properties_housekeeping() {
    let mut properties = ViewModelProperties::new();
    assert!(properties.is_empty());
    properties.bind("p", id("a:r/1"));
    properties.bind("q", id("a:r/1"));
    properties.notify("empty");
    assert!(properties.has("p") && properties.has("empty"));
    assert!(properties.consume_notification());
    assert!(properties.consume_notification());
    assert!(!properties.consume_notification());
    properties.unbind_all(&id("a:r/1"));
    assert!(!properties.bindings("p").unwrap().is_bound(&id("a:r/1")));
    properties.remove_empty_bindings();
    assert!(properties.is_empty());
    properties.bind("p", id("a:r/2"));
    properties.unbind("p", &id("a:r/2"));
    properties.remove("p");
    assert!(!properties.has("p"));
    properties.bind("x", id("a:r/3"));
    properties.clear();
    assert!(properties.is_empty());
    assert!(properties.bindings("x").is_none());
}

#[test]
fn view_model_bound_widget_stays_bound_until_unbound() {
    let a = id("a:root/a");
    let mut bindings = ViewModelBindings::default();
    bindings.bind(a.clone());
    bindings.bind(id("b:root/b"));
    bindings.notify();
    bindings.consume_notification();
    bindings.unbind(&id("b:root/b"));
    bindings.bind(a.clone());
    assert!(bindings.is_bound(&a));
    bindings.unbind(&a);
    assert!(!bindings.is_bound(&a));
    bindings.bind(a.clone());
    bindings.clear();
    assert!(!bindings.is_bound(&a));
}

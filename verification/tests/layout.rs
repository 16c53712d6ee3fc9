use raui_core::layout::find_layout_index;
use raui_core::widget_id::WidgetId;

fn id(s: &str) -> WidgetId {
    WidgetId::from_str(s).unwrap()
}

#[test]
fn layout_found_for_nearest_ancestor() {
    let keys = vec![id("a:root/x"), id("b:root/x/y"), id("c:other"), id("d:root/x/y")];
    assert_eq!(find_layout_index(&keys, "root/x/y"), Some(1));
    assert_eq!(find_layout_index(&keys, "root/x/y/z/w"), Some(1));
    assert_eq!(find_layout_index(&keys, "root/x/q"), Some(0));
    assert_eq!(find_layout_index(&keys, "other"), Some(2));
    assert_eq!(find_layout_index(&keys, "root"), None);
    assert_eq!(find_layout_index(&keys, "nothing/at/all"), None);
    assert_eq!(find_layout_index(&[], "root/x"), None);
}

#[test]
fn layout_empty_path() {
    let keys = vec![id("a:"), id("b:root")];
    assert_eq!(find_layout_index(&keys, ""), Some(0));
    assert_eq!(find_layout_index(&keys, "/x"), Some(0));
    assert_eq!(find_layout_index(&keys, "root/x"), Some(1));
}

use raui_core::component::forwarded_indices;
use raui_core::interactions::DefaultInteractionsEngineResult;
use raui_core::navigation::{NavDirection, NavJumpMode};
use raui_core::prefab::PropsGroupPrefab;
use raui_core::units::{FlexBoxDirection, ListBoxDirection, TextBoxDirection};
use raui_core::widget_id::WidgetId;
use raui_core::widget_ref::{WidgetIdOrRef, WidgetRef, WidgetRefDef};
use std::any::TypeId;

#[test]
fn flex_directions() {
    for (d, h, a) in [
        (FlexBoxDirection::HorizontalLeftToRight, true, true),
        (FlexBoxDirection::HorizontalRightToLeft, true, false),
        (FlexBoxDirection::VerticalTopToBottom, false, true),
        (FlexBoxDirection::VerticalBottomToTop, false, false),
    ] {
        assert_eq!(d.is_horizontal(), h);
        assert_eq!(d.is_vertical(), !h);
        assert_eq!(d.is_order_ascending(), a);
        assert_eq!(d.is_order_descending(), !a);
    }
    assert_eq!(FlexBoxDirection::default(), FlexBoxDirection::HorizontalLeftToRight);
    assert_eq!(ListBoxDirection::default(), ListBoxDirection::HorizontalLeftToRight);
    assert_eq!(TextBoxDirection::default(), TextBoxDirection::HorizontalLeftToRight);
    assert_eq!(NavDirection::default(), NavDirection::Unset);
    assert_eq!(NavJumpMode::default(), NavJumpMode::Direction);
}

#[test]
fn interactions_result() {
    let none = DefaultInteractionsEngineResult::default();
    assert!(none.is_none() && !none.is_any());
    for i in 1..8u8 {
        let r = DefaultInteractionsEngineResult {
            captured_pointer_location: i & 1 != 0,
            captured_pointer_action: i & 2 != 0,
            captured_text_change: i & 4 != 0,
        };
        assert!(r.is_any() && !r.is_none());
    }
}

#[test]
fn forwarding_picks_listed_types() {
    let types = vec![TypeId::of::<u8>(), TypeId::of::<String>()];
    let keys = vec![
        TypeId::of::<String>(),
        TypeId::of::<i32>(),
        TypeId::of::<u8>(),
        TypeId::of::<bool>(),
    ];
    assert_eq!(forwarded_indices(&types, &keys), vec![0, 2]);
    assert_eq!(forwarded_indices(&[], &keys), Vec::<usize>::new());
}

#[test]
fn widget_refs() {
    let id = WidgetId::new("w", &["r"]);
    let r = WidgetRef::new(id.clone());
    assert!(r.is_set());
    assert_eq!(r.read(), Some(id.clone()));
    assert!(!WidgetRef::default().is_set());
    let def = WidgetRefDef::from_ref(&r);
    assert_eq!(def.0, Some(id.clone()));
    assert_eq!(def.into_ref().read(), Some(id.clone()));

    let unset = WidgetIdOrRef::default();
    assert!(unset.is_none() && !unset.is_some());
    assert_eq!(unset.read(), None);
    let by_id = WidgetIdOrRef::from(id.clone());
    assert!(by_id.is_some());
    assert_eq!(by_id.read(), Some(id.clone()));
    let by_ref = WidgetIdOrRef::from(r.clone());
    assert_eq!(by_ref.read(), Some(id));
    let fresh = WidgetIdOrRef::new_ref();
    assert!(fresh.is_some());
    assert_eq!(fresh.read(), None);
    assert!(WidgetIdOrRef::from(()).is_none());
}

#[test]
fn prefab_group_starts_empty() {
    assert!(PropsGroupPrefab::default().data.is_empty());
}

use raui_core::navigation::{
    nav_jump_map_select, nav_jump_request, NavDirection, NavJumpMapProps, NavJumpMode,
    NavJumpRequest, NavStep,
};
use raui_core::widget_id::WidgetId;
use raui_core::widget_ref::{WidgetIdOrRef, WidgetRef};

fn map() -> NavJumpMapProps {
    NavJumpMapProps {
        up: WidgetIdOrRef::Id(WidgetId::new("w", &["up"])),
        left: WidgetIdOrRef::Id(WidgetId::new("w", &["left"])),
        next: WidgetIdOrRef::Ref(WidgetRef::new(WidgetId::new("w", &["next"]))),
        ..NavJumpMapProps::default()
    }
}

fn escape_target(r: Option<NavJumpRequest>) -> (NavDirection, Option<WidgetId>) {
    match r {
        Some(NavJumpRequest::Escape(d, t)) => (d, t.read()),
        other => panic!("not an escape: {other:?}"),
    }
}

#[test]
fn nav_jump_looped() {
    let m = map();
    assert!(matches!(
        nav_jump_request(NavJumpMode::Direction, true, &m, NavStep::Up),
        Some(NavJumpRequest::Loop(NavDirection::Up))
    ));
    assert!(matches!(
        nav_jump_request(NavJumpMode::StepHorizontal, true, &m, NavStep::Left),
        Some(NavJumpRequest::Loop(NavDirection::Prev))
    ));
    assert!(matches!(
        nav_jump_request(NavJumpMode::StepVertical, true, &m, NavStep::Down),
        Some(NavJumpRequest::Loop(NavDirection::Next))
    ));
    assert!(nav_jump_request(NavJumpMode::StepPages, true, &m, NavStep::Up).is_none());
    assert!(nav_jump_request(NavJumpMode::StepHorizontal, true, &m, NavStep::Up).is_none());
}

#[test]
fn nav_jump_escapes() {
    let m = map();
    assert_eq!(
        escape_target(nav_jump_request(NavJumpMode::Direction, false, &m, NavStep::Up)),
        (NavDirection::Up, Some(WidgetId::new("w", &["up"])))
    );
    assert_eq!(
        escape_target(nav_jump_request(NavJumpMode::StepHorizontal, false, &m, NavStep::Left)),
        (NavDirection::Prev, Some(WidgetId::new("w", &["left"])))
    );
    assert_eq!(
        escape_target(nav_jump_request(NavJumpMode::StepPages, false, &m, NavStep::Next)),
        (NavDirection::Next, Some(WidgetId::new("w", &["next"])))
    );
    assert_eq!(
        escape_target(nav_jump_request(NavJumpMode::StepVertical, false, &m, NavStep::Down)),
        (NavDirection::Next, None)
    );
}

#[test]
fn nav_jump_map_selects_set_targets() {
    let m = map();
    assert_eq!(
        nav_jump_map_select(&m, NavStep::Up).and_then(|t| t.read()),
        Some(WidgetId::new("w", &["up"]))
    );
    assert!(nav_jump_map_select(&m, NavStep::Down).is_none());
    let shared = nav_jump_map_select(&m, NavStep::Next).unwrap();
    assert_eq!(shared.read(), Some(WidgetId::new("w", &["next"])));
}

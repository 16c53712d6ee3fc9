use raui_core::button::{button_notify_message, ButtonProps, ButtonSignal};
use raui_core::containers::{
    parse_index, tab_plates, tabs_main_direction, tabs_row_direction, tabs_switch_index,
    tabs_update, tooltip_update, TabPlateProps, TabsBoxTabsLocation, TabsState, TooltipState,
};
use raui_core::units::FlexBoxDirection;
use raui_core::widget_id::WidgetId;

fn pressed(key: &str) -> raui_core::button::ButtonNotifyMessage {
    let id = WidgetId::new("button", &["tabs", key]);
    let up = ButtonProps::default();
    let down = ButtonProps {
        trigger: true,
        ..ButtonProps::default()
    };
    button_notify_message(&id, down, up)
}

#[test]
fn tabs_parse_index() {
    assert_eq!(parse_index("3"), Some(3));
    assert_eq!(parse_index("+12"), Some(12));
    assert_eq!(parse_index("007"), Some(7));
    assert_eq!(parse_index(""), None);
    assert_eq!(parse_index("-1"), None);
    assert_eq!(parse_index("x"), None);
    assert_eq!(parse_index("99999999999999999999999"), None);
    for s in ["3", "+12", "-1", "x", "", "18446744073709551615"] {
        assert_eq!(parse_index(s), s.parse::<usize>().ok());
    }
}

#[test]
fn tabs_follow_pressed_plates() {
    assert_eq!(tabs_update(&[pressed("2")]), Some(TabsState { active_index: 2 }));
    assert_eq!(
        tabs_update(&[pressed("2"), pressed("0")]),
        Some(TabsState { active_index: 0 })
    );
    assert_eq!(tabs_update(&[pressed("2"), pressed("x")]), Some(TabsState { active_index: 2 }));
    assert_eq!(tabs_update(&[]), None);
    let id = WidgetId::new("button", &["tabs", "1"]);
    let held = ButtonProps {
        trigger: true,
        ..ButtonProps::default()
    };
    assert_eq!(tabs_update(&[button_notify_message(&id, held, held)]), None);
}

#[test]
fn tabs_plates_and_switch() {
    let plates = tab_plates(TabsState { active_index: 1 }, 3);
    assert_eq!(
        plates,
        vec![
            TabPlateProps { active: false, index: 0 },
            TabPlateProps { active: true, index: 1 },
            TabPlateProps { active: false, index: 2 },
        ]
    );
    assert_eq!(tabs_switch_index(TabsState { active_index: 1 }, 3), Some(1));
    assert_eq!(tabs_switch_index(TabsState { active_index: 3 }, 3), None);
    assert_eq!(TabsState::default().active_index, 0);
}

#[test]
fn tabs_directions() {
    assert_eq!(tabs_main_direction(TabsBoxTabsLocation::Top), FlexBoxDirection::VerticalTopToBottom);
    assert_eq!(tabs_main_direction(TabsBoxTabsLocation::Bottom), FlexBoxDirection::VerticalBottomToTop);
    assert_eq!(tabs_main_direction(TabsBoxTabsLocation::Left), FlexBoxDirection::HorizontalLeftToRight);
    assert_eq!(tabs_main_direction(TabsBoxTabsLocation::Right), FlexBoxDirection::HorizontalRightToLeft);
    assert_eq!(tabs_row_direction(TabsBoxTabsLocation::Bottom), FlexBoxDirection::HorizontalLeftToRight);
    assert_eq!(tabs_row_direction(TabsBoxTabsLocation::Left), FlexBoxDirection::VerticalTopToBottom);
    assert_eq!(TabsBoxTabsLocation::default(), TabsBoxTabsLocation::Top);
}

#[test]
fn tooltip_follows_selection() {
    assert_eq!(tooltip_update(&[ButtonSignal::Select]), Some(TooltipState { show: true }));
    assert_eq!(
        tooltip_update(&[ButtonSignal::Select, ButtonSignal::Accept(true), ButtonSignal::Unselect]),
        Some(TooltipState { show: false })
    );
    assert_eq!(tooltip_update(&[ButtonSignal::Context(true)]), None);
}

use raui_core::button::{
    button_notified_state, button_notify_message, button_update, ButtonNotifyMessage, ButtonProps, ButtonSignal,
};
use raui_core::widget_id::WidgetId;

fn props(selected: bool, trigger: bool, context: bool) -> ButtonProps {
    ButtonProps {
        selected,
        trigger,
        context,
    }
}

#[test]
fn button_message_edges() {
    let id = WidgetId::new("button", &["ok"]);
    let m = button_notify_message(&id, props(true, false, true), props(false, true, true));
    assert_eq!(m.sender, id);
    assert!(m.select_start());
    assert!(!m.select_stop());
    assert!(m.select_changed());
    assert!(!m.trigger_start());
    assert!(m.trigger_stop());
    assert!(m.trigger_changed());
    assert!(!m.context_start());
    assert!(!m.context_stop());
    assert!(!m.context_changed());
}

#[test]
fn button_message_default() {
    let m = ButtonNotifyMessage::default();
    assert!(!m.sender.is_valid());
    assert_eq!(m.state, ButtonProps::default());
    assert_eq!(m.prev, ButtonProps::default());
    assert!(!m.select_changed() && !m.trigger_changed() && !m.context_changed());
}

#[test]
fn button_signals_change_flags() {
    let (p, dirty) = button_update(
        ButtonProps::default(),
        &[ButtonSignal::Select, ButtonSignal::Accept(true), ButtonSignal::Context(true)],
    );
    assert_eq!(p, props(true, true, true));
    assert!(dirty);
    let (p, dirty) = button_update(
        props(true, true, false),
        &[ButtonSignal::Unselect, ButtonSignal::Accept(false)],
    );
    assert_eq!(p, props(false, false, false));
    assert!(dirty);
    let (p, dirty) = button_update(props(true, false, true), &[]);
    assert_eq!(p, props(true, false, true));
    assert!(!dirty);
}

#[test]
fn button_last_signal_wins() {
    let (p, _) = button_update(
        ButtonProps::default(),
        &[ButtonSignal::Select, ButtonSignal::Unselect],
    );
    assert!(!p.selected);
    let (p, _) = button_update(
        ButtonProps::default(),
        &[ButtonSignal::Accept(true), ButtonSignal::Accept(false), ButtonSignal::Accept(true)],
    );
    assert!(p.trigger);
}

#[test]
fn button_notified_state_keeps_last() {
    let id = WidgetId::new("b", &["x"]);
    let a = button_notify_message(&id, props(true, false, false), props(false, false, false));
    let b = button_notify_message(&id, props(false, true, false), props(true, false, false));
    assert_eq!(button_notified_state(&[a, b]), Some(props(false, true, false)));
    assert_eq!(button_notified_state(&[]), None);
}

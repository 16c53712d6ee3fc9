use raui_core::interactions::{DefaultInteractionsEngine, Interaction, NavCommand, NavListJump, NavNotice, PointerButton};
use raui_core::navigation::NavTextChange;
use raui_core::navigation::NavType;
use raui_core::widget_id::WidgetId;

fn id(s: &str) -> WidgetId {
    WidgetId::from_str(s).unwrap()
}

fn notices(v: Vec<(WidgetId, NavNotice)>) -> Vec<(String, NavNotice)> {
    v.into_iter().map(|(w, n)| (w.to_string(), n)).collect()
}

#[test]
fn engine_selects_chains_and_tells_who_leaves_and_enters() {
    let mut e = DefaultInteractionsEngine::new();
    e.register(&id("list:root"), &NavType::Container);
    e.register(&id("item:root/a"), &NavType::Item);
    e.register(&id("item:root/b"), &NavType::Item);
    e.register(&id("button:root/b"), &NavType::Button);

    let n = notices(e.select_item(Some(id("item:root/a"))));
    assert_eq!(
        n,
        vec![
            ("list:root".to_owned(), NavNotice::Selected),
            ("item:root/a".to_owned(), NavNotice::Selected),
        ]
    );
    assert_eq!(e.selected_item().unwrap().to_string(), "item:root/a");
    assert_eq!(e.selected_container().unwrap().to_string(), "list:root");
    assert!(e.selected_button().is_none());

    // selecting the same item again tells nobody
    assert!(e.select_item(Some(id("item:root/a"))).is_empty());

    let n = notices(e.select_item(Some(id("item:root/b"))));
    assert_eq!(
        n,
        vec![
            ("item:root/a".to_owned(), NavNotice::Unselected),
            ("item:root/b".to_owned(), NavNotice::Selected),
        ]
    );

    let n = notices(e.select_item(None));
    assert_eq!(
        n,
        vec![
            ("item:root/b".to_owned(), NavNotice::Unselected),
            ("list:root".to_owned(), NavNotice::Unselected),
        ]
    );
    assert!(e.selected_chain().is_empty());
}

#[test]
fn engine_items_go_to_the_deepest_container() {
    let mut e = DefaultInteractionsEngine::new();
    e.register(&id("outer:root"), &NavType::Container);
    e.register(&id("inner:root/list"), &NavType::Container);
    e.register(&id("item:root/list/x"), &NavType::Item);
    let n = notices(e.select_item(Some(id("item:root/list/x"))));
    assert_eq!(
        n,
        vec![
            ("inner:root/list".to_owned(), NavNotice::Selected),
            ("item:root/list/x".to_owned(), NavNotice::Selected),
        ]
    );
    // an identifier that is no item selects nothing
    let n = notices(e.select_item(Some(id("free:elsewhere"))));
    assert_eq!(
        n,
        vec![
            ("inner:root/list".to_owned(), NavNotice::Unselected),
            ("item:root/list/x".to_owned(), NavNotice::Unselected),
        ]
    );
    e.unregister(&id("item:root/list/x"), &NavType::Item);
    assert!(e.select_item(Some(id("item:root/list/x"))).is_empty());
}

#[test]
fn engine_focus_moves_between_text_inputs() {
    let mut e = DefaultInteractionsEngine::new();
    e.register(&id("input:root/a"), &NavType::TextInput);
    e.register(&id("input:root/b"), &NavType::TextInput);
    let n = notices(e.focus_text_input(Some(id("input:root/a"))));
    assert_eq!(n, vec![("input:root/a".to_owned(), NavNotice::FocusGained)]);
    let n = notices(e.focus_text_input(Some(id("input:root/b"))));
    assert_eq!(
        n,
        vec![
            ("input:root/a".to_owned(), NavNotice::FocusLost),
            ("input:root/b".to_owned(), NavNotice::FocusGained),
        ]
    );
    // not a text input: focus is dropped
    let n = notices(e.focus_text_input(Some(id("label:root/c"))));
    assert_eq!(n, vec![("input:root/b".to_owned(), NavNotice::FocusLost)]);
    assert!(e.focused_text_input().is_none());
    e.focus_text_input(Some(id("input:root/a")));
    e.unregister(&id("input:root/a"), &NavType::TextInput);
    assert!(e.focused_text_input().is_none());
}

#[test]
fn engine_pointer_selects_found_button() {
    let mut e = DefaultInteractionsEngine::new();
    e.register(&id("list:root"), &NavType::Container);
    e.register(&id("button:root/ok"), &NavType::Item);
    e.register(&id("button:root/ok"), &NavType::Button);
    let (n, captured) = e.pointer_moved(Some(id("button:root/ok")), false);
    assert!(captured);
    assert_eq!(n.len(), 2);
    assert_eq!(e.selected_button().unwrap().to_string(), "button:root/ok");
    let (n, captured) = e.pointer_moved(None, true);
    assert!(captured);
    assert!(n.is_empty());
    e.deselect_when_no_button_found = true;
    let (n, captured) = e.pointer_moved(None, false);
    assert!(!captured);
    assert_eq!(n.len(), 2);
    e.unregister(&id("list:root"), &NavType::Container);
    assert!(e.select_item(Some(id("button:root/ok"))).is_empty());
}

fn list_engine() -> DefaultInteractionsEngine {
    let mut e = DefaultInteractionsEngine::new();
    e.register(&id("list:root"), &NavType::Container);
    for name in ["item:root/a", "item:root/b", "item:root/c"] {
        e.register(&id(name), &NavType::Item);
    }
    e
}

fn selected(e: &DefaultInteractionsEngine) -> String {
    e.selected_item().map(|w| w.to_string()).unwrap_or_default()
}

#[test]
fn engine_list_jumps_wrap_and_escape() {
    let list = id("list:root");
    let mut e = list_engine();
    e.list_jump(&list, NavListJump::StepLoop(-1));
    assert_eq!(selected(&e), "item:root/c");
    e.list_jump(&list, NavListJump::StepLoop(1));
    assert_eq!(selected(&e), "item:root/a");
    e.list_jump(&list, NavListJump::StepLoop(-4));
    assert_eq!(selected(&e), "item:root/c");
    e.list_jump(&list, NavListJump::StepLoop(isize::MIN));
    // (2 + isize::MIN) mod 3
    let expected = ((2i128 + isize::MIN as i128).rem_euclid(3)) as usize;
    assert_eq!(selected(&e), ["item:root/a", "item:root/b", "item:root/c"][expected]);
    e.list_jump(&list, NavListJump::First);
    assert_eq!(selected(&e), "item:root/a");
    e.list_jump(&list, NavListJump::Last);
    assert_eq!(selected(&e), "item:root/c");
    e.list_jump(&list, NavListJump::StepEscape(1, Some(id("exit:root"))));
    assert_eq!(selected(&e), "");
    e.list_jump(&list, NavListJump::StepEscape(0, None));
    assert_eq!(selected(&e), "");
    let mut e = list_engine();
    e.list_jump(&list, NavListJump::First);
    e.list_jump(&list, NavListJump::StepEscape(2, None));
    assert_eq!(selected(&e), "item:root/c");
    e.list_jump(&list, NavListJump::StepEscape(-2, None));
    assert_eq!(selected(&e), "item:root/a");
    let n = e.list_jump(&id("nolist:root"), NavListJump::First);
    assert!(n.is_empty());
}

#[test]
fn engine_routes_commands() {
    let mut e = list_engine();
    e.register(&id("item:root/b"), &NavType::Button);
    e.register(&id("input:root/t"), &NavType::TextInput);
    let (n, to, res) = e.perform_interaction(Interaction::Navigate(NavCommand::Accept(true)));
    assert!(n.is_empty() && to.is_none() && res.is_none());
    let (n, _, _) = e.perform_interaction(Interaction::Navigate(NavCommand::Select(Some(id("item:root/b")))));
    assert_eq!(n.len(), 2);
    let (_, to, _) = e.perform_interaction(Interaction::Navigate(NavCommand::Accept(true)));
    assert_eq!(to.unwrap().to_string(), "item:root/b");
    let (_, to, _) = e.perform_interaction(Interaction::Navigate(NavCommand::Up));
    assert_eq!(to.unwrap().to_string(), "list:root");
    let (_, to, res) = e.perform_interaction(Interaction::PointerDown(PointerButton::Trigger));
    assert_eq!(to.unwrap().to_string(), "item:root/b");
    assert!(res.captured_pointer_action);
    let (_, to, res) = e.perform_interaction(Interaction::Navigate(NavCommand::TextChange(NavTextChange::NewLine)));
    assert!(to.is_none() && !res.captured_text_change);
    e.perform_interaction(Interaction::Navigate(NavCommand::FocusTextInput(Some(id("input:root/t")))));
    let (_, to, res) = e.perform_interaction(Interaction::Navigate(NavCommand::TextChange(NavTextChange::NewLine)));
    assert_eq!(to.unwrap().to_string(), "input:root/t");
    assert!(res.captured_text_change);
    let (_, to, _) = e.perform_interaction(Interaction::Navigate(NavCommand::Custom(Some(id("x:y")), "hi".to_owned())));
    assert_eq!(to.unwrap().to_string(), "x:y");
    let (_, to, _) = e.perform_interaction(Interaction::Navigate(NavCommand::Custom(None, "hi".to_owned())));
    assert_eq!(to.unwrap().to_string(), "item:root/b");
    let (_, _, res) = e.perform_interaction(Interaction::PointerMove(None, true));
    assert!(res.captured_pointer_location);
    let (n, to, res) = e.perform_interaction(Interaction::Nothing);
    assert!(n.is_empty() && to.is_none() && res.is_none());
}

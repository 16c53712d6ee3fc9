use raui_core::application::{Application, InvalidationCause};
use raui_core::messenger::Message;
use raui_core::props::Props;
use raui_core::queues::MessageQueues;
use raui_core::tree::{process_node, ComponentProcessor, UnitKind, WidgetComponent, WidgetNode, WidgetUnitNode};
use raui_core::widget_id::WidgetId;
use raui_core::widget_ref::WidgetRef;

fn component(render: ComponentProcessor, kind: &str, key: Option<&str>) -> WidgetNode {
    WidgetNode::Component(WidgetComponent {
        processor: render,
        kind: kind.to_owned(),
        key: key.map(|k| k.to_owned()),
        idref: None,
        props: Props::default(),
        shared_props: None,
        listed_slots: vec![],
    })
}

fn leaf(id: &WidgetId, _key: &str, _props: &Props, _shared: &Props, _state: &Props, _messages: &[Message], _slots: Vec<WidgetNode>) -> WidgetNode {
    WidgetNode::Unit(WidgetUnitNode { kind: UnitKind::TextBox, id: id.clone(), data: Props::default(), slots: vec![] })
}

fn list(id: &WidgetId, _key: &str, _props: &Props, _shared: &Props, _state: &Props, _messages: &[Message], _slots: Vec<WidgetNode>) -> WidgetNode {
    WidgetNode::Unit(WidgetUnitNode {
        kind: UnitKind::ContentBox,
        id: id.clone(),
        data: Props::default(),
        slots: vec![
            component(ComponentProcessor(leaf), "item", None),
            component(ComponentProcessor(leaf), "item", Some("named")),
        ],
    })
}

fn counting(id: &WidgetId, _key: &str, _props: &Props, _shared: &Props, _state: &Props, messages: &[Message], _slots: Vec<WidgetNode>) -> WidgetNode {
    let mut data = Props::default();
    data.write(messages.len() as u64);
    WidgetNode::Unit(WidgetUnitNode { kind: UnitKind::TextBox, id: id.clone(), data, slots: vec![] })
}

fn texts(ids: &[WidgetId]) -> Vec<String> {
    ids.iter().map(|id| id.to_string()).collect()
}

#[test]
fn tree_components_get_ids_from_path_and_key() {
    let root = component(ComponentProcessor(list), "app", None);
    let mut queues = MessageQueues::new();
    let mut new_states = vec![];
    let mut used = vec![];
    let r = process_node(root, &vec![], &vec![], "<*>", None, &mut queues, &mut new_states, &mut used, 100);
    assert_eq!(texts(&used), vec!["app:<*>", "item:<*>/<0>", "item:<*>/named"]);
    assert_eq!(new_states.len(), 3);
    match r {
        WidgetNode::Unit(u) => {
            assert_eq!(u.id.to_string(), "app:<*>");
            assert_eq!(u.slots.len(), 2);
            assert!(matches!(u.slots[0], WidgetNode::Unit(_)));
        },
        _ => panic!("expected a unit"),
    }
}

#[test]
fn tree_stored_state_is_kept_and_messages_are_delivered() {
    let id = WidgetId::from_str("counter:<*>").unwrap();
    let other = WidgetId::from_str("other:<*>").unwrap();
    let root = component(ComponentProcessor(counting), "counter", None);
    let mut queues = MessageQueues::new();
    queues.push(&id, Message::new(1i32));
    queues.push(&id, Message::new(2i32));
    queues.push(&other, Message::new(3i32));
    let states = vec![(id.clone(), Props::new(7i32))];
    let mut new_states = vec![];
    let mut used = vec![];
    let r = process_node(root, &states, &vec![], "<*>", None, &mut queues, &mut new_states, &mut used, 100);
    assert!(new_states.is_empty());
    assert_eq!(queues.take(&id).len(), 0);
    assert_eq!(queues.take(&other).len(), 1);
    match r {
        WidgetNode::Unit(u) => assert_eq!(*u.data.read::<u64>().unwrap(), 2),
        _ => panic!("expected a unit"),
    }
}

#[test]
fn tree_idref_learns_the_id_and_depth_limit_stops() {
    let idref = WidgetRef::default();
    let root = WidgetNode::Component(WidgetComponent {
        processor: ComponentProcessor(leaf),
        kind: "thing".to_owned(),
        key: Some("k".to_owned()),
        idref: Some(idref.clone()),
        props: Props::default(),
        shared_props: None,
        listed_slots: vec![],
    });
    let mut queues = MessageQueues::new();
    let mut new_states = vec![];
    let mut used = vec![];
    let _ = process_node(root, &vec![], &vec!["p".to_owned()], ".", None, &mut queues, &mut new_states, &mut used, 100);
    assert_eq!(idref.read().unwrap().to_string(), "thing:p/k");

    let deep = component(ComponentProcessor(list), "app", None);
    let mut used = vec![];
    let r = process_node(deep, &vec![], &vec![], "<*>", None, &mut queues, &mut new_states, &mut used, 0);
    assert!(matches!(r, WidgetNode::Empty));
    assert!(used.is_empty());
}

#[test]
fn application_processes_and_keeps_states_of_used_widgets() {
    let mut app = Application::new();
    assert!(app.is_dirty());
    app.apply(component(ComponentProcessor(list), "app", None));
    assert!(app.process());
    assert!(matches!(app.last_invalidation_cause(), InvalidationCause::Forced));
    let item = WidgetId::from_str("item:<*>/<0>").unwrap();
    assert!(app.state_read(&item).is_some());
    assert!(!app.process());
    assert!(matches!(app.last_invalidation_cause(), InvalidationCause::Nothing));

    app.state_write(&item, Props::new(5i32));
    assert!(app.process());
    match app.last_invalidation_cause() {
        InvalidationCause::StateChange(id) => assert_eq!(id.to_string(), "item:<*>/<0>"),
        _ => panic!("expected a state change"),
    }
    assert_eq!(*app.state_read(&item).unwrap().read::<i32>().unwrap(), 5);

    // a widget that is gone loses its state
    app.apply(component(ComponentProcessor(leaf), "app", None));
    assert!(app.process());
    assert!(app.state_read(&item).is_none());
    assert!(app.state_read(&WidgetId::from_str("app:<*>").unwrap()).is_some());
}

#[test]
fn application_messages_to_unknown_widgets_are_dropped() {
    let mut app = Application::new();
    app.apply(component(ComponentProcessor(counting), "counter", None));
    assert!(app.process());
    app.send_message_raw(&WidgetId::from_str("nobody:<*>").unwrap(), Message::new(1i32));
    assert!(app.process());
    assert!(matches!(app.last_invalidation_cause(), InvalidationCause::MessageReceived(_)));
    assert!(!app.process());
    let counter = WidgetId::from_str("counter:<*>").unwrap();
    app.send_message_raw(&counter, Message::new(1i32));
    assert!(app.process());
    match app.rendered_tree() {
        WidgetNode::Unit(u) => assert_eq!(*u.data.read::<u64>().unwrap(), 1),
        _ => panic!("expected a unit"),
    }
}

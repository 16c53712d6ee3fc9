use raui_core::messenger::Message;
use raui_core::queues::MessageQueues;
use raui_core::widget_id::WidgetId;

fn values(messages: Vec<Message>) -> Vec<i32> {
    messages.iter().map(|m| *m.downcast_ref::<i32>().unwrap()).collect()
}

#[test]
fn queues_deliver_in_order() {
    let w1 = WidgetId::new("a", &["one"]);
    let w2 = WidgetId::new("b", &["two"]);
    let mut q = MessageQueues::new();
    assert!(q.is_empty());
    assert!(q.first_recipient().is_none());
    q.push(&w1, Message::new(1i32));
    q.push(&w2, Message::new(10i32));
    q.push(&w1, Message::new(2i32));
    q.push(&WidgetId::from_str("a:one").unwrap(), Message::new(3i32));
    assert!(!q.is_empty());
    assert_eq!(q.first_recipient(), Some(&w1));
    assert_eq!(values(q.take(&w1)), vec![1, 2, 3]);
    assert_eq!(values(q.take(&w1)), Vec::<i32>::new());
    assert_eq!(q.first_recipient(), Some(&w2));
    assert_eq!(values(q.take(&w2)), vec![10]);
    assert!(q.is_empty());
}

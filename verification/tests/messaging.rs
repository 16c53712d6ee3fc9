use raui_core::application::{invalidation_cause, ChangeNotifier, InvalidationCause};
use raui_core::data_binding::DataBinding;
use raui_core::messenger::{Message, MessageSender, Messenger};
use raui_core::props::{Props, PropsError};
use raui_core::signals::SignalSender;
use raui_core::state::{State, StateError, StateUpdate};
use raui_core::widget_id::WidgetId;
use std::sync::mpsc::channel;

#[test]
fn messages_reach_their_widget() {
    let (tx, rx) = channel();
    let sender = MessageSender::new(tx);
    let to = WidgetId::new("w", &["a"]);
    assert!(sender.write(to.clone(), 5i32));
    assert!(sender.write_raw(to.clone(), Message::new(true)));
    sender.write_raw_all(vec![(to.clone(), Message::new("s".to_owned()))]);
    let (id, m) = rx.recv().unwrap();
    assert_eq!(id, to);
    assert_eq!(m.downcast_ref::<i32>(), Some(&5));
    assert_eq!(m.downcast_ref::<bool>(), None);
    let (_, m) = rx.recv().unwrap();
    assert_eq!(m.downcast_ref::<bool>(), Some(&true));
    let (_, m) = rx.recv().unwrap();
    assert_eq!(m.downcast_ref::<String>(), Some(&"s".to_owned()));
    drop(rx);
    assert!(!sender.write(to, 1u8));
}

#[test]
fn messenger_sends_and_holds_received() {
    let (tx, rx) = channel();
    let received = vec![Message::new(1u32)];
    let messenger = Messenger::new(MessageSender::new(tx), &received);
    assert_eq!(messenger.messages.len(), 1);
    let to = WidgetId::new("w", &["b"]);
    assert!(messenger.write(to.clone(), 2u32));
    let (id, m) = rx.recv().unwrap();
    assert_eq!(id, to);
    assert_eq!(m.downcast_ref::<u32>(), Some(&2));
    let copy = m.clone();
    assert_eq!(copy.downcast_ref::<u32>(), Some(&2));
}

#[test]
fn signals_come_from_their_widget() {
    let (tx, rx) = channel();
    let from = WidgetId::new("w", &["c"]);
    let signals = SignalSender::new(from.clone(), tx);
    assert!(signals.write(3i8));
    signals.write_raw_all(vec![Message::new(4i8), Message::new(5i8)]);
    let got: Vec<i8> = rx
        .try_iter()
        .map(|(id, m)| {
            assert_eq!(id, from);
            *m.downcast_ref::<i8>().unwrap()
        })
        .collect();
    assert_eq!(got, vec![3, 4, 5]);
}

#[test]
fn state_reads_and_writes() {
    let (tx, rx) = channel();
    let data = Props::new(7u16);
    let state = State::new(&data, StateUpdate::new(tx));
    assert!(state.has::<u16>());
    assert_eq!(*state.read::<u16>().unwrap(), 7);
    assert!(matches!(
        state.read::<bool>(),
        Err(StateError::Props(PropsError::HasNoDataOfType(_)))
    ));
    assert_eq!(state.read_cloned_or_default::<bool>(), false);
    state.write(true).unwrap();
    let sent = rx.recv().unwrap();
    assert!(sent.has::<bool>() && !sent.has::<u16>());
    state.write_with(false).unwrap();
    let sent = rx.recv().unwrap();
    assert_eq!(*sent.read::<bool>().unwrap(), false);
    assert_eq!(*sent.read::<u16>().unwrap(), 7);
    state.write_without::<u16>().unwrap();
    assert!(!rx.recv().unwrap().has::<u16>());
    state.mutate::<u16, _>(|v| v + 1).unwrap();
    assert_eq!(*rx.recv().unwrap().read::<u16>().unwrap(), 8);
    drop(rx);
    assert!(matches!(state.write(1u8), Err(StateError::CouldNotWriteData)));
}

#[test]
fn change_notifier_flag() {
    let mut n = ChangeNotifier::new(false);
    assert!(!n.has_changed());
    let mut other = n.clone();
    other.change();
    assert!(n.has_changed());
    assert!(n.consume_change());
    assert!(!n.consume_change());
    assert!(!other.has_changed());
    assert!(!ChangeNotifier::default().has_changed());
    assert!(matches!(InvalidationCause::default(), InvalidationCause::Nothing));
}

#[test]
fn data_binding_access_and_write() {
    let binding = DataBinding::new(false);
    assert_eq!(binding.access(|data| !data), Some(true));
    let notifier = ChangeNotifier::new(false);
    let mut bound = DataBinding::new_bound(10i32, notifier.clone());
    assert_eq!(bound.read_cloned(), Some(10));
    bound.write(11);
    assert!(notifier.has_changed());
    let mut n = notifier.clone();
    assert!(n.consume_change());
    assert_eq!(bound.mutate(|v| {
        *v += 1;
        *v
    }), Some(12));
    assert!(notifier.has_changed());
    bound.unbind();
    let mut n = notifier.clone();
    n.consume_change();
    bound.write(0);
    assert!(!notifier.has_changed());
    assert_eq!(bound.read_cloned_or_default(), 0);
    bound.bind(notifier.clone());
    bound.write(1);
    assert!(notifier.has_changed());
}

#[test]
fn invalidation_causes_by_rank() {
    let s = WidgetId::new("s", &["1"]);
    let m = WidgetId::new("m", &["2"]);
    let a = WidgetId::new("a", &["3"]);
    assert!(matches!(
        invalidation_cause(true, Some(&s), Some(&m), Some(&a)),
        Some(InvalidationCause::StateChange(x)) if x == s
    ));
    assert!(matches!(
        invalidation_cause(false, None, Some(&m), Some(&a)),
        Some(InvalidationCause::MessageReceived(x)) if x == m
    ));
    assert!(matches!(
        invalidation_cause(false, None, None, Some(&a)),
        Some(InvalidationCause::AnimationInProgress(x)) if x == a
    ));
    assert!(matches!(invalidation_cause(true, None, None, None), Some(InvalidationCause::Forced)));
    assert!(invalidation_cause(false, None, None, None).is_none());
}

//! Messages sent between widgets.

use std::any::Any;
use std::sync::mpsc::Sender;
use vstd::prelude::*;

use crate::widget_id::WidgetId;

verus! {

#[verifier::external_type_specification]
#[verifier::external_body]
#[verifier::reject_recursive_types(T)]
pub struct ExSender<T>(Sender<T>);

/// A type whose values can be sent as messages.
pub trait MessageData: Clone + Send + Sync + 'static {

}

/// A message of some message type, boxed with what is needed to copy it
/// and to read it back as its own type.
///
/// Verus cannot take `dyn Any` (it has no model of `core::any::Any`), so the
/// boxed value is hidden in this type and reached only through the trusted
/// functions below.
#[verifier::external_body]
pub struct Message {
    value: Box<dyn Any + Send + Sync>,
    copy: std::sync::Arc<dyn Fn(&(dyn Any + Send + Sync)) -> Message + Send + Sync>,
}

impl Message {
    /// Boxes `data` (`Box::new`, then unsizing to `dyn Any`).
    ///
    /// Nothing is claimed of the result.
    #[verifier::external_body]
    pub fn new<T: MessageData>(data: T) -> Message {
        Message {
            value: Box::new(data),
            copy: std::sync::Arc::new(|v| Message::new(v.downcast_ref::<T>().unwrap().clone())),
        }
    }

    /// A boxed copy of the message (`Clone::clone` of the message's own type).
    ///
    /// Nothing is claimed of the result.
    #[verifier::external_body]
    pub fn duplicate(&self) -> Message {
        (self.copy)(&*self.value)
    }

    /// The message as a `T` (`Any::downcast_ref`); `None` when it holds another type.
    ///
    /// Nothing is claimed of the result.
    #[verifier::external_body]
    pub fn downcast_ref<T: 'static>(&self) -> Option<&T> {
        self.value.downcast_ref::<T>()
    }
}

impl Clone for Message {
    fn clone(&self) -> Self {
        self.duplicate()
    }
}

impl MessageData for i8 {

}

impl MessageData for i16 {

}

impl MessageData for i32 {

}

impl MessageData for i64 {

}

impl MessageData for i128 {

}

impl MessageData for u8 {

}

impl MessageData for u16 {

}

impl MessageData for u32 {

}

impl MessageData for u64 {

}

impl MessageData for u128 {

}

impl MessageData for bool {

}

impl MessageData for String {

}

/// Sends a widget message over a channel (`Sender::send`); false when the
/// receiving end is gone.
///
/// Nothing is claimed of the result: it depends on the receiver.
#[verifier::external_body]
fn send_widget_message(sender: &Sender<(WidgetId, Message)>, id: WidgetId, message: Message) -> bool {
    sender.send((id, message)).is_ok()
}

/// Another handle to the same channel (`Sender::clone`).
///
/// Nothing is claimed of the result.
#[verifier::external_body]
pub(crate) fn clone_sender<T>(sender: &Sender<T>) -> Sender<T> {
    sender.clone()
}

/// Sends messages to widgets.
pub struct MessageSender(Sender<(WidgetId, Message)>);

impl Clone for MessageSender {
    fn clone(&self) -> Self {
        MessageSender(clone_sender(&self.0))
    }
}

impl MessageSender {
    /// The channel messages go to.
    pub closed spec fn channel(&self) -> Sender<(WidgetId, Message)> {
        self.0
    }

    /// A sender over the channel `sender`.
    pub fn new(sender: Sender<(WidgetId, Message)>) -> (r: Self)
        ensures
            r.channel() == sender,
    {
        MessageSender(sender)
    }

    /// Sends `message` to the widget `id`; false when nobody receives.
    pub fn write<T: MessageData>(&self, id: WidgetId, message: T) -> (r: bool) {
        send_widget_message(&self.0, id, Message::new(message))
    }

    /// Sends an already boxed `message` to the widget `id`; false when nobody receives.
    pub fn write_raw(&self, id: WidgetId, message: Message) -> (r: bool) {
        send_widget_message(&self.0, id, message)
    }

    /// Sends each message to its widget, in order, ignoring failures.
    pub fn write_raw_all(&self, messages: Vec<(WidgetId, Message)>) {
        for item in messages {
            let (id, message) = item;
            let _ = send_widget_message(&self.0, id, message);
        }
    }
}

/// What a widget sees of messaging: the messages sent to it and a sender.
pub struct Messenger<'a> {
    sender: MessageSender,
    pub messages: &'a [Message],
}

impl<'a> Messenger<'a> {
    /// The sender messages go through.
    pub closed spec fn sender(&self) -> MessageSender {
        self.sender
    }

    /// The messages sent to the widget.
    pub closed spec fn received(&self) -> &'a [Message] {
        self.messages
    }

    /// A messenger over `sender` holding `messages`.
    pub fn new(sender: MessageSender, messages: &'a [Message]) -> (r: Self)
        ensures
            r.sender() == sender,
            r.received() == messages,
    {
        Messenger { sender, messages }
    }

    /// Sends `message` to the widget `id`; false when nobody receives.
    pub fn write<T: MessageData>(&self, id: WidgetId, message: T) -> (r: bool) {
        self.sender.write(id, message)
    }

    /// Sends an already boxed `message` to the widget `id`; false when nobody receives.
    pub fn write_raw(&self, id: WidgetId, message: Message) -> (r: bool) {
        self.sender.write_raw(id, message)
    }

    /// Sends each message to its widget, in order, ignoring failures.
    pub fn write_raw_all(&self, messages: Vec<(WidgetId, Message)>) {
        self.sender.write_raw_all(messages);
    }
}

} // verus!

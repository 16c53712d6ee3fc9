//! Signals: messages from a widget to the application.

use std::sync::mpsc::Sender;
use vstd::prelude::*;

use crate::messenger::{clone_sender, Message, MessageData};
use crate::widget_id::WidgetId;

verus! {

/// A signal: the sending widget and its message.
pub type Signal = (WidgetId, Message);

/// Sends a signal over a channel (`Sender::send`); false when the receiving
/// end is gone.
///
/// Nothing is claimed of the result: it depends on the receiver.
#[verifier::external_body]
fn send_signal(sender: &Sender<Signal>, id: WidgetId, message: Message) -> bool {
    sender.send((id, message)).is_ok()
}

/// Sends signals on behalf of one widget.
pub struct SignalSender {
    id: WidgetId,
    sender: Sender<Signal>,
}

impl Clone for SignalSender {
    fn clone(&self) -> Self {
        SignalSender { id: self.id.clone(), sender: clone_sender(&self.sender) }
    }
}

impl SignalSender {
    /// The widget the signals come from.
    pub closed spec fn source(&self) -> WidgetId {
        self.id
    }

    /// A sender of signals from widget `id` over `sender`.
    pub fn new(id: WidgetId, sender: Sender<Signal>) -> (r: Self)
        ensures
            r.source() == id,
    {
        SignalSender { id, sender }
    }

    /// Sends `message` as a signal from this widget; false when nobody receives.
    pub fn write<T: MessageData>(&self, message: T) -> (r: bool) {
        send_signal(&self.sender, self.id.clone(), Message::new(message))
    }

    /// Sends an already boxed `message` as a signal; false when nobody receives.
    pub fn write_raw(&self, message: Message) -> (r: bool) {
        send_signal(&self.sender, self.id.clone(), message)
    }

    /// Sends each message as a signal, in order, ignoring failures.
    pub fn write_raw_all(&self, messages: Vec<Message>) {
        for message in messages {
            let _ = send_signal(&self.sender, self.id.clone(), message);
        }
    }
}

} // verus!

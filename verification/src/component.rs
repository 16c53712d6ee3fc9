//! Component-level messages: forwarding messages of chosen types to another
//! widget, resize-listener signals, and the animator's messages and errors.

use std::any::TypeId;
use vstd::prelude::*;

use crate::messenger::{Message, MessageData};
use crate::props::{same_key, PropsData};
use crate::widget_id::WidgetId;
use crate::widget_ref::WidgetIdOrRef;

verus! {

/// Forward the messages whose type is among `types` to `to`; `no_wrap`
/// forwards them as they are rather than inside a [`ForwardedMessage`].
#[derive(Debug, Clone, Default)]
pub struct MessageForwardProps {
    pub to: WidgetIdOrRef,
    pub types: Vec<TypeId>,
    pub no_wrap: bool,
}

/// A message forwarded on behalf of `sender`.
#[derive(Clone)]
pub struct ForwardedMessage {
    pub sender: WidgetId,
    pub data: Message,
}

/// What a widget that listens for resizes tells the application.
#[derive(Debug, Clone, Copy, PartialEq, Eq, Structural)]
pub enum ResizeListenerSignal {
    Register,
    Unregister,
    Change,
}

/// Why an animation value could not be read or written.
#[derive(Debug, Clone, Copy, PartialEq, Eq, Structural)]
pub enum AnimationError {
    CouldNotReadData,
    CouldNotWriteData,
}

/// A message an animation sends when it reaches a named point.
#[derive(Debug, Clone)]
pub struct AnimationMessage(pub String);

/// The positions, in order, of the message types that are among `types`.
pub open spec fn forwarded_positions(types: Seq<TypeId>, keys: Seq<TypeId>) -> Seq<usize>
    decreases keys.len(),
{
    if keys.len() == 0 {
        Seq::empty()
    } else {
        let rest = forwarded_positions(types, keys.drop_last());
        if types.contains(keys.last()) {
            rest.push((keys.len() - 1) as usize)
        } else {
            rest
        }
    }
}

/// Whether `key` is among `types`.
fn type_listed(types: &[TypeId], key: &TypeId) -> (r: bool)
    ensures
        r == types@.contains(*key),
{
    let mut i: usize = 0;
    while i < types.len()
        invariant
            i <= types@.len(),
            forall|j: int| 0 <= j < i ==> types@[j] != *key,
        decreases types@.len() - i,
    {
        if same_key(&types[i], key) {
            return true;
        }
        i = i + 1;
    }
    false
}

/// Which of the received messages a forwarding widget passes on, given the
/// type of each (`keys`, in the order received): those whose type is among
/// `types`, in order.
pub fn forwarded_indices(types: &[TypeId], keys: &[TypeId]) -> (r: Vec<usize>)
    ensures
        r@ == forwarded_positions(types@, keys@),
{
    let mut r: Vec<usize> = Vec::new();
    let mut i: usize = 0;
    while i < keys.len()
        invariant
            i <= keys@.len(),
            r@ == forwarded_positions(types@, keys@.take(i as int)),
        decreases keys@.len() - i,
    {
        if type_listed(types, &keys[i]) {
            r.push(i);
        }
        proof {
            assert(keys@.take(i + 1).drop_last() =~= keys@.take(i as int));
        }
        i = i + 1;
    }
    proof {
        assert(keys@.take(i as int) =~= keys@);
    }
    r
}

impl PropsData for MessageForwardProps {

}

impl MessageData for ForwardedMessage {

}

impl MessageData for ResizeListenerSignal {

}

impl MessageData for AnimationMessage {

}

} // verus!

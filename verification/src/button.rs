//! Buttons: their selected, triggered and context flags, how navigation
//! signals change them, and the edges that a change notification reports.

use vstd::prelude::*;

use crate::messenger::MessageData;
use crate::props::PropsData;
use crate::widget_id::{WidgetId, WidgetIdView};
use crate::widget_ref::WidgetIdOrRef;

verus! {

/// The flags of a button.
#[derive(Debug, Clone, Copy, PartialEq, Eq, Structural)]
pub struct ButtonProps {
    pub selected: bool,
    pub trigger: bool,
    pub context: bool,
}

impl Default for ButtonProps {
    /// All flags down.
    fn default() -> (r: Self)
        ensures
            !r.selected && !r.trigger && !r.context,
    {
        ButtonProps { selected: false, trigger: false, context: false }
    }
}

/// Where a button sends its flags after a change.
#[derive(Debug, Clone, Default)]
pub struct ButtonNotifyProps(pub WidgetIdOrRef);

/// A button's flags after a change, with those before it.
#[derive(Debug, Clone)]
pub struct ButtonNotifyMessage {
    pub sender: WidgetId,
    pub state: ButtonProps,
    pub prev: ButtonProps,
}

impl Default for ButtonNotifyMessage {
    /// The default (invalid) sender and all flags down.
    fn default() -> (r: Self)
        ensures
            r.sender@ == (WidgetIdView { typed: false, kind: Seq::empty(), parts: Seq::empty() }),
            r.state == (ButtonProps { selected: false, trigger: false, context: false }),
            r.prev == r.state,
    {
        ButtonNotifyMessage {
            sender: WidgetId::default(),
            state: ButtonProps::default(),
            prev: ButtonProps::default(),
        }
    }
}

impl ButtonNotifyMessage {
    /// The button became selected.
    pub fn select_start(&self) -> (r: bool)
        ensures
            r == (!self.prev.selected && self.state.selected),
    {
        !self.prev.selected && self.state.selected
    }

    /// The button stopped being selected.
    pub fn select_stop(&self) -> (r: bool)
        ensures
            r == (self.prev.selected && !self.state.selected),
    {
        self.prev.selected && !self.state.selected
    }

    /// The selected flag changed.
    pub fn select_changed(&self) -> (r: bool)
        ensures
            r == (self.prev.selected != self.state.selected),
    {
        self.prev.selected != self.state.selected
    }

    /// The button started being triggered.
    pub fn trigger_start(&self) -> (r: bool)
        ensures
            r == (!self.prev.trigger && self.state.trigger),
    {
        !self.prev.trigger && self.state.trigger
    }

    /// The button stopped being triggered.
    pub fn trigger_stop(&self) -> (r: bool)
        ensures
            r == (self.prev.trigger && !self.state.trigger),
    {
        self.prev.trigger && !self.state.trigger
    }

    /// The trigger flag changed.
    pub fn trigger_changed(&self) -> (r: bool)
        ensures
            r == (self.prev.trigger != self.state.trigger),
    {
        self.prev.trigger != self.state.trigger
    }

    /// The context action started.
    pub fn context_start(&self) -> (r: bool)
        ensures
            r == (!self.prev.context && self.state.context),
    {
        !self.prev.context && self.state.context
    }

    /// The context action stopped.
    pub fn context_stop(&self) -> (r: bool)
        ensures
            r == (self.prev.context && !self.state.context),
    {
        self.prev.context && !self.state.context
    }

    /// The context flag changed.
    pub fn context_changed(&self) -> (r: bool)
        ensures
            r == (self.prev.context != self.state.context),
    {
        self.prev.context != self.state.context
    }
}

/// A navigation signal that a button reacts to.
#[derive(Debug, Clone, Copy, PartialEq, Eq, Structural)]
pub enum ButtonSignal {
    Select,
    Unselect,
    Accept(bool),
    Context(bool),
}

/// One signal applied to a button's flags.
pub open spec fn button_step(p: ButtonProps, signal: ButtonSignal) -> ButtonProps {
    match signal {
        ButtonSignal::Select => ButtonProps { selected: true, ..p },
        ButtonSignal::Unselect => ButtonProps { selected: false, ..p },
        ButtonSignal::Accept(v) => ButtonProps { trigger: v, ..p },
        ButtonSignal::Context(v) => ButtonProps { context: v, ..p },
    }
}

/// The signals applied in order.
pub open spec fn button_steps(p: ButtonProps, signals: Seq<ButtonSignal>) -> ButtonProps
    decreases signals.len(),
{
    if signals.len() == 0 {
        p
    } else {
        button_step(button_steps(p, signals.drop_last()), signals.last())
    }
}

/// A button's flags after a batch of signals, and whether any signal came
/// (then the button notifies and stores the new flags).
pub fn button_update(state: ButtonProps, signals: &[ButtonSignal]) -> (r: (ButtonProps, bool))
    ensures
        r.0 == button_steps(state, signals@),
        r.1 == (signals@.len() > 0),
{
    let mut data = state;
    let mut dirty = false;
    let mut i: usize = 0;
    while i < signals.len()
        invariant
            i <= signals@.len(),
            data == button_steps(state, signals@.take(i as int)),
            dirty == (i > 0),
        decreases signals@.len() - i,
    {
        match signals[i] {
            ButtonSignal::Select => {
                data.selected = true;
            },
            ButtonSignal::Unselect => {
                data.selected = false;
            },
            ButtonSignal::Accept(v) => {
                data.trigger = v;
            },
            ButtonSignal::Context(v) => {
                data.context = v;
            },
        }
        dirty = true;
        proof {
            assert(signals@.take(i + 1).drop_last() =~= signals@.take(i as int));
        }
        i = i + 1;
    }
    proof {
        assert(signals@.take(i as int) =~= signals@);
    }
    (data, dirty)
}

/// The message a button sends after a batch of signals changed `prev` into
/// `state`.
pub fn button_notify_message(sender: &WidgetId, state: ButtonProps, prev: ButtonProps) -> (r:
    ButtonNotifyMessage)
    ensures
        r.sender@ == sender@,
        r.state == state,
        r.prev == prev,
{
    ButtonNotifyMessage { sender: sender.clone(), state, prev }
}

/// The flags that a widget following a button's notifications keeps: those
/// of the last notification, if any came.
pub fn button_notified_state(messages: &[ButtonNotifyMessage]) -> (r: Option<ButtonProps>)
    ensures
        r == (if messages@.len() == 0 {
            None
        } else {
            Some(messages@.last().state)
        }),
{
    if messages.len() == 0 {
        None
    } else {
        Some(messages[messages.len() - 1].state)
    }
}

impl PropsData for ButtonProps {

}

impl PropsData for ButtonNotifyProps {

}

impl MessageData for ButtonNotifyMessage {

}

/// Law: for each flag of a button notification, a change is exactly a start
/// or a stop, and never both.
pub proof fn law_button_edges(m: ButtonNotifyMessage)
    ensures
        (m.prev.selected != m.state.selected) == ((!m.prev.selected && m.state.selected) || (
        m.prev.selected && !m.state.selected)),
        !((!m.prev.selected && m.state.selected) && (m.prev.selected && !m.state.selected)),
        (m.prev.trigger != m.state.trigger) == ((!m.prev.trigger && m.state.trigger) || (
        m.prev.trigger && !m.state.trigger)),
        !((!m.prev.trigger && m.state.trigger) && (m.prev.trigger && !m.state.trigger)),
        (m.prev.context != m.state.context) == ((!m.prev.context && m.state.context) || (
        m.prev.context && !m.state.context)),
        !((!m.prev.context && m.state.context) && (m.prev.context && !m.state.context)),
{
}

/// Law: after a batch of signals, each flag is what the last signal of its
/// own kind set: a selection sets `selected`, an unselection clears it,
/// `Accept(v)` sets `trigger` to `v` and `Context(v)` sets `context` to `v`,
/// whatever the flag was; and a signal of one kind leaves the other flags as
/// they were.
pub proof fn law_button_last_signal_sets_its_flag(p: ButtonProps, signals: Seq<ButtonSignal>, v: bool)
    ensures
        ({
            let before = button_steps(p, signals);
            let sel = button_steps(p, signals.push(ButtonSignal::Select));
            let unsel = button_steps(p, signals.push(ButtonSignal::Unselect));
            let acc = button_steps(p, signals.push(ButtonSignal::Accept(v)));
            let ctx = button_steps(p, signals.push(ButtonSignal::Context(v)));
            &&& sel.selected && sel.trigger == before.trigger && sel.context == before.context
            &&& !unsel.selected && unsel.trigger == before.trigger && unsel.context == before.context
            &&& acc.trigger == v && acc.selected == before.selected && acc.context == before.context
            &&& ctx.context == v && ctx.selected == before.selected && ctx.trigger == before.trigger
        }),
{
    assert(signals.push(ButtonSignal::Select).drop_last() =~= signals);
    assert(signals.push(ButtonSignal::Unselect).drop_last() =~= signals);
    assert(signals.push(ButtonSignal::Accept(v)).drop_last() =~= signals);
    assert(signals.push(ButtonSignal::Context(v)).drop_last() =~= signals);
}

/// Law: a batch without signals of a kind leaves that kind's flag as it
/// was: with no `Context` signal the context flag is unchanged, with no
/// `Accept` signal the trigger flag is, and with no selection or
/// unselection the selected flag is.
pub proof fn law_button_untouched_flags_stay(p: ButtonProps, signals: Seq<ButtonSignal>)
    ensures
        (forall|i: int| 0 <= i < signals.len() ==> !(#[trigger] signals[i] is Context)) ==> button_steps(
            p,
            signals,
        ).context == p.context,
        (forall|i: int| 0 <= i < signals.len() ==> !(#[trigger] signals[i] is Accept)) ==> button_steps(
            p,
            signals,
        ).trigger == p.trigger,
        (forall|i: int|
            0 <= i < signals.len() ==> !(#[trigger] signals[i] is Select) && !(signals[i] is Unselect))
            ==> button_steps(p, signals).selected == p.selected,
    decreases signals.len(),
{
    if signals.len() > 0 {
        let d = signals.drop_last();
        law_button_untouched_flags_stay(p, d);
        if forall|i: int| 0 <= i < signals.len() ==> !(#[trigger] signals[i] is Context) {
            assert forall|i: int| 0 <= i < d.len() implies !(#[trigger] d[i] is Context) by {
                assert(d[i] == signals[i]);
            }
            assert(!(signals[signals.len() - 1] is Context));
        }
        if forall|i: int| 0 <= i < signals.len() ==> !(#[trigger] signals[i] is Accept) {
            assert forall|i: int| 0 <= i < d.len() implies !(#[trigger] d[i] is Accept) by {
                assert(d[i] == signals[i]);
            }
            assert(!(signals[signals.len() - 1] is Accept));
        }
        if forall|i: int|
            0 <= i < signals.len() ==> !(#[trigger] signals[i] is Select) && !(signals[i] is Unselect) {
            assert forall|i: int| 0 <= i < d.len() implies !(#[trigger] d[i] is Select) && !(
            d[i] is Unselect) by {
                assert(d[i] == signals[i]);
            }
            assert(!(signals[signals.len() - 1] is Select));
        }
    }
}

} // verus!

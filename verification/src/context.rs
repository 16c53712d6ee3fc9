//! What a widget sees while it unmounts, and the inspection view of a
//! widget-unit tree.

use vstd::prelude::*;

use crate::messenger::MessageSender;
use crate::props::Props;
use crate::signals::SignalSender;
use crate::widget_id::WidgetId;

verus! {

/// What an unmounting widget can reach: its identifier and last state, and
/// channels to send messages and signals.
pub struct WidgetUnmountContext<'a> {
    pub id: &'a WidgetId,
    pub state: &'a Props,
    pub messenger: &'a MessageSender,
    pub signals: SignalSender,
}

/// A widget unit's identifier and those of its children, for inspection.
#[derive(Debug)]
pub struct WidgetUnitInspectionNode {
    pub id: WidgetId,
    pub children: Vec<WidgetUnitInspectionNode>,
}

impl Default for WidgetUnitInspectionNode {
    /// The default identifier and no children.
    fn default() -> (r: Self)
        ensures
            r.children@.len() == 0,
    {
        WidgetUnitInspectionNode { id: WidgetId::default(), children: Vec::new() }
    }
}

/// A renderer that hands the widget tree back as it is.
#[derive(Debug, Clone, Copy, Default)]
pub struct RawRenderer;

} // verus!

//! Container widgets' properties and states, and the decisions of the tabs
//! box and the tooltip box.

use vstd::prelude::*;

use crate::button::{ButtonNotifyMessage, ButtonSignal};
use crate::input_field::{all_digits, bounded_digits_value, digits_value, plus_stripped};
use crate::props::PropsData;
use crate::text::chars_of;
use crate::units::FlexBoxDirection;
use crate::widget_id::WidgetId;
use crate::widget_ref::{WidgetIdOrRef, WidgetRef};

verus! {

/// Where an anchor box sends its anchor state.
#[derive(Debug, Clone, Default)]
pub struct AnchorNotifyProps(pub WidgetIdOrRef);

/// Whether a context box shows its content.
#[derive(Debug, Clone, Copy, PartialEq, Eq, Structural)]
pub struct ContextBoxProps {
    pub show: bool,
}

/// The number of columns and rows of a grid box.
#[derive(Debug, Clone, Copy, PartialEq, Eq, Structural)]
pub struct GridBoxProps {
    pub cols: usize,
    pub rows: usize,
}

/// Whether a hidden box hides its content.
#[derive(Debug, Clone, Copy, PartialEq, Eq, Structural)]
pub struct HiddenBoxProps(pub bool);

/// The container that portal boxes teleport their content into.
#[derive(Debug, Clone, Default)]
pub struct PortalsContainer(pub WidgetRef);

/// The orientation a responsive box asks of its screen.
#[derive(Debug, Clone, Copy, PartialEq, Eq, Structural)]
pub enum MediaQueryOrientation {
    Portrait,
    Landscape,
}

impl Default for MediaQueryOrientation {
    fn default() -> (r: Self)
        ensures
            r == MediaQueryOrientation::Portrait,
    {
        MediaQueryOrientation::Portrait
    }
}

/// The scroll box that owns a scrollbar.
#[derive(Debug, Clone)]
pub struct ScrollBoxOwner(pub WidgetId);

/// Where a scroll view sends its scroll state.
#[derive(Debug, Clone, Default)]
pub struct ScrollViewNotifyProps(pub WidgetIdOrRef);

/// The direction in which a slider's value grows.
#[derive(Debug, Clone, Copy, PartialEq, Eq, Structural)]
pub enum SliderViewDirection {
    LeftToRight,
    RightToLeft,
    TopToBottom,
    BottomToTop,
}

impl Default for SliderViewDirection {
    fn default() -> (r: Self)
        ensures
            r == SliderViewDirection::LeftToRight,
    {
        SliderViewDirection::LeftToRight
    }
}

/// The name of the slot that a variant box shows, if any.
#[derive(Debug, Clone, Default)]
pub struct VariantBoxProps {
    pub variant_name: Option<String>,
}

/// Whether a tooltip box shows its tooltip.
#[derive(Debug, Clone, Copy, PartialEq, Eq, Structural)]
pub struct TooltipState {
    pub show: bool,
}

/// The tooltip's state after a batch of navigation signals: shown after a
/// selection, hidden after an unselection, the last of them deciding;
/// `None` when no signal set it.
pub fn tooltip_update(signals: &[ButtonSignal]) -> (r: Option<TooltipState>)
    ensures
        r == tooltip_steps(signals@),
{
    let mut r: Option<TooltipState> = None;
    let mut i: usize = 0;
    while i < signals.len()
        invariant
            i <= signals@.len(),
            r == tooltip_steps(signals@.take(i as int)),
        decreases signals@.len() - i,
    {
        match signals[i] {
            ButtonSignal::Select => {
                r = Some(TooltipState { show: true });
            },
            ButtonSignal::Unselect => {
                r = Some(TooltipState { show: false });
            },
            _ => {},
        }
        proof {
            assert(signals@.take(i + 1).drop_last() =~= signals@.take(i as int));
        }
        i = i + 1;
    }
    proof {
        assert(signals@.take(i as int) =~= signals@);
    }
    r
}

/// The tooltip state that the signals write last, if any.
pub open spec fn tooltip_steps(signals: Seq<ButtonSignal>) -> Option<TooltipState>
    decreases signals.len(),
{
    if signals.len() == 0 {
        None
    } else {
        match signals.last() {
            ButtonSignal::Select => Some(TooltipState { show: true }),
            ButtonSignal::Unselect => Some(TooltipState { show: false }),
            _ => tooltip_steps(signals.drop_last()),
        }
    }
}

/// Where a tabs box puts its tabs.
#[derive(Debug, Clone, Copy, PartialEq, Eq, Structural)]
pub enum TabsBoxTabsLocation {
    Top,
    Bottom,
    Left,
    Right,
}

impl Default for TabsBoxTabsLocation {
    fn default() -> (r: Self)
        ensures
            r == TabsBoxTabsLocation::Top,
    {
        TabsBoxTabsLocation::Top
    }
}

/// The direction of the box holding the tabs row and the content: the tabs
/// come first in reading order.
pub fn tabs_main_direction(location: TabsBoxTabsLocation) -> (r: FlexBoxDirection)
    ensures
        r == match location {
            TabsBoxTabsLocation::Top => FlexBoxDirection::VerticalTopToBottom,
            TabsBoxTabsLocation::Bottom => FlexBoxDirection::VerticalBottomToTop,
            TabsBoxTabsLocation::Left => FlexBoxDirection::HorizontalLeftToRight,
            TabsBoxTabsLocation::Right => FlexBoxDirection::HorizontalRightToLeft,
        },
{
    match location {
        TabsBoxTabsLocation::Top => FlexBoxDirection::VerticalTopToBottom,
        TabsBoxTabsLocation::Bottom => FlexBoxDirection::VerticalBottomToTop,
        TabsBoxTabsLocation::Left => FlexBoxDirection::HorizontalLeftToRight,
        TabsBoxTabsLocation::Right => FlexBoxDirection::HorizontalRightToLeft,
    }
}

/// The direction of the tabs row: across the side it sits on.
pub fn tabs_row_direction(location: TabsBoxTabsLocation) -> (r: FlexBoxDirection)
    ensures
        r == match location {
            TabsBoxTabsLocation::Top | TabsBoxTabsLocation::Bottom =>
                FlexBoxDirection::HorizontalLeftToRight,
            TabsBoxTabsLocation::Left | TabsBoxTabsLocation::Right =>
                FlexBoxDirection::VerticalTopToBottom,
        },
{
    match location {
        TabsBoxTabsLocation::Top => FlexBoxDirection::HorizontalLeftToRight,
        TabsBoxTabsLocation::Bottom => FlexBoxDirection::HorizontalLeftToRight,
        TabsBoxTabsLocation::Left => FlexBoxDirection::VerticalTopToBottom,
        TabsBoxTabsLocation::Right => FlexBoxDirection::VerticalTopToBottom,
    }
}

/// The index of the active tab.
#[derive(Debug, Clone, Copy, PartialEq, Eq, Structural)]
pub struct TabsState {
    pub active_index: usize,
}

impl Default for TabsState {
    fn default() -> (r: Self)
        ensures
            r.active_index == 0,
    {
        TabsState { active_index: 0 }
    }
}

/// Whether a tab plate is the active one, and its index.
#[derive(Debug, Clone, Copy, PartialEq, Eq, Structural)]
pub struct TabPlateProps {
    pub active: bool,
    pub index: usize,
}

/// Text that `str::parse::<usize>` accepts: an optional `+`, then digits,
/// spelling a value in the range of `usize`.
pub open spec fn is_index_text(s: Seq<char>) -> bool {
    let d = plus_stripped(s);
    d.len() > 0 && all_digits(d) && digits_value(d) <= usize::MAX
}

/// The index that a tab's key spells, as `str::parse::<usize>` reads it.
pub fn parse_index(key: &str) -> (r: Option<usize>)
    ensures
        r is Some <==> is_index_text(key@),
        r matches Some(v) ==> v == digits_value(plus_stripped(key@)),
{
    let s = chars_of(key);
    let from: usize = if s.len() > 0 && s[0] == '+' { 1 } else { 0 };
    proof {
        assert(s@.skip(from as int) =~= plus_stripped(key@));
    }
    match bounded_digits_value(s.as_slice(), from, usize::MAX as u64) {
        Some(v) => Some(v as usize),
        None => None,
    }
}

/// The active tab after a batch of button notifications from the tab
/// plates: each plate that starts being triggered activates the tab whose
/// index its key spells, the last such notification deciding; `None` when
/// none did.
pub fn tabs_update(messages: &[ButtonNotifyMessage]) -> (r: Option<TabsState>)
    ensures
        r == tabs_steps(messages@),
{
    let mut r: Option<TabsState> = None;
    let mut i: usize = 0;
    while i < messages.len()
        invariant
            i <= messages@.len(),
            r == tabs_steps(messages@.take(i as int)),
        decreases messages@.len() - i,
    {
        let msg = &messages[i];
        if msg.trigger_start() {
            match parse_index(msg.sender.key()) {
                Some(index) => {
                    r = Some(TabsState { active_index: index });
                },
                None => {},
            }
        }
        proof {
            assert(messages@.take(i + 1).drop_last() =~= messages@.take(i as int));
        }
        i = i + 1;
    }
    proof {
        assert(messages@.take(i as int) =~= messages@);
    }
    r
}

/// The tab that the notifications activate last, if any.
pub open spec fn tabs_steps(messages: Seq<ButtonNotifyMessage>) -> Option<TabsState>
    decreases messages.len(),
{
    if messages.len() == 0 {
        None
    } else {
        let m = messages.last();
        let key = m.sender@.key();
        if !m.prev.trigger && m.state.trigger && is_index_text(key) {
            Some(TabsState { active_index: digits_value(plus_stripped(key)) as usize })
        } else {
            tabs_steps(messages.drop_last())
        }
    }
}

/// The tab plates' properties for `count` tabs, with `state`'s tab active if
/// there is such a tab.
pub fn tab_plates(state: TabsState, count: usize) -> (r: Vec<TabPlateProps>)
    ensures
        r@.len() == count,
        forall|i: int|
            0 <= i < count ==> #[trigger] r@[i] == (TabPlateProps {
                active: state.active_index == i,
                index: i as usize,
            }),
{
    let mut r: Vec<TabPlateProps> = Vec::new();
    let mut i: usize = 0;
    while i < count
        invariant
            i <= count,
            r@.len() == i,
            forall|j: int|
                0 <= j < i ==> #[trigger] r@[j] == (TabPlateProps {
                    active: state.active_index == j,
                    index: j as usize,
                }),
        decreases count - i,
    {
        r.push(TabPlateProps { active: state.active_index == i, index: i });
        i = i + 1;
    }
    r
}

/// The content slot that the tabs box shows: the active tab's, if there is
/// such a tab.
pub fn tabs_switch_index(state: TabsState, count: usize) -> (r: Option<usize>)
    ensures
        r == (if state.active_index < count {
            Some(state.active_index)
        } else {
            None
        }),
{
    if state.active_index < count {
        Some(state.active_index)
    } else {
        None
    }
}

impl PropsData for AnchorNotifyProps {

}

impl PropsData for ContextBoxProps {

}

impl PropsData for GridBoxProps {

}

impl PropsData for HiddenBoxProps {

}

impl PropsData for PortalsContainer {

}

impl PropsData for MediaQueryOrientation {

}

impl PropsData for ScrollBoxOwner {

}

impl PropsData for ScrollViewNotifyProps {

}

impl PropsData for SliderViewDirection {

}

impl PropsData for VariantBoxProps {

}

impl PropsData for TooltipState {

}

impl PropsData for TabsBoxTabsLocation {

}

impl PropsData for TabsState {

}

impl PropsData for TabPlateProps {

}

/// Law: a selection shows the tooltip and an unselection hides it,
/// whatever came before; a press (accept) or context signal changes
/// nothing, so the tooltip stays as the earlier signals left it.
pub proof fn law_tooltip_follows_selection(signals: Seq<ButtonSignal>, v: bool)
    ensures
        tooltip_steps(signals.push(ButtonSignal::Select)) == Some(TooltipState { show: true }),
        tooltip_steps(signals.push(ButtonSignal::Unselect)) == Some(TooltipState { show: false }),
        tooltip_steps(signals.push(ButtonSignal::Accept(v))) == tooltip_steps(signals),
        tooltip_steps(signals.push(ButtonSignal::Context(v))) == tooltip_steps(signals),
{
    assert(signals.push(ButtonSignal::Accept(v)).drop_last() =~= signals);
    assert(signals.push(ButtonSignal::Context(v)).drop_last() =~= signals);
}

/// Whether a signal is a selection or an unselection.
pub open spec fn is_selection_signal(s: ButtonSignal) -> bool {
    s is Select || s is Unselect
}

/// Law: the tooltip after a batch is the tooltip after the same batch with
/// every signal but selections and unselections taken out.
pub proof fn law_tooltip_only_selection_counts(signals: Seq<ButtonSignal>)
    ensures
        tooltip_steps(signals) == tooltip_steps(signals.filter(|s: ButtonSignal| is_selection_signal(s))),
    decreases signals.len(),
{
    let f = |s: ButtonSignal| is_selection_signal(s);
    if signals.len() > 0 {
        let d = signals.drop_last();
        law_tooltip_only_selection_counts(d);
        reveal_with_fuel(Seq::filter, 1);
        assert(signals.filter(f) == if f(signals.last()) {
            d.filter(f).push(signals.last())
        } else {
            d.filter(f)
        });
        if f(signals.last()) {
            assert(d.filter(f).push(signals.last()).drop_last() =~= d.filter(f));
        }
    } else {
        assert(signals.filter(f) =~= signals);
    }
}

} // verus!

//! Navigation markers and the kinds of navigation requests that widgets
//! exchange.

use vstd::prelude::*;

use crate::props::PropsData;
use crate::widget_ref::WidgetIdOrRef;

verus! {

/// Marks a widget as a navigable item.
#[derive(Debug, Clone, Copy, PartialEq, Eq, Structural)]
pub struct NavItemActive;

/// Marks a widget as tracking the pointer, for the given widget.
#[derive(Debug, Clone)]
pub struct NavTrackingActive(pub WidgetIdOrRef);

/// Where pointer-tracking notifications go.
#[derive(Debug, Clone)]
pub struct NavTrackingNotifyProps(pub WidgetIdOrRef);

/// Marks a widget as locking navigation to its children.
#[derive(Debug, Clone, Copy, PartialEq, Eq, Structural)]
pub struct NavLockingActive;

/// Marks a widget as a navigation container.
#[derive(Debug, Clone, Copy, PartialEq, Eq, Structural)]
pub struct NavContainerActive;

/// How a container moves the selection between its items.
#[derive(Debug, Clone, Copy, PartialEq, Eq, Structural)]
pub enum NavJumpMode {
    Direction,
    StepHorizontal,
    StepVertical,
    StepPages,
}

impl Default for NavJumpMode {
    fn default() -> (r: Self)
        ensures
            r == NavJumpMode::Direction,
    {
        NavJumpMode::Direction
    }
}

/// Marks a container as moving the selection with the given mode.
#[derive(Debug, Clone, Copy, PartialEq, Eq, Structural)]
pub struct NavJumpActive(pub NavJumpMode);

/// Marks a container whose jumps wrap around at the ends.
#[derive(Debug, Clone, Copy, PartialEq, Eq, Structural)]
pub struct NavJumpLooped;

/// The role a widget registers under with the navigation system.
#[derive(Debug, Clone)]
pub enum NavType {
    Container,
    Item,
    Button,
    TextInput,
    ScrollView,
    ScrollViewContent,
    /// The tracked widget.
    Tracking(WidgetIdOrRef),
}

/// Explicit jump targets in each direction.
#[derive(Debug, Clone, Default)]
pub struct NavJumpMapProps {
    pub up: WidgetIdOrRef,
    pub down: WidgetIdOrRef,
    pub left: WidgetIdOrRef,
    pub right: WidgetIdOrRef,
    pub prev: WidgetIdOrRef,
    pub next: WidgetIdOrRef,
}

/// A direction of navigation; `Unset` is no direction.
#[derive(Debug, Clone, Copy, PartialEq, Eq, Structural)]
pub enum NavDirection {
    Unset,
    Up,
    Down,
    Left,
    Right,
    Prev,
    Next,
}

impl Default for NavDirection {
    fn default() -> (r: Self)
        ensures
            r == NavDirection::Unset,
    {
        NavDirection::Unset
    }
}

/// An edit request for a focused text input.
#[derive(Debug, Clone, Copy, PartialEq, Eq, Structural)]
pub enum NavTextChange {
    InsertCharacter(char),
    MoveCursorLeft,
    MoveCursorRight,
    MoveCursorStart,
    MoveCursorEnd,
    DeleteLeft,
    DeleteRight,
    NewLine,
}

impl PropsData for NavItemActive {

}

impl PropsData for NavTrackingActive {

}

impl PropsData for NavTrackingNotifyProps {

}

impl PropsData for NavLockingActive {

}

impl PropsData for NavContainerActive {

}

impl PropsData for NavJumpActive {

}

impl PropsData for NavJumpLooped {

}

impl PropsData for NavJumpMapProps {

}

/// A step of navigation that a container or jump map reacts to.
#[derive(Debug, Clone, Copy, PartialEq, Eq, Structural)]
pub enum NavStep {
    Up,
    Down,
    Left,
    Right,
    Prev,
    Next,
}

/// A jump that a container asks of the navigation system.
#[derive(Debug, Clone)]
pub enum NavJumpRequest {
    /// Move within the container, wrapping around at its ends.
    Loop(NavDirection),
    /// Move within the container, or leave it for the given widget at its ends.
    Escape(NavDirection, WidgetIdOrRef),
}

/// The explicit target of a jump map for a step.
pub open spec fn map_target(jump: NavJumpMapProps, step: NavStep) -> WidgetIdOrRef {
    match step {
        NavStep::Up => jump.up,
        NavStep::Down => jump.down,
        NavStep::Left => jump.left,
        NavStep::Right => jump.right,
        NavStep::Prev => jump.prev,
        NavStep::Next => jump.next,
    }
}

/// For a container moving in `mode`, the direction of the jump that a step
/// asks for, and the step whose map target a non-looped jump escapes to;
/// `None` for steps the mode ignores.
pub open spec fn jump_for(mode: NavJumpMode, step: NavStep) -> Option<(NavDirection, NavStep)> {
    match (mode, step) {
        (NavJumpMode::Direction, NavStep::Up) => Some((NavDirection::Up, NavStep::Up)),
        (NavJumpMode::Direction, NavStep::Down) => Some((NavDirection::Down, NavStep::Down)),
        (NavJumpMode::Direction, NavStep::Left) => Some((NavDirection::Left, NavStep::Left)),
        (NavJumpMode::Direction, NavStep::Right) => Some((NavDirection::Right, NavStep::Right)),
        (NavJumpMode::StepHorizontal, NavStep::Left) => Some((NavDirection::Prev, NavStep::Left)),
        (NavJumpMode::StepHorizontal, NavStep::Right) => Some((NavDirection::Next, NavStep::Right)),
        (NavJumpMode::StepVertical, NavStep::Up) => Some((NavDirection::Prev, NavStep::Up)),
        (NavJumpMode::StepVertical, NavStep::Down) => Some((NavDirection::Next, NavStep::Down)),
        (NavJumpMode::StepPages, NavStep::Prev) => Some((NavDirection::Prev, NavStep::Prev)),
        (NavJumpMode::StepPages, NavStep::Next) => Some((NavDirection::Next, NavStep::Next)),
        _ => None,
    }
}

/// The explicit target of `jump` for `step`.
fn target_of(jump: &NavJumpMapProps, step: NavStep) -> (r: &WidgetIdOrRef)
    ensures
        *r == map_target(*jump, step),
{
    match step {
        NavStep::Up => &jump.up,
        NavStep::Down => &jump.down,
        NavStep::Left => &jump.left,
        NavStep::Right => &jump.right,
        NavStep::Prev => &jump.prev,
        NavStep::Next => &jump.next,
    }
}

/// The jump that a container moving in `mode` asks for on `step`: a looped
/// jump in the step's direction, or, when not looped, a jump that escapes to
/// the map's target for the step; `None` for steps the mode ignores.
pub fn nav_jump_request(
    mode: NavJumpMode,
    looped: bool,
    jump: &NavJumpMapProps,
    step: NavStep,
) -> (r: Option<NavJumpRequest>)
    ensures
        match jump_for(mode, step) {
            None => r is None,
            Some((direction, target)) => if looped {
                r matches Some(NavJumpRequest::Loop(d)) && d == direction
            } else {
                r matches Some(NavJumpRequest::Escape(d, t)) && d == direction && t.same_as(
                    map_target(*jump, target),
                )
            },
        },
{
    let found: Option<(NavDirection, NavStep)> = match (mode, step) {
        (NavJumpMode::Direction, NavStep::Up) => Some((NavDirection::Up, NavStep::Up)),
        (NavJumpMode::Direction, NavStep::Down) => Some((NavDirection::Down, NavStep::Down)),
        (NavJumpMode::Direction, NavStep::Left) => Some((NavDirection::Left, NavStep::Left)),
        (NavJumpMode::Direction, NavStep::Right) => Some((NavDirection::Right, NavStep::Right)),
        (NavJumpMode::StepHorizontal, NavStep::Left) => Some((NavDirection::Prev, NavStep::Left)),
        (NavJumpMode::StepHorizontal, NavStep::Right) => Some((NavDirection::Next, NavStep::Right)),
        (NavJumpMode::StepVertical, NavStep::Up) => Some((NavDirection::Prev, NavStep::Up)),
        (NavJumpMode::StepVertical, NavStep::Down) => Some((NavDirection::Next, NavStep::Down)),
        (NavJumpMode::StepPages, NavStep::Prev) => Some((NavDirection::Prev, NavStep::Prev)),
        (NavJumpMode::StepPages, NavStep::Next) => Some((NavDirection::Next, NavStep::Next)),
        _ => None,
    };
    match found {
        None => None,
        Some((direction, target)) => {
            if looped {
                Some(NavJumpRequest::Loop(direction))
            } else {
                Some(NavJumpRequest::Escape(direction, target_of(jump, target).clone()))
            }
        },
    }
}

/// The widget that a jump map selects on `step`: its target for the step,
/// when it has one.
pub fn nav_jump_map_select(jump: &NavJumpMapProps, step: NavStep) -> (r: Option<WidgetIdOrRef>)
    ensures
        match r {
            Some(t) => !(map_target(*jump, step) is Unset) && t.same_as(map_target(*jump, step)),
            None => map_target(*jump, step) is Unset,
        },
{
    let target = target_of(jump, step);
    if target.is_some() {
        Some(target.clone())
    } else {
        None
    }
}

/// Law: in a list that steps vertically, Up asks for the previous item and
/// Down for the next; stepping horizontally, Left asks for the previous and
/// Right for the next; stepping by pages, Prev and Next ask for the
/// previous and next. The two steps of a pair ask for opposite directions,
/// the steps across the list's axis are ignored, and a non-looped jump
/// escapes to the jump map's target for the step that was pressed.
pub proof fn law_step_modes_move_back_and_forth(step: NavStep)
    ensures
        jump_for(NavJumpMode::StepVertical, NavStep::Up) == Some((NavDirection::Prev, NavStep::Up)),
        jump_for(NavJumpMode::StepVertical, NavStep::Down) == Some((NavDirection::Next, NavStep::Down)),
        jump_for(NavJumpMode::StepVertical, NavStep::Left) is None,
        jump_for(NavJumpMode::StepVertical, NavStep::Right) is None,
        jump_for(NavJumpMode::StepHorizontal, NavStep::Left) == Some((NavDirection::Prev, NavStep::Left)),
        jump_for(NavJumpMode::StepHorizontal, NavStep::Right) == Some((NavDirection::Next, NavStep::Right)),
        jump_for(NavJumpMode::StepHorizontal, NavStep::Up) is None,
        jump_for(NavJumpMode::StepHorizontal, NavStep::Down) is None,
        jump_for(NavJumpMode::StepPages, NavStep::Prev) == Some((NavDirection::Prev, NavStep::Prev)),
        jump_for(NavJumpMode::StepPages, NavStep::Next) == Some((NavDirection::Next, NavStep::Next)),
        jump_for(NavJumpMode::Direction, step) matches Some((_, t)) ==> t == step,
        jump_for(NavJumpMode::StepVertical, step) matches Some((_, t)) ==> t == step,
        jump_for(NavJumpMode::StepHorizontal, step) matches Some((_, t)) ==> t == step,
        jump_for(NavJumpMode::StepPages, step) matches Some((_, t)) ==> t == step,
{
}

/// Law: moving by direction asks for the direction that was pressed, and
/// never for the previous or next item.
pub proof fn law_direction_mode_keeps_the_direction()
    ensures
        jump_for(NavJumpMode::Direction, NavStep::Up) == Some((NavDirection::Up, NavStep::Up)),
        jump_for(NavJumpMode::Direction, NavStep::Down) == Some((NavDirection::Down, NavStep::Down)),
        jump_for(NavJumpMode::Direction, NavStep::Left) == Some((NavDirection::Left, NavStep::Left)),
        jump_for(NavJumpMode::Direction, NavStep::Right) == Some((NavDirection::Right, NavStep::Right)),
        jump_for(NavJumpMode::Direction, NavStep::Prev) is None,
        jump_for(NavJumpMode::Direction, NavStep::Next) is None,
{
}

} // verus!

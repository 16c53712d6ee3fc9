//! Directions in which boxes lay out their items and text runs.

use vstd::prelude::*;

verus! {

/// The main axis of a flex box and the order of its items along it.
#[derive(Debug, Clone, Copy, PartialEq, Eq, Structural)]
pub enum FlexBoxDirection {
    HorizontalLeftToRight,
    HorizontalRightToLeft,
    VerticalTopToBottom,
    VerticalBottomToTop,
}

impl Default for FlexBoxDirection {
    fn default() -> (r: Self)
        ensures
            r == FlexBoxDirection::HorizontalLeftToRight,
    {
        FlexBoxDirection::HorizontalLeftToRight
    }
}

impl FlexBoxDirection {
    /// Items run along the horizontal axis.
    pub fn is_horizontal(&self) -> (r: bool)
        ensures
            r == (*self == FlexBoxDirection::HorizontalLeftToRight || *self
                == FlexBoxDirection::HorizontalRightToLeft),
    {
        *self == FlexBoxDirection::HorizontalLeftToRight || *self
            == FlexBoxDirection::HorizontalRightToLeft
    }

    /// Items run along the vertical axis.
    pub fn is_vertical(&self) -> (r: bool)
        ensures
            r == (*self == FlexBoxDirection::VerticalTopToBottom || *self
                == FlexBoxDirection::VerticalBottomToTop),
    {
        *self == FlexBoxDirection::VerticalTopToBottom || *self
            == FlexBoxDirection::VerticalBottomToTop
    }

    /// Items run from left to right, or from top to bottom.
    pub fn is_order_ascending(&self) -> (r: bool)
        ensures
            r == (*self == FlexBoxDirection::HorizontalLeftToRight || *self
                == FlexBoxDirection::VerticalTopToBottom),
    {
        *self == FlexBoxDirection::HorizontalLeftToRight || *self
            == FlexBoxDirection::VerticalTopToBottom
    }

    /// Items run from right to left, or from bottom to top.
    pub fn is_order_descending(&self) -> (r: bool)
        ensures
            r == (*self == FlexBoxDirection::HorizontalRightToLeft || *self
                == FlexBoxDirection::VerticalBottomToTop),
    {
        *self == FlexBoxDirection::HorizontalRightToLeft || *self
            == FlexBoxDirection::VerticalBottomToTop
    }
}

/// Each direction lies on exactly one axis and has exactly one order.
pub proof fn law_flex_direction_axis_and_order(d: FlexBoxDirection)
    ensures
        (d == FlexBoxDirection::HorizontalLeftToRight || d == FlexBoxDirection::HorizontalRightToLeft)
            != (d == FlexBoxDirection::VerticalTopToBottom || d
            == FlexBoxDirection::VerticalBottomToTop),
        (d == FlexBoxDirection::HorizontalLeftToRight || d == FlexBoxDirection::VerticalTopToBottom)
            != (d == FlexBoxDirection::HorizontalRightToLeft || d
            == FlexBoxDirection::VerticalBottomToTop),
{
}

/// The direction in which a list box stacks its items.
#[derive(Debug, Clone, Copy, PartialEq, Eq, Structural)]
pub enum ListBoxDirection {
    HorizontalLeftToRight,
    HorizontalRightToLeft,
    VerticalTopToBottom,
    VerticalBottomToTop,
}

impl Default for ListBoxDirection {
    fn default() -> (r: Self)
        ensures
            r == ListBoxDirection::HorizontalLeftToRight,
    {
        ListBoxDirection::HorizontalLeftToRight
    }
}

/// The direction in which a text box writes its text.
#[derive(Debug, Clone, Copy, PartialEq, Eq, Structural)]
pub enum TextBoxDirection {
    HorizontalLeftToRight,
    HorizontalRightToLeft,
    VerticalTopToBottom,
    VerticalBottomToTop,
}

impl Default for TextBoxDirection {
    fn default() -> (r: Self)
        ensures
            r == TextBoxDirection::HorizontalLeftToRight,
    {
        TextBoxDirection::HorizontalLeftToRight
    }
}

} // verus!

use vstd::prelude::*;

verus! {

/// The axis along which the children of a container are laid out.
#[derive(Clone, Copy, Debug, PartialEq, Eq, Structural)]
pub enum Orientation {
    Horizontal,
    Vertical,
}

/// A length, either as a share of the parent's extent or as a number of cells.
#[derive(Clone, Copy, Debug, PartialEq, Eq, Structural)]
pub enum Size {
    Percent(u8),
    Fixed(u32),
}

#[derive(Clone, Copy, Debug, PartialEq, Eq, Structural)]
pub enum Align {
    Top,
    Bottom,
    Left,
    Right,
    Center,
}

#[derive(Clone, Copy, Debug, PartialEq, Eq, Structural)]
pub enum ContentWrap {
    Wrap,
    NoWrap,
}

/// One presentation attribute of a style rule.
#[derive(Clone, Copy, Debug, PartialEq, Eq, Structural)]
pub enum Style {
    Orientation(Orientation),
    MinSize(Size),
    MaxSize(Size),
    ContentWrap(ContentWrap),
    HAlign(Align),
    VAlign(Align),
    /// Left, top, right and bottom margins.
    Margin(Size, Size, Size, Size),
}

} // verus!

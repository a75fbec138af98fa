use vstd::prelude::*;
use crate::layout::{Container, StyleLink};

verus! {

/// A complete terminal backend: sets the terminal up, lays out and draws a tree, and restores
/// the terminal.
pub trait BackendTrait {
    fn init(&mut self);

    fn close(&self);

    fn render(&mut self, main_container: Container, style_links: Vec<StyleLink>);

    fn display(&self);
}

/// The drawing half of a backend: computes the layout of a tree and paints it.
pub trait DrawerTrair {
    fn render(&mut self, main_container: Container, style_links: Vec<StyleLink>);

    fn display(&self);
}

/// The input half of a backend: starts watching the keyboard.
pub trait ListenerTrait {
    fn watch_input(&self);
}

} // verus!

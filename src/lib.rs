pub mod backend;
pub mod colors;
pub mod drawer;
pub mod geometry;
pub mod layout;
pub mod lemmas;
pub mod placement;
pub mod style;
pub mod terminal;
pub mod traits;

pub use backend::{Input, InputAction, InputListenerTrait, Key, KeyCode};
pub use layout::{Container, StyleLink};
pub use style::{Align, ContentWrap, Orientation, Size, Style};
pub use drawer::Drawer;
pub use terminal::Backend;
pub use layout::Rll;
pub use traits::{BackendTrait, DrawerTrair, ListenerTrait};

use vstd::prelude::*;
use crossterm::ExecutableCommand;
use crate::traits::{BackendTrait, DrawerTrair, ListenerTrait};
use crate::layout::{Container, StyleLink};

verus! {

/// Relies on crossterm::terminal::size: the terminal's width and height in cells, if it
/// could be read.
#[verifier::external_body]
pub(crate) fn terminal_size() -> Option<(u16, u16)> {
    crossterm::terminal::size().ok()
}

/// Relies on crossterm::terminal::Clear with ClearType::All, written to standard output.
#[verifier::external_body]
pub(crate) fn clear_screen() {
    let _ = std::io::stdout().execute(crossterm::terminal::Clear(crossterm::terminal::ClearType::All));
}

/// Relies on crossterm::cursor::Hide, written to standard output.
#[verifier::external_body]
pub(crate) fn hide_cursor() {
    let _ = std::io::stdout().execute(crossterm::cursor::Hide);
}

/// Relies on crossterm::cursor::Show, written to standard output.
#[verifier::external_body]
pub(crate) fn show_cursor() {
    let _ = std::io::stdout().execute(crossterm::cursor::Show);
}

/// Relies on crossterm::cursor::MoveTo, written to standard output. Its escape sequence holds
/// each coordinate plus one, computed in `u16`.
#[verifier::external_body]
pub(crate) fn move_to(x: u16, y: u16)
    requires
        x < u16::MAX,
        y < u16::MAX,
{
    let _ = std::io::stdout().execute(crossterm::cursor::MoveTo(x, y));
}

/// Relies on crossterm::style::Print, written to standard output.
#[verifier::external_body]
pub(crate) fn print_char(c: char) {
    let _ = std::io::stdout().execute(crossterm::style::Print(c));
}

/// Relies on crossterm::terminal::enable_raw_mode.
#[verifier::external_body]
fn enable_raw_mode() {
    let _ = crossterm::terminal::enable_raw_mode();
}

/// Relies on crossterm::terminal::disable_raw_mode.
#[verifier::external_body]
fn disable_raw_mode() {
    let _ = crossterm::terminal::disable_raw_mode();
}

/// Relies on crossterm::terminal::EnterAlternateScreen, written to standard output.
#[verifier::external_body]
fn enter_alternate_screen() {
    let _ = std::io::stdout().execute(crossterm::terminal::EnterAlternateScreen);
}

/// Relies on crossterm::terminal::LeaveAlternateScreen, written to standard output.
#[verifier::external_body]
fn leave_alternate_screen() {
    let _ = std::io::stdout().execute(crossterm::terminal::LeaveAlternateScreen);
}

/// A terminal backend made of a drawer and a listener.
pub struct Backend<D: DrawerTrair, L: ListenerTrait> {
    pub drawer: D,
    pub listener: L,
}

impl<D: DrawerTrair, L: ListenerTrait> Backend<D, L> {
    pub fn new(drawer: D, listener: L) -> (r: Self)
        ensures
            r.drawer == drawer,
            r.listener == listener,
    {
        Backend { drawer, listener }
    }
}

impl<D: DrawerTrair, L: ListenerTrait> BackendTrait for Backend<D, L> {
    /// Raw mode, the input listener, then the alternate screen.
    fn init(&mut self) {
        enable_raw_mode();
        self.listener.watch_input();
        enter_alternate_screen();
    }

    /// Leaves raw mode and the alternate screen, and shows the cursor again.
    fn close(&self) {
        disable_raw_mode();
        leave_alternate_screen();
        show_cursor();
    }

    fn render(&mut self, main_container: Container, style_links: Vec<StyleLink>) {
        self.drawer.render(main_container, style_links);
    }

    fn display(&self) {
        self.drawer.display();
    }
}

} // verus!

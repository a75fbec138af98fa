use vstd::prelude::*;
use crate::geometry::{layout, part_views, prepare_render_parts, RenderPart};
use crate::layout::{Container, StyleLink};
use crate::placement::{cell_views, placement, Cell};
use crate::terminal::{clear_screen, hide_cursor, move_to, print_char, terminal_size};
use crate::traits::DrawerTrair;

verus! {

/// The cells of every part, in order: later parts may draw over earlier ones.
pub open spec fn all_cells(parts: Seq<RenderPart>) -> Seq<(int, int, char)>
    decreases parts.len(),
{
    if parts.len() == 0 {
        seq![]
    } else {
        all_cells(parts.drop_last()) + placement(parts.last()@)
    }
}

/// Draws a laid-out tree on the terminal.
pub struct Drawer {
    pub render_parts: Vec<RenderPart>,
}

impl Drawer {
    pub fn new() -> (r: Self)
        ensures
            r.render_parts@.len() == 0,
    {
        Drawer { render_parts: Vec::new() }
    }

    /// Lays the tree out on a grid of `width` by `height` cells whose corner is at (0, 0).
    pub fn render_in(&mut self, main_container: &Container, style_links: &Vec<StyleLink>, width: u16, height: u16)
        ensures
            part_views(final(self).render_parts@) == layout(main_container@, style_links@, width as int, height as int, 0, 0),
    {
        self.render_parts = prepare_render_parts(main_container, style_links, (width as u32, height as u32, 0, 0));
    }

    /// Every cell to draw, part after part.
    pub fn cells(&self) -> (r: Vec<Cell>)
        ensures
            cell_views(r@) == all_cells(self.render_parts@),
    {
        let mut r: Vec<Cell> = Vec::new();
        let mut i: usize = 0;
        while i < self.render_parts.len()
            invariant
                i <= self.render_parts@.len(),
                cell_views(r@) == all_cells(self.render_parts@.subrange(0, i as int)),
            decreases self.render_parts@.len() - i,
        {
            let mut more = self.render_parts[i].place();
            let ghost before = r@;
            let ghost added = more@;
            r.append(&mut more);
            proof {
                let next = self.render_parts@.subrange(0, i + 1);
                assert(next.drop_last() == self.render_parts@.subrange(0, i as int));
                assert(cell_views(r@) =~= cell_views(before) + cell_views(added));
            }
            i += 1;
        }
        assert(self.render_parts@.subrange(0, self.render_parts@.len() as int) == self.render_parts@);
        r
    }
}

impl DrawerTrair for Drawer {
    /// Lays the tree out on the whole terminal and clears the screen; where the terminal's
    /// size cannot be read there is nothing to draw.
    fn render(&mut self, main_container: Container, style_links: Vec<StyleLink>)
        ensures
            final(self).render_parts@.len() == 0 || exists|w: int, h: int|
                0 <= w <= u16::MAX && 0 <= h <= u16::MAX
                    && part_views(final(self).render_parts@) == layout(main_container@, style_links@, w, h, 0, 0),
    {
        match terminal_size() {
            Some((width, height)) => {
                self.render_in(&main_container, &style_links, width, height);
                assert(part_views(self.render_parts@) == layout(main_container@, style_links@, width as int, height as int, 0, 0));
            },
            None => self.render_parts = Vec::new(),
        }
        clear_screen();
    }

    /// Draws every cell whose coordinates the terminal's cursor can be moved to.
    fn display(&self) {
        let cells = self.cells();
        hide_cursor();
        let mut i: usize = 0;
        while i < cells.len()
            invariant
                i <= cells@.len(),
            decreases cells@.len() - i,
        {
            let cell = cells[i];
            if cell.x < u16::MAX as u64 && cell.y < u16::MAX as u64 {
                move_to(cell.x as u16, cell.y as u16);
                print_char(cell.ch);
            }
            i += 1;
        }
    }
}

} // verus!

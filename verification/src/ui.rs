//! The tower-selection dropdown.
//!
//! Pure widget state and hit-testing in integer pixel coordinates:
//! the host draws the widget and feeds clicks back in.  A click on
//! the closed header opens the list; a click on an open row selects
//! that row (the first matching row when rows touch) and closes the
//! list; any other click closes it without selecting.

use vstd::prelude::*;
use crate::tower::TowerType;

verus! {

/// One selectable row: a label for the host to draw and the tower
/// archetype it stands for.
pub struct DropdownItem {
    pub label: String,
    pub value: TowerType,
}

impl DropdownItem {
    pub fn new(label: &str, value: TowerType) -> (d: DropdownItem)
        ensures
            d.label@ == label@,
            d.value == value,
    {
        DropdownItem { label: label.to_owned(), value }
    }
}

/// The dropdown widget: a header rectangle at `(x, y)` and, when
/// open, one row of the same size per item below it.
pub struct Dropdown {
    pub x: u32,
    pub y: u32,
    pub width: u32,
    pub height: u32,
    pub label: String,
    pub items: Vec<DropdownItem>,
    pub is_open: bool,
    pub selected_index: Option<usize>,
}

impl Dropdown {
    /// Geometry small enough for every row coordinate to fit, and a
    /// selection that indexes a real item.
    pub open spec fn wf(self) -> bool {
        &&& self.items@.len() <= 0xffff_ffff
        &&& match self.selected_index {
            Some(i) => i < self.items@.len(),
            None => true,
        }
    }

    /// The click lands in the header rectangle.
    pub open spec fn hits_header(self, px: u32, py: u32) -> bool {
        &&& self.x <= px <= self.x + self.width
        &&& self.y <= py <= self.y + self.height
    }

    /// The click lands in open row `i` (rows sit directly below the
    /// header, one `height` each).
    pub open spec fn hits_row(self, px: u32, py: u32, i: int) -> bool {
        &&& self.x <= px <= self.x + self.width
        &&& self.y + self.height * (i + 1) <= py <= self.y + self.height * (i + 2)
    }

    /// The first open row the click lands in, among the first `n`.
    pub open spec fn first_hit_upto(self, px: u32, py: u32, n: int) -> Option<usize>
        decreases n,
    {
        if n <= 0 {
            None
        } else {
            match self.first_hit_upto(px, py, n - 1) {
                Some(i) => Some(i),
                None => if self.hits_row(px, py, n - 1) {
                    Some((n - 1) as usize)
                } else {
                    None
                },
            }
        }
    }

    /// A row hit at `i`, with every earlier row missed, is the first
    /// hit however many rows follow.
    proof fn lemma_first_hit_extend(self, px: u32, py: u32, i: int, n: int)
        requires
            0 <= i < n,
            self.first_hit_upto(px, py, i) is None,
            self.hits_row(px, py, i),
        ensures
            self.first_hit_upto(px, py, n) == Some(i as usize),
        decreases n,
    {
        if n > i + 1 {
            self.lemma_first_hit_extend(px, py, i, n - 1);
        }
    }

    pub fn new(
        x: u32,
        y: u32,
        width: u32,
        height: u32,
        label: &str,
        items: Vec<DropdownItem>,
    ) -> (d: Dropdown)
        requires
            items@.len() <= 0xffff_ffff,
        ensures
            d.x == x,
            d.y == y,
            d.width == width,
            d.height == height,
            d.label@ == label@,
            d.items == items,
            !d.is_open,
            d.selected_index is None,
            d.wf(),
    {
        Dropdown {
            x,
            y,
            width,
            height,
            label: label.to_owned(),
            items,
            is_open: false,
            selected_index: None,
        }
    }

    /// Feeds one click at `(px, py)` into the widget.  Returns true
    /// exactly when the click hit the widget: the header while
    /// closed (opening it), or a row while open (selecting that row).
    /// An open widget closes on every click; a missed click changes
    /// nothing else.
    pub fn click(&mut self, px: u32, py: u32) -> (r: bool)
        requires
            old(self).wf(),
        ensures
            final(self).wf(),
            final(self).x == old(self).x,
            final(self).y == old(self).y,
            final(self).width == old(self).width,
            final(self).height == old(self).height,
            final(self).label == old(self).label,
            final(self).items == old(self).items,
            old(self).is_open ==> {
                &&& !final(self).is_open
                &&& match old(self).first_hit_upto(px, py, old(self).items@.len() as int) {
                    Some(i) => final(self).selected_index == Some(i) && r,
                    None => final(self).selected_index == old(self).selected_index && !r,
                }
            },
            !old(self).is_open ==> {
                &&& final(self).selected_index == old(self).selected_index
                &&& r == old(self).hits_header(px, py)
                &&& final(self).is_open == r
            },
    {
        if self.is_open {
            let mut i: usize = 0;
            let hit_x = px >= self.x && px as u64 <= self.x as u64 + self.width as u64;
            while i < self.items.len()
                invariant
                    i <= self.items@.len(),
                    self.items@.len() <= 0xffff_ffff,
                    self == old(self),
                    self.is_open,
                    hit_x == (self.x <= px <= self.x + self.width),
                    self.first_hit_upto(px, py, i as int) is None,
                decreases self.items@.len() - i,
            {
                proof {
                    assert((self.height as int) * (i as int + 1) <= 0xffff_ffff * 0x1_0000_0000
                        && (self.height as int) * (i as int + 2) <= 0xffff_ffff * 0x1_0000_0000)
                        by (nonlinear_arith)
                        requires
                            self.height <= 0xffff_ffffu32,
                            0 <= i,
                            i + 2 <= 0x1_0000_0000,
                    ;
                }
                let row_top: u64 = self.y as u64 + self.height as u64 * (i as u64 + 1);
                let row_bot: u64 = self.y as u64 + self.height as u64 * (i as u64 + 2);
                if hit_x && py as u64 >= row_top && py as u64 <= row_bot {
                    proof {
                        self.lemma_first_hit_extend(px, py, i as int, self.items@.len() as int);
                    }
                    self.selected_index = Some(i);
                    self.is_open = false;
                    return true;
                }
                i = i + 1;
            }
            self.is_open = false;
            false
        } else {
            let hit = px >= self.x && px as u64 <= self.x as u64 + self.width as u64 && py
                >= self.y && py as u64 <= self.y as u64 + self.height as u64;
            if hit {
                self.is_open = true;
                true
            } else {
                false
            }
        }
    }

    /// The archetype of the selected row, if any.
    pub fn selected(&self) -> (r: Option<TowerType>)
        requires
            self.wf(),
        ensures
            r == match self.selected_index {
                Some(i) => Some(self.items@[i as int].value),
                None => None::<TowerType>,
            },
    {
        match self.selected_index {
            Some(i) => Some(self.items[i].value),
            None => None,
        }
    }

    /// Clears the selection and closes the list.
    pub fn reset(&mut self)
        requires
            old(self).wf(),
        ensures
            final(self).selected_index is None,
            !final(self).is_open,
            final(self).x == old(self).x,
            final(self).y == old(self).y,
            final(self).width == old(self).width,
            final(self).height == old(self).height,
            final(self).label == old(self).label,
            final(self).items == old(self).items,
            final(self).wf(),
    {
        self.selected_index = None;
        self.is_open = false;
    }
}

} // verus!

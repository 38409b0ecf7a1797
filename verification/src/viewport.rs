use vstd::prelude::*;
use crate::piece::Piece;

verus! {

/// A rectangle of cells: its top-left corner and its measures.
#[derive(Clone, Copy, Debug, PartialEq, Eq, Structural)]
pub struct Area {
    pub x: u16,
    pub y: u16,
    pub width: u16,
    pub height: u16,
}

impl Default for Area {
    fn default() -> (area: Area)
        ensures
            area == (Area { x: 0, y: 0, width: 0, height: 0 }),
    {
        Area { x: 0, y: 0, width: 0, height: 0 }
    }
}

/// The place that a player points at: an area that is moved about a field of
/// `max_x` columns and `max_y` rows, and stays on it.
#[derive(Clone, Copy, Debug, PartialEq, Eq, Structural)]
pub struct Cursor {
    pub area: Area,
    pub max_x: u16,
    pub max_y: u16,
}

impl Default for Cursor {
    fn default() -> (cursor: Cursor)
        ensures
            cursor == (Cursor {
                area: Area { x: 0, y: 0, width: 0, height: 0 },
                max_x: 0,
                max_y: 0,
            }),
    {
        Cursor { area: Area { x: 0, y: 0, width: 0, height: 0 }, max_x: 0, max_y: 0 }
    }
}

/// `from` moved `distance` towards the far side of a field of `limit`
/// cells, for a cursor that is `size` cells long: as far as asked, or as far
/// as the cursor stays on the field.
pub open spec fn moved_forward(from: u16, size: u16, limit: u16, distance: u16) -> u16 {
    if from + size + distance <= limit {
        (from + distance) as u16
    } else {
        (limit - size) as u16
    }
}

/// `from` moved `distance` towards zero: as far as asked, or to zero.
pub open spec fn moved_back(from: u16, distance: u16) -> u16 {
    if from >= distance {
        (from - distance) as u16
    } else {
        0
    }
}

/// The distance that a signed step covers: its magnitude, as far as sixteen
/// bits hold it.
pub open spec fn step_distance(step: i32) -> u16 {
    ((if step < 0 {
        -step
    } else {
        step as int
    }) % 0x10000) as u16
}

/// `from` moved by a signed step: back for a negative step, forward for
/// any other.
pub open spec fn stepped(from: u16, size: u16, limit: u16, step: i32) -> u16 {
    if step < 0 {
        moved_back(from, step_distance(step))
    } else {
        moved_forward(from, size, limit, step_distance(step))
    }
}

/// The first row shown of a list that shows `rows_displayed` rows at a time,
/// after the cursor has moved: the row nearest to `offset` from which the
/// cursor, `cursor_height` rows from `cursor_y` on, is wholly in view.
pub open spec fn scrolled(offset: u16, rows_displayed: u16, cursor_y: u16, cursor_height: u16) -> u16 {
    if rows_displayed + offset < cursor_y + cursor_height {
        (cursor_y + cursor_height - rows_displayed) as u16
    } else if cursor_y < offset {
        cursor_y
    } else {
        offset
    }
}

impl Cursor {
    /// A cursor of one cell at the top-left corner of the field.
    pub fn simple(max_x: u16, max_y: u16) -> (cursor: Cursor)
        ensures
            cursor == (Cursor { area: Area { x: 0, y: 0, width: 1, height: 1 }, max_x, max_y }),
    {
        Cursor { max_x, max_y, area: Area { x: 0, y: 0, width: 1, height: 1 } }
    }

    /// A cursor that covers `area`.
    pub fn new(max_x: u16, max_y: u16, area: Area) -> (cursor: Cursor)
        ensures
            cursor == (Cursor { area, max_x, max_y }),
    {
        Cursor { max_x, max_y, area }
    }

    /// Moves the cursor down by `distance` rows, or to the bottom of the field.
    pub fn move_down(&mut self, distance: u16)
        requires
            old(self).area.height + distance <= old(self).max_y,
        ensures
            *final(self) == (Cursor {
                area: Area {
                    y: moved_forward(
                        old(self).area.y,
                        old(self).area.height,
                        old(self).max_y,
                        distance,
                    ),
                    ..old(self).area
                },
                ..*old(self)
            }),
    {
        if self.area.y <= self.max_y - self.area.height - distance {
            self.area.y += distance
        } else {
            self.area.y = self.max_y - self.area.height
        }
    }

    /// Moves the cursor up by `distance` rows, or to the top of the field.
    pub fn move_up(&mut self, distance: u16)
        ensures
            *final(self) == (Cursor {
                area: Area { y: moved_back(old(self).area.y, distance), ..old(self).area },
                ..*old(self)
            }),
    {
        if self.area.y >= distance {
            self.area.y -= distance
        } else {
            self.area.y = 0
        }
    }

    /// Moves the cursor right by `distance` columns, or to the right edge of
    /// the field.
    pub fn move_right(&mut self, distance: u16)
        requires
            old(self).area.width + distance <= old(self).max_x,
        ensures
            *final(self) == (Cursor {
                area: Area {
                    x: moved_forward(
                        old(self).area.x,
                        old(self).area.width,
                        old(self).max_x,
                        distance,
                    ),
                    ..old(self).area
                },
                ..*old(self)
            }),
    {
        if self.area.x <= self.max_x - self.area.width - distance {
            self.area.x += distance
        } else {
            self.area.x = self.max_x - self.area.width
        }
    }

    /// Moves the cursor left by `distance` columns, or to the left edge of
    /// the field.
    pub fn move_left(&mut self, distance: u16)
        ensures
            *final(self) == (Cursor {
                area: Area { x: moved_back(old(self).area.x, distance), ..old(self).area },
                ..*old(self)
            }),
    {
        if self.area.x >= distance {
            self.area.x -= distance
        } else {
            self.area.x = 0
        }
    }

    /// Moves the cursor by a signed step in each direction: first along the
    /// columns, then along the rows.
    pub fn move_cursor(&mut self, x: i32, y: i32)
        requires
            x > i32::MIN,
            y > i32::MIN,
            x >= 0 ==> old(self).area.width + step_distance(x) <= old(self).max_x,
            y >= 0 ==> old(self).area.height + step_distance(y) <= old(self).max_y,
        ensures
            *final(self) == (Cursor {
                area: Area {
                    x: stepped(old(self).area.x, old(self).area.width, old(self).max_x, x),
                    y: stepped(old(self).area.y, old(self).area.height, old(self).max_y, y),
                    ..old(self).area
                },
                ..*old(self)
            }),
    {
        if x < 0 {
            self.move_left(distance_of(x))
        } else {
            self.move_right(distance_of(x))
        }
        if y < 0 {
            self.move_up(distance_of(y))
        } else {
            self.move_down(distance_of(y))
        }
    }

    /// Turns the cursor by a quarter: its width and height change places.
    pub fn rotate_cursor(&mut self)
        ensures
            *final(self) == (Cursor {
                area: Area {
                    width: old(self).area.height,
                    height: old(self).area.width,
                    ..old(self).area
                },
                ..*old(self)
            }),
    {
        let width = self.area.width;
        self.area.width = self.area.height;
        self.area.height = width;
    }
}

fn distance_of(step: i32) -> (distance: u16)
    requires
        step > i32::MIN,
    ensures
        distance == step_distance(step),
{
    let magnitude: u32 = if step < 0 {
        (-step) as u32
    } else {
        step as u32
    };
    (magnitude % 0x10000) as u16
}

/// The first row to show after the cursor has moved, so that the cursor is
/// in view again.
pub fn scroll_offset(offset: u16, rows_displayed: u16, cursor_y: u16, cursor_height: u16) -> (first_row:
    u16)
    requires
        cursor_height <= rows_displayed,
        rows_displayed + offset <= u16::MAX,
        cursor_y + cursor_height <= u16::MAX,
    ensures
        first_row == scrolled(offset, rows_displayed, cursor_y, cursor_height),
        first_row <= cursor_y,
        cursor_y + cursor_height <= first_row + rows_displayed,
        offset <= cursor_y && cursor_y + cursor_height <= offset + rows_displayed ==> first_row
            == offset,
{
    let mut first_row = offset;
    if (rows_displayed + first_row) < (cursor_y + cursor_height) {
        first_row = (cursor_y + cursor_height) - rows_displayed;
    }
    if cursor_y < first_row {
        let diff = first_row - cursor_y;
        first_row -= diff;
    }
    first_row
}

/// A piece picked from an inventory: the piece as it is turned now, its
/// index in the inventory, and the quarter turns made since it was picked,
/// counted round.
pub struct IndexedPiece {
    pub piece: Piece,
    pub index: usize,
    pub rotations: u16,
}

impl IndexedPiece {
    /// Turns the piece by a quarter and counts the turn.
    pub fn rotate(&mut self)
        requires
            old(self).rotations < u16::MAX,
        ensures
            final(self).piece@ == old(self).piece@.rotated(),
            final(self).index == old(self).index,
            final(self).rotations == (old(self).rotations + 1) % 4,
    {
        self.rotations = (self.rotations + 1) % 4;
        self.piece.rotate();
    }
}

} // verus!

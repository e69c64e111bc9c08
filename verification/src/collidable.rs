//! The one occupancy predicate every membership check goes through:
//! whether two operands — a single cell or an ordered run of cells —
//! share at least one cell.
use vstd::prelude::*;
use crate::cell::Cell;

verus! {

/// Decides whether `self` occupies at least one cell of `other`.
pub trait Collidable<T> {
    /// What the check means: shared occupancy of at least one cell.
    spec fn collides_spec(&self, other: &T) -> bool;

    /// Runs the occupancy check.
    fn collides_with(&self, other: &T) -> (r: bool)
        ensures
            r == self.collides_spec(other),
    ;
}

impl Collidable<Cell> for Cell {
    open spec fn collides_spec(&self, other: &Cell) -> bool {
        self == other
    }

    fn collides_with(&self, other: &Cell) -> (r: bool) {
        *self == *other
    }
}

impl Collidable<Vec<Cell>> for Cell {
    open spec fn collides_spec(&self, group: &Vec<Cell>) -> bool {
        group@.contains(*self)
    }

    fn collides_with(&self, group: &Vec<Cell>) -> (r: bool) {
        contains_cell(group, *self)
    }
}

impl Collidable<Cell> for Vec<Cell> {
    open spec fn collides_spec(&self, other: &Cell) -> bool {
        self@.contains(*other)
    }

    fn collides_with(&self, other: &Cell) -> (r: bool) {
        contains_cell(self, *other)
    }
}

impl Collidable<Vec<Cell>> for Vec<Cell> {
    open spec fn collides_spec(&self, other: &Vec<Cell>) -> bool {
        exists|i: int| 0 <= i < self@.len() && other@.contains(#[trigger] self@[i])
    }

    fn collides_with(&self, other: &Vec<Cell>) -> (r: bool) {
        let mut i: usize = 0;
        let mut found = false;
        while i < self.len()
            invariant
                0 <= i <= self@.len(),
                found == exists|k: int| 0 <= k < i && other@.contains(#[trigger] self@[k]),
            decreases self@.len() - i,
        {
            if contains_cell(other, self[i]) {
                found = true;
            }
            i = i + 1;
        }
        found
    }
}

/// Membership of one cell in an ordered run of cells.
pub fn contains_cell(group: &Vec<Cell>, c: Cell) -> (r: bool)
    ensures
        r == group@.contains(c),
{
    let mut i: usize = 0;
    let mut found = false;
    while i < group.len()
        invariant
            0 <= i <= group@.len(),
            found == exists|k: int| 0 <= k < i && group@[k] == c,
        decreases group@.len() - i,
    {
        if group[i] == c {
            found = true;
        }
        i = i + 1;
    }
    assert(found == group@.contains(c));
    found
}

} // verus!

//! Read-only capability a renderer consumes: a size and a cell lookup.

use vstd::prelude::*;

verus! {

/// A rectangular object whose cells a renderer may read one by one.
///
/// `get_size` reports `(width, height)`; `get_data(x, y)` reads the cell in
/// row `x`, column `y`. Implementors fix both through the two spec functions,
/// so a caller knows exactly which value each cell holds.
pub trait Drawable {
    /// The `(width, height)` that `get_size` reports.
    spec fn spec_size(&self) -> (usize, usize);

    /// Whether row `x`, column `y` may be read on this value.
    spec fn valid_at(&self, x: int, y: int) -> bool;

    /// The cell value at row `x`, column `y`.
    spec fn spec_data(&self, x: int, y: int) -> i8;

    /// Report the object's size.
    fn get_size(&self) -> (s: (usize, usize))
        ensures
            s == self.spec_size(),
    ;

    /// Read the cell in row `x`, column `y`.
    fn get_data(&self, x: usize, y: usize) -> (d: i8)
        requires
            self.valid_at(x as int, y as int),
        ensures
            d == self.spec_data(x as int, y as int),
    ;
}

} // verus!

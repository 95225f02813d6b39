use vstd::prelude::*;

use crate::line::Line;

verus! {

/// An edit request over a region of the buffer, described by `(column, row)`
/// positions and the lines involved.
pub enum Action {
    InsertChar(usize, usize, char),
    DeleteChar(usize, usize),
    InsertTextRegion((usize, usize), (usize, usize), Vec<Line>),
    RemoveTextRegion((usize, usize), (usize, usize)),
}

} // verus!

use vstd::prelude::*;
use vstd::string::*;

use crate::line::{clean_len_of, clean_of, ending_of, push_char, Line};

verus! {

/// The raw character sequences of a sequence of lines.
pub open spec fn lines_view(v: Seq<Line>) -> Seq<Seq<char>> {
    v.map_values(|l: Line| l@)
}

/// A sequence of lines viewed element by element.
pub broadcast proof fn lemma_lines_view_index(v: Seq<Line>, j: int)
    requires
        0 <= j < v.len(),
    ensures
        #[trigger] lines_view(v)[j] == v[j]@,
{
}

/// Viewing lines distributes over appending one line.
pub broadcast proof fn lemma_lines_view_push(v: Seq<Line>, l: Line)
    ensures
        #[trigger] lines_view(v.push(l)) == lines_view(v).push(l@),
{
    assert(lines_view(v.push(l)) =~= lines_view(v).push(l@));
}

/// Viewing lines distributes over replacing one line.
pub broadcast proof fn lemma_lines_view_update(v: Seq<Line>, i: int, l: Line)
    requires
        0 <= i < v.len(),
    ensures
        #[trigger] lines_view(v.update(i, l)) == lines_view(v).update(i, l@),
{
    assert(lines_view(v.update(i, l)) =~= lines_view(v).update(i, l@));
}

/// Viewing lines distributes over inserting one line.
pub broadcast proof fn lemma_lines_view_insert(v: Seq<Line>, i: int, l: Line)
    requires
        0 <= i <= v.len(),
    ensures
        #[trigger] lines_view(v.insert(i, l)) == lines_view(v).insert(i, l@),
{
    assert(lines_view(v.insert(i, l)) =~= lines_view(v).insert(i, l@));
}

/// Viewing lines distributes over removing one line.
pub broadcast proof fn lemma_lines_view_remove(v: Seq<Line>, i: int)
    requires
        0 <= i < v.len(),
    ensures
        #[trigger] lines_view(v.remove(i)) == lines_view(v).remove(i),
{
    assert(lines_view(v.remove(i)) =~= lines_view(v).remove(i));
}

/// Row index clamped into the buffer: `min(row, line count - 1)`.
pub open spec fn clamp_row(b: Seq<Seq<char>>, row: int) -> int {
    if row < b.len() - 1 {
        row
    } else {
        b.len() - 1
    }
}

/// Column clamped to the raw length of a line: `min(col, len)`.
pub open spec fn clamp_col(l: Seq<char>, col: int) -> int {
    if col <= l.len() {
        col
    } else {
        l.len() as int
    }
}

/// A `(column, row)` position clamped to the buffer: the row into the line
/// range, the column to the raw length of the clamped row.
pub open spec fn clamp_pos(b: Seq<Seq<char>>, p: (int, int)) -> (int, int) {
    let r = clamp_row(b, p.1);
    (clamp_col(b[r], p.0), r)
}

/// Insertion of one character at a clamped position.
pub open spec fn spec_insert_char(b: Seq<Seq<char>>, row: int, col: int, c: char) -> Seq<
    Seq<char>,
> {
    let r = clamp_row(b, row);
    let l = b[r];
    let cc = clamp_col(l, col);
    b.update(r, l.insert(cc, c))
}

/// Merging line `r + 1` into line `r`: the clean content of `r` followed by
/// the raw content of `r + 1`; line `r + 1` disappears.
pub open spec fn spec_join(b: Seq<Seq<char>>, r: int) -> Seq<Seq<char>> {
    b.update(r, clean_of(b[r]) + b[r + 1]).remove(r + 1)
}

/// Whether a forward delete at `(row, col)` removes a character in place.
pub open spec fn delete_hits_char(b: Seq<Seq<char>>, row: int, col: int) -> bool {
    col < clean_len_of(b[clamp_row(b, row)])
}

/// Whether a forward delete at `(row, col)` merges with the next line.
pub open spec fn delete_joins(b: Seq<Seq<char>>, row: int, col: int) -> bool {
    !delete_hits_char(b, row, col) && clamp_row(b, row) + 1 < b.len()
}

/// Forward deletion: remove the character at `col` if it lies in the clean
/// content, else merge with the following line, else leave the buffer alone.
pub open spec fn spec_delete_char(b: Seq<Seq<char>>, row: int, col: int) -> Seq<Seq<char>> {
    let r = clamp_row(b, row);
    let l = b[r];
    if col < clean_len_of(l) {
        b.update(r, l.remove(col))
    } else if r + 1 < b.len() {
        spec_join(b, r)
    } else {
        b
    }
}

/// Splitting line `row` at a clamped column: the head keeps the line's
/// terminator reattached, the tail becomes a new following line.
pub open spec fn spec_split(b: Seq<Seq<char>>, row: int, col: int) -> Seq<Seq<char>> {
    let r = clamp_row(b, row);
    let l = b[r];
    let cc = clamp_col(l, col);
    b.update(r, l.take(cc) + ending_of(l)).insert(r + 1, l.skip(cc))
}

/// The text between two clamped positions, sliced exactly as removal slices:
/// one fragment on a single row, else a head fragment, whole middle lines,
/// and a tail fragment.
pub open spec fn spec_get_region(b: Seq<Seq<char>>, start: (int, int), end: (int, int)) -> Seq<
    Seq<char>,
> {
    let (sx, sy) = clamp_pos(b, start);
    let (ex, ey) = clamp_pos(b, end);
    if sy == ey {
        let hi = if ex < sx {
            sx
        } else {
            ex
        };
        seq![b[sy].subrange(sx, hi)]
    } else if sy < ey {
        seq![b[sy].skip(sx)] + b.subrange(sy + 1, ey) + seq![b[ey].take(ex)]
    } else {
        seq![b[sy].skip(sx)] + seq![b[ey].take(ex)]
    }
}

/// Removal of the region between two clamped positions.
pub open spec fn spec_remove_region(b: Seq<Seq<char>>, start: (int, int), end: (int, int)) -> Seq<
    Seq<char>,
> {
    let (sx, sy) = clamp_pos(b, start);
    let (ex, ey) = clamp_pos(b, end);
    if sy == ey {
        let hi = if ex < sx {
            sx
        } else {
            ex
        };
        b.update(sy, b[sy].take(sx) + b[sy].skip(hi))
    } else if sy < ey {
        b.take(sy) + seq![b[sy].take(sx) + b[ey].skip(ex)] + b.skip(ey + 1)
    } else {
        b.update(sy, b[sy].take(sx) + b[ey].skip(ex))
    }
}

/// The clean prefix of the target line before a clamped column.
pub open spec fn region_head(l: Seq<char>, sx: int) -> Seq<char> {
    clean_of(l).take(
        if sx <= clean_len_of(l) {
            sx
        } else {
            clean_len_of(l) as int
        },
    )
}

/// Insertion of a sequence of lines at a clamped position: with one inserted
/// line its clean content is spliced into the target line; with more, the
/// head keeps the first inserted line, the middle lines enter verbatim, and
/// the last inserted line takes over the target's tail as a new line.
pub open spec fn spec_insert_region(
    b: Seq<Seq<char>>,
    start: (int, int),
    ins: Seq<Seq<char>>,
) -> Seq<Seq<char>> {
    let (sx, sy) = clamp_pos(b, start);
    let l = b[sy];
    let head = region_head(l, sx);
    let tail = l.skip(sx);
    if ins.len() == 0 {
        b
    } else if ins.len() == 1 {
        b.update(sy, head + clean_of(ins[0]) + tail)
    } else {
        b.take(sy) + seq![head + ins[0]] + ins.subrange(1, ins.len() - 1) + seq![ins.last() + tail]
            + b.skip(sy + 1)
    }
}

/// The `(column, row)` position just after an inserted region.
pub open spec fn spec_insert_region_pos(
    b: Seq<Seq<char>>,
    start: (int, int),
    ins: Seq<Seq<char>>,
) -> (int, int) {
    let (sx, sy) = clamp_pos(b, start);
    let l = b[sy];
    if ins.len() == 0 {
        (sx, sy)
    } else if ins.len() == 1 {
        (region_head(l, sx).len() + clean_len_of(ins[0]) as int, sy)
    } else {
        (ins.last().len() as int, sy + ins.len() - 1)
    }
}

/// One recorded edit, carrying exactly the data its inverse needs.
enum Action {
    InsertChar(usize, usize, char),
    DeleteChar(usize, usize, char),
    InsertRegion((usize, usize), Vec<Line>),
    RemoveRegion((usize, usize), (usize, usize), Vec<Line>),
    JoinLine(usize, usize),
    SplitLine(usize, usize),
}

/// The mathematical shadow of a recorded edit.
pub enum ActionModel {
    MInsertChar(int, int, char),
    MDeleteChar(int, int, char),
    MInsertRegion(int, int, Seq<Seq<char>>),
    MRemoveRegion(int, int, int, int, Seq<Seq<char>>),
    MJoinLine(int, int),
    MSplitLine(int, int),
}

spec fn act_of(a: Action) -> ActionModel {
    match a {
        Action::InsertChar(r, c, ch) => ActionModel::MInsertChar(r as int, c as int, ch),
        Action::DeleteChar(r, c, ch) => ActionModel::MDeleteChar(r as int, c as int, ch),
        Action::InsertRegion(s, ls) => ActionModel::MInsertRegion(
            s.0 as int,
            s.1 as int,
            lines_view(ls@),
        ),
        Action::RemoveRegion(s, e, ls) => ActionModel::MRemoveRegion(
            s.0 as int,
            s.1 as int,
            e.0 as int,
            e.1 as int,
            lines_view(ls@),
        ),
        Action::JoinLine(r, c) => ActionModel::MJoinLine(r as int, c as int),
        Action::SplitLine(r, c) => ActionModel::MSplitLine(r as int, c as int),
    }
}

/// Replaying a recorded edit forward, as `redo` does.
pub open spec fn spec_redo_act(b: Seq<Seq<char>>, m: ActionModel) -> Seq<Seq<char>> {
    match m {
        ActionModel::MInsertChar(r, c, ch) => spec_insert_char(b, r, c, ch),
        ActionModel::MDeleteChar(r, c, _ch) => spec_delete_char(b, r, c),
        ActionModel::MInsertRegion(sx, sy, ins) => spec_insert_region(b, (sx, sy), ins),
        ActionModel::MRemoveRegion(sx, sy, ex, ey, _rem) => spec_remove_region(
            b,
            (sx, sy),
            (ex, ey),
        ),
        ActionModel::MJoinLine(r, _c) => {
            let rr = clamp_row(b, r);
            if rr + 1 < b.len() {
                spec_join(b, rr)
            } else {
                b
            }
        },
        ActionModel::MSplitLine(r, c) => spec_split(b, r, c),
    }
}

/// Applying the documented inverse of a recorded edit, as `undo` does.
pub open spec fn spec_undo_act(b: Seq<Seq<char>>, m: ActionModel) -> Seq<Seq<char>> {
    match m {
        ActionModel::MInsertChar(r, c, _ch) => spec_delete_char(b, r, c),
        ActionModel::MDeleteChar(r, c, ch) => spec_insert_char(b, r, c, ch),
        ActionModel::MInsertRegion(sx, sy, ins) => {
            if ins.len() == 0 {
                b
            } else if ins.len() == 1 {
                spec_remove_region(b, (sx, sy), (sx + clean_len_of(ins[0]), sy))
            } else {
                spec_remove_region(b, (sx, sy), (ins.last().len() as int, sy + ins.len() - 1))
            }
        },
        ActionModel::MRemoveRegion(sx, sy, _ex, _ey, rem) => spec_insert_region(b, (sx, sy), rem),
        ActionModel::MJoinLine(r, c) => spec_split(b, r, c),
        ActionModel::MSplitLine(r, _c) => {
            if 0 <= r && r + 1 < b.len() {
                spec_join(b, r)
            } else {
                b
            }
        },
    }
}

/// An always-non-empty ordered sequence of lines together with the action
/// log: an append-only edit history and a movable index into it.
pub struct Buffer {
    lines: Vec<Line>,
    history: Vec<Action>,
    index: usize,
}

impl Buffer {
    /// The raw character sequences of the buffer's lines.
    pub closed spec fn lines_model(&self) -> Seq<Seq<char>> {
        lines_view(self.lines@)
    }

    /// The recorded edit history.
    pub closed spec fn hist_model(&self) -> Seq<ActionModel> {
        self.history@.map_values(|a: Action| act_of(a))
    }

    /// The history cursor: everything before it can be undone, everything
    /// from it on can be redone.
    pub closed spec fn hist_index(&self) -> int {
        self.index as int
    }

    /// The buffer always holds at least one line, and the history cursor
    /// stays inside the log.
    pub open spec fn inv(&self) -> bool {
        self.lines_model().len() >= 1 && 0 <= self.hist_index() <= self.hist_model().len()
    }

    /// Exact byte-for-byte reconstruction: the concatenation of all raw lines.
    pub open spec fn text(&self) -> Seq<char> {
        self.lines_model().flatten()
    }

    pub fn new(lines: Vec<Line>) -> (b: Buffer)
        ensures
            b.inv(),
            b.hist_model() =~= Seq::<ActionModel>::empty(),
            b.hist_index() == 0,
            lines@.len() > 0 ==> b.lines_model() == lines_view(lines@),
            lines@.len() == 0 ==> b.lines_model() == seq![Seq::<char>::empty()],
    {
        let mut lines = lines;
        if lines.len() == 0 {
            lines.push(Line::new(String::new()));
            proof {
                assert(lines_view(lines@) =~= seq![Seq::<char>::empty()]);
            }
        }
        Buffer { lines, history: Vec::new(), index: 0 }
    }

    pub fn get_line(&self, line_index: usize) -> (r: Option<&Line>)
        ensures
            line_index < self.lines_model().len() ==> match r {
                Some(l) => l@ == self.lines_model()[line_index as int],
                None => false,
            },
            line_index >= self.lines_model().len() ==> r is None,
    {
        if line_index < self.lines.len() {
            Some(&self.lines[line_index])
        } else {
            None
        }
    }

    pub fn get_line_count(&self) -> (n: usize)
        ensures
            n == self.lines_model().len(),
    {
        self.lines.len()
    }

    pub fn get_all(&self) -> (r: String)
        ensures
            r@ == self.text(),
    {
        broadcast use lemma_lines_view_index, lemma_lines_view_push, lemma_lines_view_update, lemma_lines_view_insert, lemma_lines_view_remove;

        let mut out = String::new();
        let mut i: usize = 0;
        while i < self.lines.len()
            invariant
                i <= self.lines@.len(),
                out@ == self.lines_model().take(i as int).flatten(),
            decreases self.lines@.len() - i,
        {
            out.append(self.lines[i].get_raw());
            proof {
                let m = self.lines_model();
                assert(m.take(i + 1).drop_last() =~= m.take(i as int));
                assert(m.take(i + 1).last() == m[i as int]);
                lemma_flatten_drop_last(m.take(i + 1));
            }
            i = i + 1;
        }
        proof {
            assert(self.lines_model().take(self.lines@.len() as int) =~= self.lines_model());
        }
        out
    }

    pub fn insert_char(&mut self, line_index: usize, column: usize, c: char, log: bool)
        requires
            old(self).inv(),
        ensures
            final(self).inv(),
            final(self).lines_model() == spec_insert_char(
                old(self).lines_model(),
                line_index as int,
                column as int,
                c,
            ),
            log ==> final(self).hist_model() == old(self).hist_model().take(
                old(self).hist_index(),
            ).push(
                ActionModel::MInsertChar(
                    clamp_row(old(self).lines_model(), line_index as int),
                    clamp_col(
                        old(self).lines_model()[clamp_row(
                            old(self).lines_model(),
                            line_index as int,
                        )],
                        column as int,
                    ),
                    c,
                ),
            ) && final(self).hist_index() == final(self).hist_model().len(),
            !log ==> final(self).hist_model() == old(self).hist_model() && final(self).hist_index()
                == old(self).hist_index(),
    {
        broadcast use lemma_lines_view_index, lemma_lines_view_push, lemma_lines_view_update, lemma_lines_view_insert, lemma_lines_view_remove;

        let ghost b0 = self.lines_model();
        let count = self.lines.len();
        let row = if line_index >= count {
            count - 1
        } else {
            line_index
        };
        let s = self.lines[row].get_raw();
        let len = s.unicode_len();
        let col = if column > len {
            len
        } else {
            column
        };
        let mut new_raw = s.substring_char(0, col).to_owned();
        push_char(&mut new_raw, c);
        new_raw.append(s.substring_char(col, len));
        proof {
            assert(new_raw@ =~= b0[row as int].insert(col as int, c));
        }
        self.lines[row] = Line::new(new_raw);
        proof {
            assert(self.lines_model() =~= spec_insert_char(b0, line_index as int, column as int, c));
        }
        if log {
            self.log(Action::InsertChar(row, col, c));
        }
    }

    /// Merge line `row + 1` into line `row`.
    fn join_rows(&mut self, row: usize)
        requires
            old(self).inv(),
            row + 1 < old(self).lines_model().len(),
        ensures
            final(self).inv(),
            final(self).lines_model() == spec_join(old(self).lines_model(), row as int),
            final(self).hist_model() == old(self).hist_model(),
            final(self).hist_index() == old(self).hist_index(),
    {
        broadcast use lemma_lines_view_index, lemma_lines_view_push, lemma_lines_view_update, lemma_lines_view_insert, lemma_lines_view_remove;

        let ghost b0 = self.lines_model();
        let count = self.lines.len();
        let joined = self.lines[row].get_clean_raw().concat(self.lines[row + 1].get_raw());
        self.lines[row] = Line::new(joined);
        self.lines.remove(row + 1);
        proof {
            assert(self.lines_model() =~= spec_join(b0, row as int));
        }
    }

    pub fn delete_char(&mut self, line_index: usize, column: usize, log: bool) -> (r: bool)
        requires
            old(self).inv(),
        ensures
            final(self).inv(),
            final(self).lines_model() == spec_delete_char(
                old(self).lines_model(),
                line_index as int,
                column as int,
            ),
            r == (delete_hits_char(old(self).lines_model(), line_index as int, column as int)
                || delete_joins(old(self).lines_model(), line_index as int, column as int)),
            log && delete_hits_char(old(self).lines_model(), line_index as int, column as int)
                ==> final(self).hist_model() == old(self).hist_model().take(
                old(self).hist_index(),
            ).push(
                ActionModel::MDeleteChar(
                    clamp_row(old(self).lines_model(), line_index as int),
                    column as int,
                    old(self).lines_model()[clamp_row(
                        old(self).lines_model(),
                        line_index as int,
                    )][column as int],
                ),
            ) && final(self).hist_index() == final(self).hist_model().len(),
            log && delete_joins(old(self).lines_model(), line_index as int, column as int)
                ==> final(self).hist_model() == old(self).hist_model().take(
                old(self).hist_index(),
            ).push(
                ActionModel::MJoinLine(
                    clamp_row(old(self).lines_model(), line_index as int),
                    clean_len_of(
                        old(self).lines_model()[clamp_row(
                            old(self).lines_model(),
                            line_index as int,
                        )],
                    ) as int,
                ),
            ) && final(self).hist_index() == final(self).hist_model().len(),
            (!log || !r) ==> final(self).hist_model() == old(self).hist_model()
                && final(self).hist_index() == old(self).hist_index(),
    {
        broadcast use lemma_lines_view_index, lemma_lines_view_push, lemma_lines_view_update, lemma_lines_view_insert, lemma_lines_view_remove;

        let ghost b0 = self.lines_model();
        let count = self.lines.len();
        let row = if line_index >= count {
            count - 1
        } else {
            line_index
        };
        let cl = self.lines[row].clean_len();
        if column < cl {
            let s = self.lines[row].get_raw();
            let len = s.unicode_len();
            let removed = s.get_char(column);
            let mut new_raw = s.substring_char(0, column).to_owned();
            new_raw.append(s.substring_char(column + 1, len));
            proof {
                assert(new_raw@ =~= b0[row as int].remove(column as int));
            }
            self.lines[row] = Line::new(new_raw);
            proof {
                assert(self.lines_model() =~= spec_delete_char(
                    b0,
                    line_index as int,
                    column as int,
                ));
            }
            if log {
                self.log(Action::DeleteChar(row, column, removed));
            }
            true
        } else if row + 1 < count {
            self.join_rows(row);
            if log {
                self.log(Action::JoinLine(row, cl));
            }
            true
        } else {
            false
        }
    }

    pub fn split_line(&mut self, line_index: usize, column: usize, log: bool)
        requires
            old(self).inv(),
        ensures
            final(self).inv(),
            final(self).lines_model() == spec_split(
                old(self).lines_model(),
                line_index as int,
                column as int,
            ),
            log ==> final(self).hist_model() == old(self).hist_model().take(
                old(self).hist_index(),
            ).push(
                ActionModel::MSplitLine(
                    clamp_row(old(self).lines_model(), line_index as int),
                    clamp_col(
                        old(self).lines_model()[clamp_row(
                            old(self).lines_model(),
                            line_index as int,
                        )],
                        column as int,
                    ),
                ),
            ) && final(self).hist_index() == final(self).hist_model().len(),
            !log ==> final(self).hist_model() == old(self).hist_model() && final(self).hist_index()
                == old(self).hist_index(),
    {
        broadcast use lemma_lines_view_index, lemma_lines_view_push, lemma_lines_view_update, lemma_lines_view_insert, lemma_lines_view_remove;

        let ghost b0 = self.lines_model();
        let count = self.lines.len();
        let row = if line_index >= count {
            count - 1
        } else {
            line_index
        };
        let s = self.lines[row].get_raw();
        let len = s.unicode_len();
        let cl = self.lines[row].clean_len();
        let col = if column > len {
            len
        } else {
            column
        };
        let mut head = s.substring_char(0, col).to_owned();
        head.append(s.substring_char(cl, len));
        let tail = s.substring_char(col, len).to_owned();
        proof {
            assert(head@ =~= b0[row as int].take(col as int) + ending_of(b0[row as int]));
            assert(tail@ =~= b0[row as int].skip(col as int));
        }
        self.lines[row] = Line::new(head);
        self.lines.insert(row + 1, Line::new(tail));
        proof {
            assert(self.lines_model() =~= spec_split(b0, line_index as int, column as int));
        }
        if log {
            self.log(Action::SplitLine(row, col));
        }
    }

    /// Record an edit: discard the abandoned redo branch, append, and move
    /// the history cursor to the end.
    fn log(&mut self, action: Action)
        requires
            old(self).inv(),
        ensures
            final(self).inv(),
            final(self).lines_model() == old(self).lines_model(),
            final(self).hist_model() == old(self).hist_model().take(old(self).hist_index()).push(
                act_of(action),
            ),
            final(self).hist_index() == final(self).hist_model().len(),
    {
        if self.index < self.history.len() {
            self.history.truncate(self.index);
        }
        self.history.push(action);
        self.index = self.history.len();
        proof {
            assert(self.hist_model() =~= old(self).hist_model().take(
                old(self).hist_index(),
            ).push(act_of(action)));
        }
    }

    pub fn get_region(&self, start: (usize, usize), end: (usize, usize)) -> (r: Vec<Line>)
        requires
            self.inv(),
        ensures
            lines_view(r@) == spec_get_region(
                self.lines_model(),
                (start.0 as int, start.1 as int),
                (end.0 as int, end.1 as int),
            ),
    {
        broadcast use lemma_lines_view_index, lemma_lines_view_push, lemma_lines_view_update, lemma_lines_view_insert, lemma_lines_view_remove;

        let ghost b = self.lines_model();
        let count = self.lines.len();
        let sy = if start.1 >= count {
            count - 1
        } else {
            start.1
        };
        let sy_len = self.lines[sy].char_len();
        let sx = if start.0 > sy_len {
            sy_len
        } else {
            start.0
        };
        let ey = if end.1 >= count {
            count - 1
        } else {
            end.1
        };
        let ey_len = self.lines[ey].char_len();
        let ex = if end.0 > ey_len {
            ey_len
        } else {
            end.0
        };
        let mut text: Vec<Line> = Vec::new();
        if sy != ey {
            let s = self.lines[sy].get_raw();
            let len = s.unicode_len();
            text.push(Line::new(s.substring_char(sx, len).to_owned()));
            if sy < ey {
                let mut i = sy + 1;
                while i < ey
                    invariant
                        sy + 1 <= i <= ey,
                        ey < b.len(),
                        b == self.lines_model(),
                        sx <= b[sy as int].len(),
                        lines_view(text@) =~= seq![b[sy as int].skip(sx as int)] + b.subrange(
                            sy + 1,
                            i as int,
                        ),
                    decreases ey - i,
                {
                    let ghost t0 = text@;
                    text.push(copy_line(&self.lines[i]));
                    proof {
                        assert(lines_view(text@) == lines_view(t0).push(self.lines@[i as int]@));
                        assert(lines_view(text@) =~= seq![b[sy as int].skip(sx as int)]
                            + b.subrange(sy + 1, i + 1));
                    }
                    i = i + 1;
                }
            }
            let t = self.lines[ey].get_raw();
            text.push(Line::new(t.substring_char(0, ex).to_owned()));
            proof {
                assert(lines_view(text@) =~= spec_get_region(
                    b,
                    (start.0 as int, start.1 as int),
                    (end.0 as int, end.1 as int),
                ));
            }
        } else {
            let hi = if ex < sx {
                sx
            } else {
                ex
            };
            let s = self.lines[sy].get_raw();
            text.push(Line::new(s.substring_char(sx, hi).to_owned()));
            proof {
                assert(lines_view(text@) =~= spec_get_region(
                    b,
                    (start.0 as int, start.1 as int),
                    (end.0 as int, end.1 as int),
                ));
            }
        }
        text
    }

    pub fn remove_region(&mut self, start: (usize, usize), end: (usize, usize), log: bool)
        requires
            old(self).inv(),
        ensures
            final(self).inv(),
            final(self).lines_model() == spec_remove_region(
                old(self).lines_model(),
                (start.0 as int, start.1 as int),
                (end.0 as int, end.1 as int),
            ),
            log ==> final(self).hist_model() == old(self).hist_model().take(
                old(self).hist_index(),
            ).push(
                remove_region_act(
                    old(self).lines_model(),
                    (start.0 as int, start.1 as int),
                    (end.0 as int, end.1 as int),
                ),
            ) && final(self).hist_index() == final(self).hist_model().len(),
            !log ==> final(self).hist_model() == old(self).hist_model() && final(self).hist_index()
                == old(self).hist_index(),
    {
        broadcast use lemma_lines_view_index, lemma_lines_view_push, lemma_lines_view_update, lemma_lines_view_insert, lemma_lines_view_remove;

        let ghost b0 = self.lines_model();
        let count = self.lines.len();
        let sy = if start.1 >= count {
            count - 1
        } else {
            start.1
        };
        let sy_len = self.lines[sy].char_len();
        let sx = if start.0 > sy_len {
            sy_len
        } else {
            start.0
        };
        let ey = if end.1 >= count {
            count - 1
        } else {
            end.1
        };
        let ey_len = self.lines[ey].char_len();
        let ex = if end.0 > ey_len {
            ey_len
        } else {
            end.0
        };
        if log {
            let captured = self.get_region(start, end);
            self.log(Action::RemoveRegion((sx, sy), (ex, ey), captured));
        }
        if sy == ey {
            let hi = if ex < sx {
                sx
            } else {
                ex
            };
            let s = self.lines[sy].get_raw();
            let len = s.unicode_len();
            let mut new_raw = s.substring_char(0, sx).to_owned();
            new_raw.append(s.substring_char(hi, len));
            self.lines[sy] = Line::new(new_raw);
            proof {
                assert(self.lines_model() =~= spec_remove_region(
                    b0,
                    (start.0 as int, start.1 as int),
                    (end.0 as int, end.1 as int),
                ));
            }
        } else {
            let tail_str = {
                let t = self.lines[ey].get_raw();
                let tl = t.unicode_len();
                t.substring_char(ex, tl).to_owned()
            };
            let mut new_raw = self.lines[sy].get_raw().substring_char(0, sx).to_owned();
            new_raw.append(tail_str.as_str());
            self.lines[sy] = Line::new(new_raw);
            let ghost nl = b0[sy as int].take(sx as int) + b0[ey as int].skip(ex as int);
            let ghost h1 = self.history@;
            let ghost ix1 = self.index;
            if ey > sy {
                let mut k: usize = 0;
                while k < ey - sy
                    invariant
                        k <= ey - sy,
                        sy < ey < b0.len(),
                        self.lines@.len() == b0.len() - k,
                        self.lines_model() =~= b0.take(sy as int) + seq![nl] + b0.skip(
                            sy + 1 + k,
                        ),
                        self.history@ == h1,
                        self.index == ix1,
                    decreases ey - sy - k,
                {
                    let ghost v0 = self.lines@;
                    self.lines.remove(sy + 1);
                    proof {
                        lemma_lines_view_remove(v0, sy + 1);
                        assert(self.lines_model() =~= b0.take(sy as int) + seq![nl] + b0.skip(
                            sy + 1 + (k + 1),
                        ));
                    }
                    k = k + 1;
                }
                proof {
                    assert(self.lines_model() =~= spec_remove_region(
                        b0,
                        (start.0 as int, start.1 as int),
                        (end.0 as int, end.1 as int),
                    ));
                }
            } else {
                proof {
                    assert(self.lines_model() =~= spec_remove_region(
                        b0,
                        (start.0 as int, start.1 as int),
                        (end.0 as int, end.1 as int),
                    ));
                }
            }
        }
    }

    #[verifier::rlimit(100)]
    pub fn insert_region(&mut self, start: (usize, usize), lines: &[Line], log: bool) -> (pos: (
        usize,
        usize,
    ))
        requires
            old(self).inv(),
        ensures
            final(self).inv(),
            final(self).lines_model() == spec_insert_region(
                old(self).lines_model(),
                (start.0 as int, start.1 as int),
                lines_view(lines@),
            ),
            (pos.0 as int, pos.1 as int) == spec_insert_region_pos(
                old(self).lines_model(),
                (start.0 as int, start.1 as int),
                lines_view(lines@),
            ),
            log ==> final(self).hist_model() == old(self).hist_model().take(
                old(self).hist_index(),
            ).push(
                ActionModel::MInsertRegion(
                    clamp_pos(old(self).lines_model(), (start.0 as int, start.1 as int)).0,
                    clamp_pos(old(self).lines_model(), (start.0 as int, start.1 as int)).1,
                    lines_view(lines@),
                ),
            ) && final(self).hist_index() == final(self).hist_model().len(),
            !log ==> final(self).hist_model() == old(self).hist_model() && final(self).hist_index()
                == old(self).hist_index(),
    {
        broadcast use lemma_lines_view_index, lemma_lines_view_push, lemma_lines_view_update, lemma_lines_view_insert, lemma_lines_view_remove;

        let ghost b0 = self.lines_model();
        let ghost ins = lines_view(lines@);
        let count = self.lines.len();
        let sy = if start.1 >= count {
            count - 1
        } else {
            start.1
        };
        let sy_len = self.lines[sy].char_len();
        let sx = if start.0 > sy_len {
            sy_len
        } else {
            start.0
        };
        if log {
            let copied = copy_lines(lines);
            self.log(Action::InsertRegion((sx, sy), copied));
        }
        let n = lines.len();
        if n == 0 {
            (sx, sy)
        } else if n == 1 {
            let cl = self.lines[sy].clean_len();
            let hl = if sx > cl {
                cl
            } else {
                sx
            };
            let s = self.lines[sy].get_raw();
            let len = s.unicode_len();
            let mut new_raw = s.substring_char(0, hl).to_owned();
            new_raw.append(lines[0].get_clean_raw().as_str());
            new_raw.append(s.substring_char(sx, len));
            proof {
                assert(new_raw@ =~= region_head(b0[sy as int], sx as int) + clean_of(ins[0])
                    + b0[sy as int].skip(sx as int));
            }
            let new_len = new_raw.as_str().unicode_len();
            let ret_col = new_len - (len - sx);
            self.lines[sy] = Line::new(new_raw);
            proof {
                assert(self.lines_model() =~= spec_insert_region(
                    b0,
                    (start.0 as int, start.1 as int),
                    ins,
                ));
            }
            (ret_col, sy)
        } else {
            let cl = self.lines[sy].clean_len();
            let hl = if sx > cl {
                cl
            } else {
                sx
            };
            let s = self.lines[sy].get_raw();
            let len = s.unicode_len();
            let mut first = s.substring_char(0, hl).to_owned();
            first.append(lines[0].get_raw());
            let mut tail_line = lines[n - 1].get_raw().to_owned();
            tail_line.append(s.substring_char(sx, len));
            proof {
                assert(first@ =~= region_head(b0[sy as int], sx as int) + ins[0]);
                assert(tail_line@ =~= ins.last() + b0[sy as int].skip(sx as int));
            }
            self.lines[sy] = Line::new(first);
            let ghost h1 = self.history@;
            let ghost ix1 = self.index;
            let mut i: usize = 1;
            while i < n - 1
                invariant
                    1 <= i <= n - 1,
                    n == ins.len(),
                    n == lines@.len(),
                    sy < b0.len(),
                    ins =~= lines_view(lines@),
                    self.lines@.len() == b0.len() + i - 1,
                    self.lines_model() =~= b0.take(sy as int) + seq![
                        region_head(b0[sy as int], sx as int) + ins[0],
                    ] + ins.subrange(1, i as int) + b0.skip(sy + 1),
                    self.history@ == h1,
                    self.index == ix1,
                decreases n - i,
            {
                // The current length bounds the insertion index.
                let cur = self.lines.len();
                let ghost v0 = self.lines@;
                let c = copy_line(&lines[i]);
                self.lines.insert(sy + i, c);
                proof {
                    lemma_lines_view_insert(v0, sy + i, c);
                    assert(ins.subrange(1, i + 1) =~= ins.subrange(1, i as int).push(ins[i as int]));
                    assert(self.lines_model() =~= b0.take(sy as int) + seq![
                        region_head(b0[sy as int], sx as int) + ins[0],
                    ] + ins.subrange(1, i + 1) + b0.skip(sy + 1));
                }
                i = i + 1;
            }
            // The current length bounds the final insertion index.
            let cur = self.lines.len();
            let tail_len = tail_line.as_str().unicode_len();
            proof {
                assert(sy + (n - 1) <= cur);
            }
            let ghost v0 = self.lines@;
            let tl = Line::new(tail_line);
            self.lines.insert(sy + (n - 1), tl);
            proof {
                lemma_lines_view_insert(v0, sy + n - 1, tl);
                assert(self.lines_model() =~= spec_insert_region(
                    b0,
                    (start.0 as int, start.1 as int),
                    ins,
                ));
            }
            let ret_col = tail_len - (len - sx);
            (ret_col, sy + (n - 1))
        }
    }

    pub fn undo(&mut self)
        requires
            old(self).inv(),
        ensures
            final(self).inv(),
            final(self).hist_model() == old(self).hist_model(),
            old(self).hist_index() == 0 ==> final(self).lines_model() == old(self).lines_model()
                && final(self).hist_index() == 0,
            old(self).hist_index() > 0 ==> final(self).lines_model() == spec_undo_act(
                old(self).lines_model(),
                old(self).hist_model()[old(self).hist_index() - 1],
            ) && final(self).hist_index() == old(self).hist_index() - 1,
    {
        if self.index > 0 {
            let i = self.index - 1;
            let act = copy_action(&self.history[i]);
            match act {
                Action::InsertChar(row, col, _c) => {
                    self.delete_char(row, col, false);
                },
                Action::DeleteChar(row, col, c) => {
                    self.insert_char(row, col, c, false);
                },
                Action::InsertRegion(s, ls) => {
                    let n = ls.len();
                    if n == 1 {
                        let count0 = self.lines.len();
                        let row = if s.1 >= count0 {
                            count0 - 1
                        } else {
                            s.1
                        };
                        let row_len = self.lines[row].char_len();
                        let c0 = ls[0].clean_len();
                        let ex = s.0.saturating_add(c0);
                        self.remove_region(s, (ex, s.1), false);
                        proof {
                            let b = old(self).lines_model();
                            let exact = s.0 + c0;
                            assert(clamp_col(b[clamp_row(b, s.1 as int)], ex as int) == clamp_col(
                                b[clamp_row(b, s.1 as int)],
                                exact,
                            ));
                            assert(spec_remove_region(b, (s.0 as int, s.1 as int), (ex as int, s.1 as int))
                                == spec_remove_region(b, (s.0 as int, s.1 as int), (exact, s.1 as int)));
                        }
                    } else if n > 1 {
                        let count0 = self.lines.len();
                        let ex = ls[n - 1].char_len();
                        let ey = s.1.saturating_add(n - 1);
                        self.remove_region(s, (ex, ey), false);
                        proof {
                            let b = old(self).lines_model();
                            let exact = s.1 + n - 1;
                            assert(clamp_row(b, ey as int) == clamp_row(b, exact));
                            assert(spec_remove_region(b, (s.0 as int, s.1 as int), (ex as int, ey as int))
                                == spec_remove_region(b, (s.0 as int, s.1 as int), (ex as int, exact)));
                        }
                    }
                },
                Action::RemoveRegion(s, _e, ls) => {
                    self.insert_region(s, ls.as_slice(), false);
                },
                Action::JoinLine(row, col) => {
                    self.split_line(row, col, false);
                },
                Action::SplitLine(row, _col) => {
                    let count = self.lines.len();
                    if row < count - 1 {
                        self.join_rows(row);
                    }
                },
            }
            self.index = i;
        }
    }

    pub fn redo(&mut self)
        requires
            old(self).inv(),
        ensures
            final(self).inv(),
            final(self).hist_model() == old(self).hist_model(),
            old(self).hist_index() == old(self).hist_model().len() ==> final(self).lines_model()
                == old(self).lines_model() && final(self).hist_index() == old(self).hist_index(),
            old(self).hist_index() < old(self).hist_model().len() ==> final(self).lines_model()
                == spec_redo_act(
                old(self).lines_model(),
                old(self).hist_model()[old(self).hist_index()],
            ) && final(self).hist_index() == old(self).hist_index() + 1,
    {
        if self.index < self.history.len() {
            let i = self.index;
            let act = copy_action(&self.history[i]);
            match act {
                Action::InsertChar(row, col, c) => {
                    self.insert_char(row, col, c, false);
                },
                Action::DeleteChar(row, col, _c) => {
                    self.delete_char(row, col, false);
                },
                Action::InsertRegion(s, ls) => {
                    self.insert_region(s, ls.as_slice(), false);
                },
                Action::RemoveRegion(s, e, _ls) => {
                    self.remove_region(s, e, false);
                },
                Action::JoinLine(row, _col) => {
                    let count = self.lines.len();
                    let r = if row >= count {
                        count - 1
                    } else {
                        row
                    };
                    if r + 1 < count {
                        self.join_rows(r);
                    }
                },
                Action::SplitLine(row, col) => {
                    self.split_line(row, col, false);
                },
            }
            self.index = i + 1;
        }
    }
}

/// The action recorded for a region removal: the clamped span and the exact
/// text it covered.
pub open spec fn remove_region_act(
    b: Seq<Seq<char>>,
    start: (int, int),
    end: (int, int),
) -> ActionModel {
    let (sx, sy) = clamp_pos(b, start);
    let (ex, ey) = clamp_pos(b, end);
    ActionModel::MRemoveRegion(sx, sy, ex, ey, spec_get_region(b, start, end))
}

fn copy_line(l: &Line) -> (r: Line)
    ensures
        r@ == l@,
{
    Line::new(l.get_raw().to_owned())
}

fn copy_lines(v: &[Line]) -> (r: Vec<Line>)
    ensures
        lines_view(r@) == lines_view(v@),
{
    broadcast use lemma_lines_view_index, lemma_lines_view_push, lemma_lines_view_update, lemma_lines_view_insert, lemma_lines_view_remove;

    let mut out: Vec<Line> = Vec::new();
    let mut i: usize = 0;
    while i < v.len()
        invariant
            i <= v@.len(),
            lines_view(out@) =~= lines_view(v@.take(i as int)),
        decreases v@.len() - i,
    {
        let ghost o0 = out@;
        let c = copy_line(&v[i]);
        out.push(c);
        proof {
            lemma_lines_view_push(o0, c);
            assert(v@.take(i + 1) =~= v@.take(i as int).push(v@[i as int]));
            assert(lines_view(out@) =~= lines_view(v@.take(i + 1)));
        }
        i = i + 1;
    }
    proof {
        assert(v@.take(v@.len() as int) =~= v@);
        assert(lines_view(out@) =~= lines_view(v@));
    }
    out
}

fn copy_action(a: &Action) -> (r: Action)
    ensures
        act_of(r) == act_of(*a),
{
    match a {
        Action::InsertChar(row, col, c) => Action::InsertChar(*row, *col, *c),
        Action::DeleteChar(row, col, c) => Action::DeleteChar(*row, *col, *c),
        Action::InsertRegion(s, ls) => Action::InsertRegion(*s, copy_lines(ls.as_slice())),
        Action::RemoveRegion(s, e, ls) => Action::RemoveRegion(
            *s,
            *e,
            copy_lines(ls.as_slice()),
        ),
        Action::JoinLine(row, col) => Action::JoinLine(*row, *col),
        Action::SplitLine(row, col) => Action::SplitLine(*row, *col),
    }
}


/// Flattening a non-empty sequence of sequences splits off its last element.
pub proof fn lemma_flatten_drop_last(m: Seq<Seq<char>>)
    requires
        m.len() > 0,
    ensures
        m.flatten() == m.drop_last().flatten() + m.last(),
    decreases m.len(),
{
    if m.len() == 1 {
        assert(m.drop_last() =~= Seq::<Seq<char>>::empty());
        assert(m.drop_last().flatten() =~= Seq::<char>::empty());
        m.lemma_flatten_one_element();
        assert(m.flatten() =~= m.drop_last().flatten() + m.last());
    } else {
        lemma_flatten_drop_last(m.drop_first());
        assert(m.drop_first().drop_last() =~= m.drop_last().drop_first());
        assert(m.flatten() == m.first() + m.drop_first().flatten());
        assert(m.drop_last().len() > 0);
        assert(m.drop_last().flatten() == m.drop_last().first() + m.drop_last().drop_first().flatten());
        assert(m.drop_last().first() == m.first());
        assert(m.flatten() =~= m.drop_last().flatten() + m.last());
    }
}

} // verus!

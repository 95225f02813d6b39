use vstd::prelude::*;
use vstd::string::*;

use crate::buffer::{
    clamp_col, clamp_pos, clamp_row, delete_hits_char, delete_joins, lines_view,
    remove_region_act, spec_delete_char, spec_get_region, spec_insert_char, spec_insert_region,
    spec_insert_region_pos, spec_redo_act, spec_remove_region, spec_split, spec_undo_act,
    ActionModel, Buffer,
};
use crate::editor_prompt::{EditorPrompt, EditorPromptPurpose};
use crate::line::{clean_len_of, clean_of, render_of, render_unit, Line};
use crate::render_config::RenderConfig;

verus! {

/// A cursor movement request.
pub enum Movement {
    BegFile,
    EndFile,
    Home,
    End,
    PageUp,
    PageDown,
    ScrollUp(usize),
    ScrollDown(usize),
    Absolute(usize, usize),
    AbsoluteScreen(usize, usize),
    Relative(isize, isize),
}

/// A nonnegative quantity clipped to what a `usize` can hold.
pub open spec fn sat_usize(n: int) -> int {
    if n > usize::MAX as int {
        usize::MAX as int
    } else {
        n
    }
}

/// How many tabs a character sequence holds.
pub open spec fn tab_count(s: Seq<char>) -> nat
    decreases s.len(),
{
    if s.len() == 0 {
        0
    } else {
        tab_count(s.drop_last()) + (if s.last() == '\t' {
            1nat
        } else {
            0nat
        })
    }
}

/// The width of a rendered sequence: each tab takes `tab` cells, every other
/// character one.
pub proof fn lemma_render_len(s: Seq<char>, tab: nat)
    ensures
        tab_count(s) <= s.len(),
        render_of(s, tab).len() as int == s.len() as int - tab_count(s) as int + (tab as int)
            * (tab_count(s) as int),
    decreases s.len(),
{
    if s.len() > 0 {
        lemma_render_len(s.drop_last(), tab);
        let t = tab as int;
        let tc = tab_count(s.drop_last()) as int;
        assert(render_of(s, tab) == render_of(s.drop_last(), tab) + render_unit(s.last(), tab));
        assert(render_of(s, tab).len() == render_of(s.drop_last(), tab).len() + render_unit(
            s.last(),
            tab,
        ).len());
        if s.last() == '\t' {
            assert(tab_count(s) as int == tc + 1);
            assert(render_unit(s.last(), tab).len() == tab);
            assert(t * (tc + 1) == t * tc + t) by (nonlinear_arith);
            assert(render_of(s, tab).len() as int == s.len() as int - (tc + 1) + t * (tc + 1));
            assert(render_of(s, tab).len() as int == s.len() as int - tab_count(s) as int + (
            tab as int) * (tab_count(s) as int));
        } else {
            assert(tab_count(s) as int == tc);
            assert(render_unit(s.last(), tab).len() == 1);
            assert(render_of(s, tab).len() as int == s.len() as int - tc + t * tc);
            assert(render_of(s, tab).len() as int == s.len() as int - tab_count(s) as int + (
            tab as int) * (tab_count(s) as int));
        }
    } else {
        assert(render_of(s, tab).len() == 0);
        assert(tab_count(s) == 0);
        assert((tab as int) * (tab_count(s) as int) == 0) by (nonlinear_arith)
            requires
                tab_count(s) == 0,
        ;
    }
}

/// The rendered column of the cursor: the width of the raw prefix before it
/// with tabs expanded, clipped to a `usize`.
pub open spec fn rx_spec(l: Seq<char>, cx: int, tab: int) -> int {
    let p = if 0 <= cx <= l.len() {
        cx
    } else if cx < 0 {
        0
    } else {
        l.len() as int
    };
    sat_usize(render_of(l.take(p), tab as nat).len() as int)
}

/// One scroll adjustment: pull the offset back to the position if the
/// position lies before it, push it forward if the position lies more than a
/// span beyond it.
pub open spec fn scroll_fix(off: int, pos: int, span: int) -> int {
    let o = if pos < off {
        pos
    } else {
        off
    };
    if pos - o > span {
        pos - span
    } else {
        o
    }
}

/// How many decimal digits a number prints with.
pub open spec fn digit_count(n: nat) -> nat
    decreases n,
{
    if n < 10 {
        1
    } else {
        1 + digit_count((n / 10) as nat)
    }
}

/// Width of the line-number gutter: one separator cell plus the digits of
/// the largest visible line number.
pub open spec fn gutter_spec(ro: int, rows: int, count: int) -> int {
    1 + digit_count(
        (if rows < count - ro {
            ro + rows + 1
        } else {
            count
        }) as nat,
    ) as int
}

/// The whole observable state of an editor session.
pub struct EditorModel {
    pub lines: Seq<Seq<char>>,
    pub hist: Seq<ActionModel>,
    pub hist_index: int,
    pub cx: int,
    pub cy: int,
    pub hx: int,
    pub hy: int,
    pub highlighting: bool,
    pub row_offset: int,
    pub col_offset: int,
    pub rx: int,
    pub screen_rows: int,
    pub screen_cols: int,
    pub left_gutter: int,
    pub bottom_gutter: int,
    pub dirty: bool,
    pub confirm_dirty: bool,
    pub tab: int,
    pub message_v: Option<Seq<char>>,
    pub prompt_active: bool,
    pub prompt_message: Option<Seq<char>>,
    pub prompt_answer: Option<Seq<char>>,
    pub prompt_purpose: Option<EditorPromptPurpose>,
}

/// The state every public operation preserves: a non-empty buffer, the cursor
/// on a real row, the row window around the cursor, and the column offset at
/// or before the rendered cursor.
pub open spec fn model_inv(m: EditorModel) -> bool {
    &&& m.lines.len() >= 1
    &&& 0 <= m.hist_index <= m.hist.len()
    &&& 0 <= m.cy < m.lines.len()
    &&& 0 <= m.cx
    &&& 0 <= m.row_offset <= m.cy
    &&& m.cy <= m.row_offset + m.screen_rows
    &&& 0 <= m.col_offset <= m.rx
    &&& 0 <= m.screen_rows && 0 <= m.screen_cols && 0 <= m.tab
}

/// A value pulled into a closed range.
pub open spec fn snap_into(v: int, lo: int, hi: int) -> int {
    if v < lo {
        lo
    } else if v > hi {
        hi
    } else {
        v
    }
}

/// Entering highlight captures the anchor at the cursor before the move;
/// leaving it only clears the flag.
pub open spec fn arm_highlight(m: EditorModel, with_highlight: bool) -> EditorModel {
    if with_highlight && !m.highlighting {
        EditorModel { hx: m.cx, hy: m.cy, highlighting: true, ..m }
    } else if !with_highlight && m.highlighting {
        EditorModel { highlighting: false, ..m }
    } else {
        m
    }
}

/// A vertical step of `dy` rows: the row clamps into the buffer and the
/// column snaps to the end of the new row if it lay beyond it.
pub open spec fn mv_vert(b: Seq<Seq<char>>, cx: int, cy: int, dy: int) -> (int, int) {
    let ny = if dy < 0 {
        if cy + dy < 0 {
            0
        } else {
            cy + dy
        }
    } else {
        if cy + dy >= b.len() {
            b.len() - 1
        } else {
            cy + dy
        }
    };
    let cl = clean_len_of(b[ny]) as int;
    (
        if cx > cl {
            cl
        } else {
            cx
        },
        ny,
    )
}

/// A horizontal step of `dx` columns: stepping over the start of a line lands
/// at the end of the previous one, stepping past its clean end lands at the
/// start of the next; otherwise the column moves, clamped into the clean
/// content.  Returns the new column, row, and column offset.
pub open spec fn mv_horiz(b: Seq<Seq<char>>, cx: int, cy: int, dx: int, co: int) -> (
    int,
    int,
    int,
) {
    if dx < 0 {
        if cx + dx < 0 && cy > 0 {
            (clean_len_of(b[cy - 1]) as int, cy - 1, co)
        } else {
            (
                if cx + dx < 0 {
                    0
                } else {
                    cx + dx
                },
                cy,
                co,
            )
        }
    } else {
        let cl = clean_len_of(b[cy]) as int;
        if cx + dx > cl {
            if cy < b.len() - 1 {
                (0, cy + 1, 0)
            } else {
                (cl, cy, co)
            }
        } else {
            (cx + dx, cy, co)
        }
    }
}

/// Where a movement request puts the cursor and the offsets, before the
/// viewport is scrolled back around it.
pub open spec fn move_pos(b: Seq<Seq<char>>, m: EditorModel, mv: Movement) -> (
    int,
    int,
    int,
    int,
) {
    match mv {
        Movement::BegFile => (0, 0, 0, 0),
        Movement::EndFile => (m.cx, m.cy, m.row_offset, m.col_offset),
        Movement::Home => (0, m.cy, m.row_offset, 0),
        Movement::End => (
            clean_len_of(b[m.cy]) as int,
            m.cy,
            m.row_offset,
            m.col_offset,
        ),
        Movement::PageUp => {
            let rel = m.cy - m.row_offset;
            let p1 = if m.screen_rows > 0 {
                mv_vert(b, m.cx, m.row_offset, -m.screen_rows)
            } else {
                (m.cx, m.row_offset)
            };
            let rollback = m.row_offset >= m.screen_rows;
            let p2 = if rollback && rel > 0 {
                mv_vert(b, p1.0, p1.1, rel)
            } else {
                p1
            };
            (p2.0, p2.1, m.row_offset, m.col_offset)
        },
        Movement::PageDown => {
            let rel = m.cy - m.row_offset;
            let forced = clamp_row(b, m.row_offset + m.screen_rows);
            let rollback = forced < b.len() - 1;
            let p1 = if m.screen_rows > 0 {
                mv_vert(b, m.cx, forced, m.screen_rows)
            } else {
                (m.cx, forced)
            };
            let back = m.screen_rows - rel;
            let p2 = if rollback && back > 0 {
                mv_vert(b, p1.0, p1.1, -back)
            } else {
                p1
            };
            (p2.0, p2.1, m.row_offset, m.col_offset)
        },
        Movement::ScrollUp(n) => {
            let ro2 = if m.row_offset - n < 0 {
                0
            } else {
                m.row_offset - n
            };
            (m.cx, snap_into(m.cy, ro2, ro2 + m.screen_rows), ro2, m.col_offset)
        },
        Movement::ScrollDown(n) => {
            let ro2 = clamp_row(b, m.row_offset + n);
            (m.cx, snap_into(m.cy, ro2, ro2 + m.screen_rows), ro2, m.col_offset)
        },
        Movement::Absolute(x, y) => {
            let ny = clamp_row(b, y as int);
            let rl = b[ny].len() as int;
            (
                if x > rl {
                    rl
                } else {
                    x as int
                },
                ny,
                m.row_offset,
                m.col_offset,
            )
        },
        Movement::AbsoluteScreen(x, y) => {
            let ny = clamp_row(b, m.row_offset + y);
            let rl = b[ny].len() as int;
            let bx = if m.left_gutter > x {
                0
            } else {
                x - m.left_gutter
            };
            let cap = if rl > 0 {
                rl - 1
            } else {
                0
            };
            (
                if bx > cap {
                    cap
                } else {
                    bx
                },
                ny,
                m.row_offset,
                m.col_offset,
            )
        },
        Movement::Relative(dx, dy) => {
            if dx == 0 && dy != 0 {
                let p = mv_vert(b, m.cx, m.cy, dy as int);
                (p.0, p.1, m.row_offset, m.col_offset)
            } else if dy == 0 && dx != 0 {
                let p = mv_horiz(b, m.cx, m.cy, dx as int, m.col_offset);
                (p.0, p.1, m.row_offset, p.2)
            } else {
                (m.cx, m.cy, m.row_offset, m.col_offset)
            }
        },
    }
}

/// Settle the viewport around a newly placed cursor: recompute the rendered
/// column, pull both offsets back into range, and rebalance the gutter
/// against the screen width.
pub open spec fn place(m: EditorModel, cx: int, cy: int, ro: int, co: int) -> EditorModel {
    let rx = rx_spec(m.lines[cy], cx, m.tab);
    let ro2 = scroll_fix(ro, cy, m.screen_rows);
    let co2 = scroll_fix(co, rx, m.screen_cols);
    let g = gutter_spec(ro2, m.screen_rows, m.lines.len() as int);
    let t = sat_usize(m.screen_cols + m.left_gutter);
    let cols2 = if g > t {
        0
    } else {
        t - g
    };
    EditorModel {
        cx,
        cy,
        row_offset: ro2,
        col_offset: co2,
        rx,
        left_gutter: g,
        screen_cols: cols2,
        ..m
    }
}

/// The full effect of one movement request on the session.
pub open spec fn spec_move_cursor(m: EditorModel, mv: Movement, with_highlight: bool) -> EditorModel {
    let m0 = arm_highlight(m, with_highlight);
    let t = move_pos(m0.lines, m0, mv);
    place(m0, t.0, t.1, t.2, t.3)
}

/// The start of the selection: the lexicographically lower of cursor and
/// anchor, in `(column, row)` form.
pub open spec fn sel_start(m: EditorModel) -> (int, int) {
    if m.cy < m.hy || (m.cy == m.hy && m.cx <= m.hx) {
        (m.cx, m.cy)
    } else {
        (m.hx, m.hy)
    }
}

/// The end of the selection: the other endpoint.
pub open spec fn sel_end(m: EditorModel) -> (int, int) {
    if m.cy < m.hy || (m.cy == m.hy && m.cx <= m.hx) {
        (m.hx, m.hy)
    } else {
        (m.cx, m.cy)
    }
}

/// One editor session: the buffer it owns and the cursor, selection,
/// viewport and prompt state around it.
pub struct Editor {
    bottom_gutter_size: usize,
    buffer: Buffer,
    col_offset: usize,
    confirm_dirty: bool,
    cx: usize,
    cy: usize,
    dirty: bool,
    highlighting: bool,
    hx: usize,
    hy: usize,
    left_gutter_size: usize,
    message: Option<String>,
    prompt: EditorPrompt,
    render_opts: RenderConfig,
    row_offset: usize,
    rx: usize,
    screen_cols: usize,
    screen_rows: usize,
}

/// Rendered width of the raw prefix `line[0..cx)` with tabs expanded to the
/// configured width, clipped to what a `usize` holds.
pub fn convert_cx_to_rx(line: &Line, cx: usize, render_opts: &RenderConfig) -> (rx: usize)
    ensures
        rx == rx_spec(line@, cx as int, render_opts.tab_size as int),
{
    let s = line.get_raw();
    let len = s.unicode_len();
    let p = if cx > len {
        len
    } else {
        cx
    };
    let tab = render_opts.tab_size;
    let mut tabs: usize = 0;
    let mut i: usize = 0;
    while i < p
        invariant
            i <= p <= s@.len(),
            tabs == tab_count(s@.take(i as int)),
            tabs <= i,
        decreases p - i,
    {
        proof {
            assert(s@.take(i + 1).drop_last() =~= s@.take(i as int));
            assert(s@.take(i + 1).last() == s@[i as int]);
        }
        if s.get_char(i) == '\t' {
            tabs = tabs + 1;
        }
        i = i + 1;
    }
    proof {
        lemma_render_len(s@.take(p as int), tab as nat);
    }
    let base = p - tabs;
    match tab.checked_mul(tabs) {
        Some(prod) => match base.checked_add(prod) {
            Some(v) => v,
            None => usize::MAX,
        },
        None => {
            proof {
                assert(tab * tabs > usize::MAX);
                assert(base + tab * tabs > usize::MAX);
            }
            usize::MAX
        },
    }
}

/// Relies on `chrono::Local::now` for the wall-clock prefix of a status
/// message; the result depends on the clock, so nothing is promised of it.
#[verifier::external_body]
fn timestamped(text: &str) -> String {
    format!("{}: {}", chrono::Local::now().format("%I:%M:%S %P"), text)
}

impl Editor {
    /// The session's observable state.
    pub closed spec fn m(&self) -> EditorModel {
        EditorModel {
            lines: self.buffer.lines_model(),
            hist: self.buffer.hist_model(),
            hist_index: self.buffer.hist_index(),
            cx: self.cx as int,
            cy: self.cy as int,
            hx: self.hx as int,
            hy: self.hy as int,
            highlighting: self.highlighting,
            row_offset: self.row_offset as int,
            col_offset: self.col_offset as int,
            rx: self.rx as int,
            screen_rows: self.screen_rows as int,
            screen_cols: self.screen_cols as int,
            left_gutter: self.left_gutter_size as int,
            bottom_gutter: self.bottom_gutter_size as int,
            dirty: self.dirty,
            confirm_dirty: self.confirm_dirty,
            tab: self.render_opts.tab_size as int,
            message_v: (match self.message {
                Some(ref s) => Some(s@),
                None => None,
            }),
            prompt_active: self.prompt.active_spec(),
            prompt_message: self.prompt.message_view(),
            prompt_answer: self.prompt.answer_view(),
            prompt_purpose: self.prompt.purpose_spec(),
        }
    }

    pub open spec fn inv(&self) -> bool {
        model_inv(self.m())
    }

    /// The clean length of a buffer line.
    fn clean_len_at(&self, row: usize) -> (n: usize)
        requires
            row < self.m().lines.len(),
        ensures
            n == clean_len_of(self.m().lines[row as int]),
    {
        match self.buffer.get_line(row) {
            Some(l) => l.clean_len(),
            None => 0,
        }
    }

    /// The raw length of a buffer line.
    fn raw_len_at(&self, row: usize) -> (n: usize)
        requires
            row < self.m().lines.len(),
        ensures
            n == self.m().lines[row as int].len(),
    {
        match self.buffer.get_line(row) {
            Some(l) => l.char_len(),
            None => 0,
        }
    }

    /// Recompute the rendered cursor column and pull both scroll offsets back
    /// around the cursor.
    fn scroll(&mut self)
        requires
            old(self).m().lines.len() >= 1,
            0 <= old(self).m().cy < old(self).m().lines.len(),
        ensures
            final(self).m() == ({
                let m = old(self).m();
                let rx = rx_spec(m.lines[m.cy], m.cx, m.tab);
                (EditorModel {
                    rx,
                    row_offset: scroll_fix(m.row_offset, m.cy, m.screen_rows),
                    col_offset: scroll_fix(m.col_offset, rx, m.screen_cols),
                    ..m
                })
            }),
    {
        let rx = match self.buffer.get_line(self.cy) {
            Some(l) => convert_cx_to_rx(l, self.cx, &self.render_opts),
            None => 0,
        };
        self.rx = rx;
        if self.rx < self.col_offset {
            self.col_offset = self.rx;
        }
        if self.rx - self.col_offset > self.screen_cols {
            self.col_offset = self.rx - self.screen_cols;
        }
        if self.cy < self.row_offset {
            self.row_offset = self.cy;
        }
        if self.cy - self.row_offset > self.screen_rows {
            self.row_offset = self.cy - self.screen_rows;
        }
    }

    /// Recompute the gutter for the visible rows and give the width gained or
    /// lost back to the text area, keeping the total terminal width fixed.
    fn update_left_gutter(&mut self)
        requires
            old(self).m().lines.len() >= 1,
        ensures
            final(self).m() == ({
                let m = old(self).m();
                let g = gutter_spec(m.row_offset, m.screen_rows, m.lines.len() as int);
                let t = sat_usize(m.screen_cols + m.left_gutter);
                (EditorModel {
                    left_gutter: g,
                    screen_cols: if g > t {
                        0
                    } else {
                        t - g
                    },
                    ..m
                })
            }),
    {
        let count = self.buffer.get_line_count();
        let new_gutter = Self::calculate_left_gutter(self.row_offset, self.screen_rows, count);
        let total = self.screen_cols.saturating_add(self.left_gutter_size);
        self.screen_cols = if new_gutter > total {
            0
        } else {
            total - new_gutter
        };
        self.left_gutter_size = new_gutter;
    }

    /// Decimal digit count of a line number.
    fn digits(n: usize) -> (d: usize)
        ensures
            d == digit_count(n as nat),
            1 <= d <= 20,
    {
        let ghost n0 = n;
        proof {
            lemma_digit_count_bound(n0 as nat);
        }
        let mut n = n;
        let mut d: usize = 1;
        while n >= 10
            invariant
                1 <= d <= 20,
                d + digit_count(n as nat) == digit_count(n0 as nat) + 1,
                digit_count(n0 as nat) <= 20,
            decreases n,
        {
            proof {
                assert(digit_count(n as nat) == 1 + digit_count((n / 10) as nat));
                assert(digit_count((n / 10) as nat) >= 1);
            }
            n = n / 10;
            d = d + 1;
        }
        d
    }

    /// One separator cell plus the digits of the largest visible line number.
    fn calculate_left_gutter(row_offset: usize, screen_rows: usize, rows: usize) -> (g: usize)
        requires
            rows >= 1,
        ensures
            g == gutter_spec(row_offset as int, screen_rows as int, rows as int),
    {
        let m = if screen_rows < rows && row_offset < rows - screen_rows {
            row_offset + screen_rows + 1
        } else {
            rows
        };
        1 + Self::digits(m)
    }

    /// Rows reserved under the text: the file status line and the prompt line.
    fn calculate_bottom_gutter() -> (n: usize)
        ensures
            n == 2,
    {
        2
    }

    /// Step the cursor up `mag` rows.
    fn vert_up(&mut self, mag: usize)
        requires
            old(self).m().lines.len() >= 1,
            0 <= old(self).m().cy < old(self).m().lines.len(),
        ensures
            final(self).m() == ({
                let m = old(self).m();
                let p = mv_vert(m.lines, m.cx, m.cy, -(mag as int));
                (EditorModel { cx: p.0, cy: p.1, ..m })
            }),
    {
        let ny = if mag > self.cy {
            0
        } else {
            self.cy - mag
        };
        let cl = self.clean_len_at(ny);
        self.cy = ny;
        if self.cx > cl {
            self.cx = cl;
        }
    }

    /// Step the cursor down `mag` rows, clamping at the last line.
    fn vert_down(&mut self, mag: usize)
        requires
            old(self).m().lines.len() >= 1,
            mag >= 1 || 0 <= old(self).m().cy < old(self).m().lines.len(),
        ensures
            final(self).m() == ({
                let m = old(self).m();
                let p = mv_vert(m.lines, m.cx, m.cy, mag as int);
                (EditorModel { cx: p.0, cy: p.1, ..m })
            }),
    {
        let count = self.buffer.get_line_count();
        let ny = match self.cy.checked_add(mag) {
            Some(v) => {
                if v >= count {
                    count - 1
                } else {
                    v
                }
            },
            None => count - 1,
        };
        let cl = self.clean_len_at(ny);
        self.cy = ny;
        if self.cx > cl {
            self.cx = cl;
        }
    }

    /// Step the cursor left `mag` columns, wrapping to the end of the
    /// previous line when it runs off the start.
    fn horiz_left(&mut self, mag: usize)
        requires
            old(self).m().lines.len() >= 1,
            0 <= old(self).m().cy < old(self).m().lines.len(),
            mag >= 1,
        ensures
            final(self).m() == ({
                let m = old(self).m();
                let p = mv_horiz(m.lines, m.cx, m.cy, -(mag as int), m.col_offset);
                (EditorModel { cx: p.0, cy: p.1, col_offset: p.2, ..m })
            }),
    {
        if mag > self.cx {
            if self.cy > 0 {
                let ny = self.cy - 1;
                let cl = self.clean_len_at(ny);
                self.cy = ny;
                self.cx = cl;
            } else {
                self.cx = 0;
            }
        } else {
            self.cx = self.cx - mag;
        }
    }

    /// Step the cursor right `mag` columns, wrapping to the start of the next
    /// line when it runs past the clean end.
    fn horiz_right(&mut self, mag: usize)
        requires
            old(self).m().lines.len() >= 1,
            0 <= old(self).m().cy < old(self).m().lines.len(),
            mag >= 1,
        ensures
            final(self).m() == ({
                let m = old(self).m();
                let p = mv_horiz(m.lines, m.cx, m.cy, mag as int, m.col_offset);
                (EditorModel { cx: p.0, cy: p.1, col_offset: p.2, ..m })
            }),
    {
        let cl = self.clean_len_at(self.cy);
        let count = self.buffer.get_line_count();
        let over = match self.cx.checked_add(mag) {
            Some(s) => s > cl,
            None => true,
        };
        if over {
            if self.cy + 1 < count {
                self.cy = self.cy + 1;
                self.cx = 0;
                self.col_offset = 0;
            } else {
                self.cx = cl;
            }
        } else {
            self.cx = self.cx + mag;
        }
    }

    /// Apply one movement request: arm or drop the selection, move the
    /// cursor by the request's rule, then settle the viewport around it.
    /// While a prompt is active the cursor belongs to the prompt and nothing
    /// moves.
    pub fn move_cursor(&mut self, pos: Movement, with_highlight: bool)
        requires
            old(self).inv(),
        ensures
            final(self).inv(),
            old(self).m().prompt_active ==> final(self).m() == old(self).m(),
            !old(self).m().prompt_active ==> final(self).m() == spec_move_cursor(
                old(self).m(),
                pos,
                with_highlight,
            ),
    {
        if self.prompt.is_active() {
            return ;
        }
        if with_highlight && !self.highlighting {
            self.hx = self.cx;
            self.hy = self.cy;
            self.highlighting = true;
        } else if !with_highlight && self.highlighting {
            self.highlighting = false;
        }
        let ghost m0 = self.m();
        let ghost t = move_pos(m0.lines, m0, pos);
        proof {
            assert(m0 == arm_highlight(old(self).m(), with_highlight));
        }
        self.apply_move(pos);
        self.scroll();
        self.update_left_gutter();
        proof {
            assert(self.m() == place(m0, t.0, t.1, t.2, t.3));
        }
    }

    /// Put the cursor and the offsets where one movement request says,
    /// leaving the viewport to be settled afterwards.
    #[verifier::rlimit(100)]
    fn apply_move(&mut self, pos: Movement)
        requires
            old(self).inv(),
        ensures
            final(self).m() == ({
                let m = old(self).m();
                let t = move_pos(m.lines, m, pos);
                (EditorModel { cx: t.0, cy: t.1, row_offset: t.2, col_offset: t.3, ..m })
            }),
            final(self).m().lines.len() >= 1,
            0 <= final(self).m().cy < final(self).m().lines.len(),
    {
        let ghost m0 = self.m();
        let ghost t = move_pos(m0.lines, m0, pos);
        match pos {
            Movement::BegFile => {
                self.col_offset = 0;
                self.cx = 0;
                self.cy = 0;
                self.row_offset = 0;
            },
            Movement::EndFile => {},
            Movement::Home => {
                self.col_offset = 0;
                self.cx = 0;
            },
            Movement::End => {
                let cl = self.clean_len_at(self.cy);
                self.cx = cl;
            },
            Movement::PageUp => {
                let rel = self.cy - self.row_offset;
                self.cy = self.row_offset;
                let rollback = self.row_offset >= self.screen_rows;
                if self.screen_rows > 0 {
                    let sr = self.screen_rows;
                    self.vert_up(sr);
                }
                if rollback && rel > 0 {
                    self.vert_down(rel);
                }
            },
            Movement::PageDown => {
                let rel = self.cy - self.row_offset;
                let count = self.buffer.get_line_count();
                let forced = match self.row_offset.checked_add(self.screen_rows) {
                    Some(v) => {
                        if v >= count {
                            count - 1
                        } else {
                            v
                        }
                    },
                    None => count - 1,
                };
                let rollback = forced < count - 1;
                self.cy = forced;
                if self.screen_rows > 0 {
                    let sr = self.screen_rows;
                    self.vert_down(sr);
                }
                if rollback && self.screen_rows > rel {
                    let back = self.screen_rows - rel;
                    self.vert_up(back);
                }
            },
            Movement::ScrollUp(n) => {
                let ro2 = if n > self.row_offset {
                    0
                } else {
                    self.row_offset - n
                };
                self.row_offset = ro2;
                let hi = ro2.saturating_add(self.screen_rows);
                if self.cy < ro2 {
                    self.cy = ro2;
                } else if self.cy > hi {
                    self.cy = hi;
                }
            },
            Movement::ScrollDown(n) => {
                let count = self.buffer.get_line_count();
                let ro2 = match self.row_offset.checked_add(n) {
                    Some(v) => {
                        if v >= count {
                            count - 1
                        } else {
                            v
                        }
                    },
                    None => count - 1,
                };
                self.row_offset = ro2;
                let hi = ro2.saturating_add(self.screen_rows);
                if self.cy < ro2 {
                    self.cy = ro2;
                } else if self.cy > hi {
                    self.cy = hi;
                }
            },
            Movement::Absolute(x, y) => {
                let count = self.buffer.get_line_count();
                let ny = if y >= count {
                    count - 1
                } else {
                    y
                };
                let rl = self.raw_len_at(ny);
                self.cy = ny;
                self.cx = if x > rl {
                    rl
                } else {
                    x
                };
            },
            Movement::AbsoluteScreen(x, y) => {
                let count = self.buffer.get_line_count();
                let ny = match self.row_offset.checked_add(y) {
                    Some(v) => {
                        if v >= count {
                            count - 1
                        } else {
                            v
                        }
                    },
                    None => count - 1,
                };
                let rl = self.raw_len_at(ny);
                let bx = if self.left_gutter_size > x {
                    0
                } else {
                    x - self.left_gutter_size
                };
                let cap = if rl > 0 {
                    rl - 1
                } else {
                    0
                };
                self.cy = ny;
                self.cx = if bx > cap {
                    cap
                } else {
                    bx
                };
            },
            Movement::Relative(dx, dy) => {
                if dx == 0 && dy != 0 {
                    if dy < 0 {
                        let mag = neg_mag(dy);
                        self.vert_up(mag);
                    } else {
                        self.vert_down(dy as usize);
                    }
                } else if dy == 0 && dx != 0 {
                    if dx < 0 {
                        let mag = neg_mag(dx);
                        self.horiz_left(mag);
                    } else {
                        self.horiz_right(dx as usize);
                    }
                }
            },
        }
        proof {
            assert(self.m() == (EditorModel {
                cx: t.0,
                cy: t.1,
                row_offset: t.2,
                col_offset: t.3,
                ..m0
            }));
        }
    }

    /// A fresh session showing the greeting line, sized to the terminal.
    pub fn new(rows: usize, cols: usize) -> (e: Editor)
        ensures
            e.inv(),
            e.m() == spec_resize(
                (EditorModel {
                    lines: seq![("Redit version 0.1.0")@],
                    hist: Seq::empty(),
                    hist_index: 0,
                    cx: 0,
                    cy: 0,
                    hx: 0,
                    hy: 0,
                    highlighting: false,
                    row_offset: 0,
                    col_offset: 0,
                    rx: 0,
                    screen_rows: 0,
                    screen_cols: 0,
                    left_gutter: 0,
                    bottom_gutter: 0,
                    dirty: false,
                    confirm_dirty: false,
                    tab: 4,
                    message_v: None,
                    prompt_active: false,
                    prompt_message: None,
                    prompt_answer: None,
                    prompt_purpose: None,
                }),
                cols as int,
                rows as int,
            ),
    {
        let greeting = String::from_str("Redit version 0.1.0");
        let mut e = Editor {
            bottom_gutter_size: 0,
            buffer: Buffer::new(vec![Line::new(greeting)]),
            col_offset: 0,
            confirm_dirty: false,
            cx: 0,
            cy: 0,
            dirty: false,
            highlighting: false,
            hx: 0,
            hy: 0,
            left_gutter_size: 0,
            message: None,
            prompt: EditorPrompt::default(),
            render_opts: RenderConfig::default(),
            row_offset: 0,
            rx: 0,
            screen_cols: 0,
            screen_rows: 0,
        };
        proof {
            assert(e.m().lines =~= seq![("Redit version 0.1.0")@]);
        }
        e.resize(cols, rows);
        e
    }

    /// Fit the session to a new terminal size: reserve the bottom gutter,
    /// recompute the line-number gutter, give the rest to the text area, and
    /// pull the viewport back around the cursor.
    pub fn resize(&mut self, width: usize, height: usize)
        requires
            old(self).inv(),
        ensures
            final(self).inv(),
            final(self).m() == spec_resize(old(self).m(), width as int, height as int),
    {
        let bottom_gutter_size = Self::calculate_bottom_gutter();
        self.screen_rows = if height > bottom_gutter_size {
            height - bottom_gutter_size
        } else {
            0
        };
        let count = self.buffer.get_line_count();
        self.left_gutter_size = Self::calculate_left_gutter(
            self.row_offset,
            self.screen_rows,
            count,
        );
        self.screen_cols = if width > self.left_gutter_size {
            width - self.left_gutter_size
        } else {
            0
        };
        self.scroll();
    }

    /// Note that the buffer no longer matches the file.
    fn make_dirty(&mut self)
        ensures
            final(self).m() == spec_make_dirty(old(self).m()),
    {
        if self.confirm_dirty {
            self.message = None;
        }
        self.dirty = true;
        self.confirm_dirty = false;
    }

    /// Show a timestamped status message.
    fn set_message(&mut self, text: &str)
        ensures
            final(self).m() == (EditorModel {
                message_v: final(self).m().message_v,
                ..old(self).m()
            }),
            final(self).m().message_v is Some,
    {
        self.message = Some(timestamped(text));
    }

    /// Type one character: while a prompt is active it goes to the prompt,
    /// otherwise it enters the buffer at the cursor, is logged, and the
    /// cursor steps over it.
    pub fn write_char(&mut self, c: char)
        requires
            old(self).inv(),
        ensures
            final(self).inv(),
            old(self).m().prompt_active ==> final(self).m() == (EditorModel {
                prompt_answer: Some(
                    match old(self).m().prompt_answer {
                        Some(a) => a.push(c),
                        None => seq![c],
                    },
                ),
                ..old(self).m()
            }),
            !old(self).m().prompt_active ==> final(self).m() == spec_write_char(old(self).m(), c),
    {
        if self.prompt.is_active() {
            self.prompt.add_char(c);
        } else if self.cy < self.buffer.get_line_count() {
            self.buffer.insert_char(self.cy, self.cx, c, true);
            self.move_cursor(Movement::Relative(1, 0), false);
            self.make_dirty();
        }
    }

    /// Remove the normalized selection from the buffer and put the cursor at
    /// its start.
    #[verifier::rlimit(100)]
    fn remove_highlight(&mut self)
        requires
            old(self).inv(),
        ensures
            final(self).inv(),
            final(self).m() == spec_remove_highlight(old(self).m()),
    {
        if self.cy < self.hy || (self.cy == self.hy && self.cx <= self.hx) {
            self.buffer.remove_region((self.cx, self.cy), (self.hx, self.hy), true);
        } else {
            self.buffer.remove_region((self.hx, self.hy), (self.cx, self.cy), true);
            let ghost m1 = self.m();
            let ghost t = move_pos(m1.lines, arm_highlight(m1, false), Movement::Absolute(self.hx, self.hy));
            // The cursor may now lie past the shrunk buffer, so the move back
            // to the anchor is spelled out here rather than requested.
            if self.highlighting {
                self.highlighting = false;
            }
            let count = self.buffer.get_line_count();
            let ny = if self.hy >= count {
                count - 1
            } else {
                self.hy
            };
            let rl = self.raw_len_at(ny);
            self.cy = ny;
            self.cx = if self.hx > rl {
                rl
            } else {
                self.hx
            };
            proof {
                assert(self.m() == (EditorModel {
                    cx: t.0,
                    cy: t.1,
                    row_offset: t.2,
                    col_offset: t.3,
                    ..arm_highlight(m1, false)
                }));
            }
            self.scroll();
            self.update_left_gutter();
            proof {
                assert(self.m() == spec_move_cursor(
                    m1,
                    Movement::Absolute(old(self).hx, old(self).hy),
                    false,
                ));
            }
        }
    }

    /// Forward delete: with a selection, the selection goes; without one, the
    /// character under the cursor goes or the next line merges in.
    pub fn delete_char(&mut self)
        requires
            old(self).inv(),
        ensures
            final(self).inv(),
            old(self).m().prompt_active ==> final(self).m() == old(self).m(),
            !old(self).m().prompt_active && old(self).m().highlighting ==> final(self).m()
                == spec_delete_selection(old(self).m()),
            !old(self).m().prompt_active && !old(self).m().highlighting ==> final(self).m()
                == spec_delete_at_cursor(old(self).m()),
    {
        if self.prompt.is_active() {
            return ;
        }
        if self.highlighting {
            self.remove_highlight();
            self.highlighting = false;
            self.make_dirty();
            self.scroll();
            self.update_left_gutter();
        } else if self.cy < self.buffer.get_line_count() {
            let changed = self.buffer.delete_char(self.cy, self.cx, true);
            if changed {
                self.make_dirty();
                self.scroll();
                self.update_left_gutter();
            }
        }
    }

    /// Backspace: step back one place, then delete forward there.
    pub fn backspace_char(&mut self)
        requires
            old(self).inv(),
        ensures
            final(self).inv(),
            old(self).m().prompt_active ==> final(self).m() == (EditorModel {
                prompt_answer: (match old(self).m().prompt_answer {
                    Some(a) => Some(
                        if a.len() > 0 {
                            a.drop_last()
                        } else {
                            a
                        },
                    ),
                    None => None,
                }),
                ..old(self).m()
            }),
            !old(self).m().prompt_active && (old(self).m().cx > 0 || old(self).m().cy > 0)
                ==> final(self).m() == spec_delete_at_cursor(
                spec_move_cursor(old(self).m(), Movement::Relative(-1isize, 0isize), false),
            ),
            !old(self).m().prompt_active && old(self).m().cx == 0 && old(self).m().cy == 0
                ==> final(self).m() == old(self).m(),
    {
        if self.prompt.is_active() {
            self.prompt.remove_char();
        } else if self.cx > 0 || self.cy > 0 {
            self.move_cursor(Movement::Relative(-1, 0), false);
            self.delete_char();
        }
    }

    /// The Enter key: with a prompt active its submission is the embedding
    /// application's affair and nothing changes here; otherwise any selection
    /// is removed, the line splits at the cursor, and the cursor moves to the
    /// start of the new line.
    pub fn do_return(&mut self)
        requires
            old(self).inv(),
        ensures
            final(self).inv(),
            old(self).m().prompt_active ==> final(self).m() == old(self).m(),
            !old(self).m().prompt_active ==> final(self).m() == spec_do_return(old(self).m()),
    {
        if self.prompt.is_active() {
            return ;
        }
        if self.highlighting {
            self.remove_highlight();
            self.highlighting = false;
            self.make_dirty();
        }
        if self.cy < self.buffer.get_line_count() {
            self.buffer.split_line(self.cy, self.cx, true);
            self.move_cursor(Movement::Relative(0, 1), false);
            self.move_cursor(Movement::Home, false);
            self.make_dirty();
        }
    }

    /// The selected text, without touching the buffer; empty when nothing is
    /// selected.
    pub fn copy(&mut self) -> (clipboard: Vec<Line>)
        requires
            old(self).inv(),
        ensures
            final(self).inv(),
            final(self).m() == old(self).m(),
            old(self).m().highlighting ==> lines_view(clipboard@) == spec_get_region(
                old(self).m().lines,
                sel_start(old(self).m()),
                sel_end(old(self).m()),
            ),
            !old(self).m().highlighting ==> clipboard@.len() == 0,
    {
        if self.highlighting {
            if self.cy < self.hy || (self.cy == self.hy && self.cx <= self.hx) {
                self.buffer.get_region((self.cx, self.cy), (self.hx, self.hy))
            } else {
                self.buffer.get_region((self.hx, self.hy), (self.cx, self.cy))
            }
        } else {
            Vec::new()
        }
    }

    /// The selected text; the selection then leaves the buffer.
    pub fn cut(&mut self) -> (clipboard: Vec<Line>)
        requires
            old(self).inv(),
        ensures
            final(self).inv(),
            old(self).m().highlighting ==> lines_view(clipboard@) == spec_get_region(
                old(self).m().lines,
                sel_start(old(self).m()),
                sel_end(old(self).m()),
            ) && final(self).m() == spec_delete_selection(old(self).m()),
            !old(self).m().highlighting ==> clipboard@.len() == 0 && final(self).m() == old(
                self,
            ).m(),
    {
        let clipboard = self.copy();
        if self.highlighting {
            self.remove_highlight();
            self.highlighting = false;
            self.make_dirty();
            self.scroll();
            self.update_left_gutter();
        }
        clipboard
    }

    /// Insert a held region at the cursor, any active selection first making
    /// way, and put the cursor after what was inserted.
    #[verifier::rlimit(100)]
    pub fn paste(&mut self, clipboard: &Option<Vec<Line>>)
        requires
            old(self).inv(),
        ensures
            final(self).inv(),
            clipboard is None ==> final(self).m() == old(self).m(),
            (match clipboard {
                Some(cb) => final(self).m() == spec_paste(old(self).m(), lines_view(cb@)),
                None => true,
            }),
    {
        if let Some(cb) = clipboard {
            let ghost m0 = self.m();
            let ghost ins = lines_view(cb@);
            if self.highlighting {
                self.remove_highlight();
                self.highlighting = false;
            }
            let ghost m1 = self.m();
            proof {
                assert(m1 == (if m0.highlighting {
                    EditorModel { highlighting: false, ..spec_remove_highlight(m0) }
                } else {
                    m0
                }));
            }
            proof {
                assert(m1.cy < m1.lines.len());
            }
            if self.cy < self.buffer.get_line_count() {
                let new_pos = self.buffer.insert_region((self.cx, self.cy), cb.as_slice(), true);
                let ghost m2g = self.m();
                proof {
                    let h2 = m1.hist.take(m1.hist_index).push(
                        ActionModel::MInsertRegion(
                            clamp_pos(m1.lines, (m1.cx, m1.cy)).0,
                            clamp_pos(m1.lines, (m1.cx, m1.cy)).1,
                            ins,
                        ),
                    );
                    assert(m2g == (EditorModel {
                        lines: spec_insert_region(m1.lines, (m1.cx, m1.cy), ins),
                        hist: h2,
                        hist_index: h2.len() as int,
                        ..m1
                    }));
                }
                self.move_cursor(Movement::Absolute(new_pos.0, new_pos.1), false);
                proof {
                    let pos_s = spec_insert_region_pos(m1.lines, (m1.cx, m1.cy), ins);
                    assert(new_pos.0 as int == pos_s.0 && new_pos.1 as int == pos_s.1);
                    assert(Movement::Absolute(new_pos.0, new_pos.1) == Movement::Absolute(
                        pos_s.0 as usize,
                        pos_s.1 as usize,
                    ));
                    assert(self.m() == (if m2g.prompt_active {
                        m2g
                    } else {
                        spec_move_cursor(
                            m2g,
                            Movement::Absolute(pos_s.0 as usize, pos_s.1 as usize),
                            false,
                        )
                    }));
                }
            }
            self.make_dirty();
        }
    }

    /// Step the history back one edit and settle the viewport.
    pub fn undo(&mut self)
        requires
            old(self).inv(),
        ensures
            final(self).inv(),
            final(self).m() == spec_undo_session(old(self).m()),
    {
        self.buffer.undo();
        let count = self.buffer.get_line_count();
        if self.cy >= count {
            self.cy = count - 1;
        }
        self.scroll();
        self.update_left_gutter();
    }

    /// Step the history forward one edit and settle the viewport.
    pub fn redo(&mut self)
        requires
            old(self).inv(),
        ensures
            final(self).inv(),
            final(self).m() == spec_redo_session(old(self).m()),
    {
        self.buffer.redo();
        let count = self.buffer.get_line_count();
        if self.cy >= count {
            self.cy = count - 1;
        }
        self.scroll();
        self.update_left_gutter();
    }

    /// Whether the session may close: an unsaved buffer asks once for
    /// confirmation and refuses, a clean or confirmed one agrees.
    pub fn try_quit(&mut self) -> (r: bool)
        requires
            old(self).inv(),
        ensures
            final(self).inv(),
            r == (!old(self).m().dirty || old(self).m().confirm_dirty),
            r ==> final(self).m() == old(self).m(),
            !r ==> final(self).m() == (EditorModel {
                confirm_dirty: true,
                message_v: final(self).m().message_v,
                ..old(self).m()
            }) && final(self).m().message_v is Some,
    {
        if !self.dirty || self.confirm_dirty {
            true
        } else {
            self.confirm_dirty = true;
            self.set_message("Press Ctrl-q again to quit");
            false
        }
    }

    /// Start the open-file prompt; an unsaved buffer asks once for
    /// confirmation first.
    pub fn open(&mut self)
        requires
            old(self).inv(),
        ensures
            final(self).inv(),
            (!old(self).m().dirty || old(self).m().confirm_dirty) ==> final(self).m()
                == (EditorModel {
                prompt_active: true,
                prompt_message: Some(("File to open")@),
                prompt_answer: None,
                prompt_purpose: Some(EditorPromptPurpose::Open),
                ..old(self).m()
            }),
            (old(self).m().dirty && !old(self).m().confirm_dirty) ==> final(self).m()
                == (EditorModel {
                confirm_dirty: true,
                message_v: final(self).m().message_v,
                ..old(self).m()
            }) && final(self).m().message_v is Some,
    {
        if !self.dirty || self.confirm_dirty {
            self.prompt = EditorPrompt::new(
                String::from_str("File to open"),
                Some(EditorPromptPurpose::Open),
            );
        } else {
            self.confirm_dirty = true;
            self.set_message("Press Ctrl-o again to open a file");
        }
    }

    /// Dismiss the prompt, any pending confirmation, and the status message.
    pub fn cancel_prompt(&mut self)
        requires
            old(self).inv(),
        ensures
            final(self).inv(),
            final(self).m() == (EditorModel {
                confirm_dirty: false,
                prompt_active: false,
                prompt_answer: None,
                prompt_message: None,
                message_v: None,
                ..old(self).m()
            }),
    {
        self.confirm_dirty = false;
        self.prompt.exit();
        self.message = None;
    }

    /// Replace the buffer with freshly loaded lines: the history starts over,
    /// the buffer counts as clean, and the cursor is pulled back inside.
    pub fn load_lines(&mut self, lines: Vec<Line>)
        requires
            old(self).inv(),
        ensures
            final(self).inv(),
            final(self).m() == (EditorModel {
                message_v: final(self).m().message_v,
                ..({
                    let m = old(self).m();
                    let b2 = if lines_view(lines@).len() > 0 {
                        lines_view(lines@)
                    } else {
                        seq![Seq::<char>::empty()]
                    };
                    let cy2 = if m.cy >= b2.len() {
                        b2.len() - 1
                    } else {
                        m.cy
                    };
                    let m1 = EditorModel {
                        lines: b2,
                        hist: Seq::empty(),
                        hist_index: 0,
                        dirty: false,
                        confirm_dirty: false,
                        ..m
                    };
                    place(m1, m.cx, cy2, m.row_offset, m.col_offset)
                })
            }),
            final(self).m().message_v is Some,
    {
        self.buffer = Buffer::new(lines);
        let count = self.buffer.get_line_count();
        if self.cy >= count {
            self.cy = count - 1;
        }
        self.dirty = false;
        self.confirm_dirty = false;
        self.scroll();
        self.update_left_gutter();
        self.set_message("File opened.");
    }

    /// Note that the buffer now matches the file on disk.
    pub fn mark_saved(&mut self)
        requires
            old(self).inv(),
        ensures
            final(self).inv(),
            final(self).m() == (EditorModel {
                dirty: false,
                confirm_dirty: false,
                message_v: final(self).m().message_v,
                ..old(self).m()
            }),
            final(self).m().message_v is Some,
    {
        self.dirty = false;
        self.confirm_dirty = false;
        self.set_message("File saved.");
    }

    /// Exact byte-for-byte reconstruction of the buffer.
    pub fn get_all(&self) -> (r: String)
        requires
            self.inv(),
        ensures
            r@ == self.m().lines.flatten(),
    {
        self.buffer.get_all()
    }

    /// Where the terminal cursor belongs: inside the text area relative to
    /// the scroll offsets and past the gutter, or at the end of the prompt
    /// line while a prompt is active.
    pub fn get_rel_cursor(&self) -> (r: (u16, u16))
        requires
            self.inv(),
        ensures
            !self.m().prompt_active ==> r.0 == ((sat_usize(
                self.m().rx - self.m().col_offset + self.m().left_gutter,
            ) as usize) as u16) && r.1 == (((self.m().cy - self.m().row_offset) as usize) as u16),
            self.m().prompt_active ==> ({
                let ml = (match self.m().message_v {
                    Some(s) => sat_usize(s.len() as int + 12),
                    None => 14int,
                });
                let pt = (match self.m().prompt_message {
                    Some(pm) => pm.len() as int + 2,
                    None => 0int,
                }) + (match self.m().prompt_answer {
                    Some(a) => a.len() as int,
                    None => 0int,
                });
                let pl = ((sat_usize(pt) as usize) as u16) as int;
                r.0 == ((sat_usize(ml + pl) as usize) as u16) && r.1 == ((sat_usize(
                    self.m().screen_rows + 2,
                ) as usize) as u16)
            }),
    {
        if !self.prompt.is_active() {
            let a = (self.rx - self.col_offset).saturating_add(self.left_gutter_size);
            let b = self.cy - self.row_offset;
            let r0 = #[verifier::truncate] (a as u16);
            let r1 = #[verifier::truncate] (b as u16);
            (r0, r1)
        } else {
            let ml: usize = match &self.message {
                Some(msg) => msg.as_str().unicode_len().saturating_add(12),
                None => 14,
            };
            let pl = self.prompt.get_length();
            let x = ml.saturating_add(pl as usize);
            let y = self.screen_rows.saturating_add(2);
            let r0 = #[verifier::truncate] (x as u16);
            let r1 = #[verifier::truncate] (y as u16);
            (r0, r1)
        }
    }

    pub fn get_line(&self, line_index: usize) -> (r: Option<&Line>)
        ensures
            line_index < self.m().lines.len() ==> match r {
                Some(l) => l@ == self.m().lines[line_index as int],
                None => false,
            },
            line_index >= self.m().lines.len() ==> r is None,
    {
        self.buffer.get_line(line_index)
    }

    pub fn get_line_count(&self) -> (n: usize)
        ensures
            n == self.m().lines.len(),
    {
        self.buffer.get_line_count()
    }

    /// One line as it is shown, tabs expanded.
    pub fn render_line(&self, line_index: usize) -> (r: Option<String>)
        ensures
            line_index < self.m().lines.len() ==> match r {
                Some(s) => s@ == render_of(
                    clean_of(self.m().lines[line_index as int]),
                    self.m().tab as nat,
                ),
                None => false,
            },
            line_index >= self.m().lines.len() ==> r is None,
    {
        match self.buffer.get_line(line_index) {
            Some(l) => Some(l.render(&self.render_opts)),
            None => None,
        }
    }

    /// The logical cursor, as `(column, row)`.
    pub fn get_cursor(&self) -> (r: (usize, usize))
        ensures
            r.0 == self.m().cx,
            r.1 == self.m().cy,
    {
        (self.cx, self.cy)
    }

    /// The selection anchor, as `(column, row)`; meaningful only while
    /// highlighting.
    pub fn get_anchor(&self) -> (r: (usize, usize))
        ensures
            r.0 == self.m().hx,
            r.1 == self.m().hy,
    {
        (self.hx, self.hy)
    }

    pub fn is_highlighting(&self) -> (r: bool)
        ensures
            r == self.m().highlighting,
    {
        self.highlighting
    }

    pub fn is_dirty(&self) -> (r: bool)
        ensures
            r == self.m().dirty,
    {
        self.dirty
    }

    pub fn get_row_offset(&self) -> (r: usize)
        ensures
            r == self.m().row_offset,
    {
        self.row_offset
    }

    pub fn get_col_offset(&self) -> (r: usize)
        ensures
            r == self.m().col_offset,
    {
        self.col_offset
    }

    pub fn get_screen_rows(&self) -> (r: usize)
        ensures
            r == self.m().screen_rows,
    {
        self.screen_rows
    }

    pub fn get_screen_cols(&self) -> (r: usize)
        ensures
            r == self.m().screen_cols,
    {
        self.screen_cols
    }

    pub fn get_left_gutter_size(&self) -> (r: usize)
        ensures
            r == self.m().left_gutter,
    {
        self.left_gutter_size
    }

    pub fn get_tab_size(&self) -> (r: usize)
        ensures
            r == self.m().tab,
    {
        self.render_opts.tab_size
    }

    pub fn get_message(&self) -> (r: Option<&String>)
        ensures
            match r {
                Some(s) => self.m().message_v == Some(s@),
                None => self.m().message_v is None,
            },
    {
        self.message.as_ref()
    }

    pub fn prompt_is_active(&self) -> (r: bool)
        ensures
            r == self.m().prompt_active,
    {
        self.prompt.is_active()
    }

    /// The prompt as it is shown: its question and the answer typed so far.
    pub fn prompt_line(&self) -> (r: String)
        ensures
            r@ == (match (self.m().prompt_message, self.m().prompt_answer) {
                (Some(pm), Some(a)) => pm + ": "@ + a,
                (Some(pm), None) => pm + ": "@,
                (None, Some(a)) => a,
                (None, None) => Seq::<char>::empty(),
            }),
    {
        self.prompt.draw()
    }

    pub fn prompt_answer(&self) -> (r: Option<&String>)
        ensures
            match r {
                Some(s) => self.m().prompt_answer == Some(s@),
                None => self.m().prompt_answer is None,
            },
    {
        self.prompt.get_answer()
    }

    pub fn prompt_purpose(&self) -> (r: Option<EditorPromptPurpose>)
        ensures
            r == self.m().prompt_purpose,
    {
        self.prompt.get_purpose()
    }
}

/// The dirty-flag bookkeeping every mutation performs: the buffer no longer
/// matches the file, a pending confirmation is withdrawn, and a confirmation
/// message is taken down.
pub open spec fn spec_make_dirty(m: EditorModel) -> EditorModel {
    EditorModel {
        dirty: true,
        confirm_dirty: false,
        message_v: if m.confirm_dirty {
            None
        } else {
            m.message_v
        },
        ..m
    }
}

/// Removing the active selection: the normalized span leaves the buffer, the
/// removal is logged, and the cursor lands at the span's start.
pub open spec fn spec_remove_highlight(m: EditorModel) -> EditorModel {
    let s = sel_start(m);
    let e = sel_end(m);
    let b2 = spec_remove_region(m.lines, s, e);
    let h2 = m.hist.take(m.hist_index).push(remove_region_act(m.lines, s, e));
    let m1 = EditorModel { lines: b2, hist: h2, hist_index: h2.len() as int, ..m };
    if m.cy < m.hy || (m.cy == m.hy && m.cx <= m.hx) {
        m1
    } else {
        spec_move_cursor(m1, Movement::Absolute(m.hx as usize, m.hy as usize), false)
    }
}

/// Typing one character: it enters the buffer at the cursor, the edit is
/// logged, and the cursor steps right over it.
pub open spec fn spec_write_char(m: EditorModel, c: char) -> EditorModel {
    let b2 = spec_insert_char(m.lines, m.cy, m.cx, c);
    let h2 = m.hist.take(m.hist_index).push(
        ActionModel::MInsertChar(
            clamp_row(m.lines, m.cy),
            clamp_col(m.lines[clamp_row(m.lines, m.cy)], m.cx),
            c,
        ),
    );
    let m1 = EditorModel { lines: b2, hist: h2, hist_index: h2.len() as int, ..m };
    let m2 = spec_move_cursor(m1, Movement::Relative(1isize, 0isize), false);
    spec_make_dirty(m2)
}

/// A forward delete at the cursor without a selection: a character leaves the
/// line or the next line merges in, and the edit is logged.
pub open spec fn spec_delete_at_cursor(m: EditorModel) -> EditorModel {
    let hit = delete_hits_char(m.lines, m.cy, m.cx);
    let joins = delete_joins(m.lines, m.cy, m.cx);
    let b2 = spec_delete_char(m.lines, m.cy, m.cx);
    let r = clamp_row(m.lines, m.cy);
    let h2 = if hit {
        m.hist.take(m.hist_index).push(ActionModel::MDeleteChar(r, m.cx, m.lines[r][m.cx]))
    } else if joins {
        m.hist.take(m.hist_index).push(ActionModel::MJoinLine(r, clean_len_of(m.lines[r]) as int))
    } else {
        m.hist
    };
    let i2 = if hit || joins {
        h2.len() as int
    } else {
        m.hist_index
    };
    let m1 = EditorModel { lines: b2, hist: h2, hist_index: i2, ..m };
    if hit || joins {
        let m2 = spec_make_dirty(m1);
        place(m2, m2.cx, m2.cy, m2.row_offset, m2.col_offset)
    } else {
        m1
    }
}

/// A delete with an active selection: the selection is removed and the
/// highlight dropped.
pub open spec fn spec_delete_selection(m: EditorModel) -> EditorModel {
    let m1 = spec_remove_highlight(m);
    let m2 = spec_make_dirty((EditorModel { highlighting: false, ..m1 }));
    place(m2, m2.cx, m2.cy, m2.row_offset, m2.col_offset)
}

/// The Enter key: any selection is removed first, then the cursor's line
/// splits at the cursor and the cursor moves to the start of the new line.
pub open spec fn spec_do_return(m: EditorModel) -> EditorModel {
    let m1 = if m.highlighting {
        spec_make_dirty((EditorModel { highlighting: false, ..spec_remove_highlight(m) }))
    } else {
        m
    };
    let b2 = spec_split(m1.lines, m1.cy, m1.cx);
    let h2 = m1.hist.take(m1.hist_index).push(
        ActionModel::MSplitLine(
            clamp_row(m1.lines, m1.cy),
            clamp_col(m1.lines[clamp_row(m1.lines, m1.cy)], m1.cx),
        ),
    );
    let m2 = EditorModel { lines: b2, hist: h2, hist_index: h2.len() as int, ..m1 };
    let m3 = spec_move_cursor(m2, Movement::Relative(0isize, 1isize), false);
    let m4 = spec_move_cursor(m3, Movement::Home, false);
    spec_make_dirty(m4)
}

/// Pasting a held region: any selection is removed first, the region enters
/// at the cursor, the insertion is logged, and the cursor moves to the
/// returned end of the insertion.
pub open spec fn spec_paste(m: EditorModel, ins: Seq<Seq<char>>) -> EditorModel {
    let m1 = if m.highlighting {
        EditorModel { highlighting: false, ..spec_remove_highlight(m) }
    } else {
        m
    };
    let b2 = spec_insert_region(m1.lines, (m1.cx, m1.cy), ins);
    let pos = spec_insert_region_pos(m1.lines, (m1.cx, m1.cy), ins);
    let h2 = m1.hist.take(m1.hist_index).push(
        ActionModel::MInsertRegion(
            clamp_pos(m1.lines, (m1.cx, m1.cy)).0,
            clamp_pos(m1.lines, (m1.cx, m1.cy)).1,
            ins,
        ),
    );
    let m2 = EditorModel { lines: b2, hist: h2, hist_index: h2.len() as int, ..m1 };
    let m3 = if m2.prompt_active {
        m2
    } else {
        spec_move_cursor(m2, Movement::Absolute(pos.0 as usize, pos.1 as usize), false)
    };
    spec_make_dirty(m3)
}

/// Stepping the history back one edit: the logged inverse is applied, the
/// cursor is pulled back into the shrunk buffer, and the viewport settles.
pub open spec fn spec_undo_session(m: EditorModel) -> EditorModel {
    let b2 = if m.hist_index > 0 {
        spec_undo_act(m.lines, m.hist[m.hist_index - 1])
    } else {
        m.lines
    };
    let i2 = if m.hist_index > 0 {
        m.hist_index - 1
    } else {
        m.hist_index
    };
    let cy2 = if m.cy >= b2.len() {
        b2.len() - 1
    } else {
        m.cy
    };
    let m1 = EditorModel { lines: b2, hist_index: i2, ..m };
    place(m1, m.cx, cy2, m.row_offset, m.col_offset)
}

/// Stepping the history forward one edit: the logged edit replays, the
/// cursor is pulled back into the buffer, and the viewport settles.
pub open spec fn spec_redo_session(m: EditorModel) -> EditorModel {
    let b2 = if m.hist_index < m.hist.len() {
        spec_redo_act(m.lines, m.hist[m.hist_index])
    } else {
        m.lines
    };
    let i2 = if m.hist_index < m.hist.len() {
        m.hist_index + 1
    } else {
        m.hist_index
    };
    let cy2 = if m.cy >= b2.len() {
        b2.len() - 1
    } else {
        m.cy
    };
    let m1 = EditorModel { lines: b2, hist_index: i2, ..m };
    place(m1, m.cx, cy2, m.row_offset, m.col_offset)
}

/// The effect of fitting a session to a terminal of `width` by `height`
/// cells.
pub open spec fn spec_resize(m: EditorModel, width: int, height: int) -> EditorModel {
    let rows2 = if height > 2 {
        height - 2
    } else {
        0
    };
    let g = gutter_spec(m.row_offset, rows2, m.lines.len() as int);
    let cols2 = if width > g {
        width - g
    } else {
        0
    };
    let rx = rx_spec(m.lines[m.cy], m.cx, m.tab);
    EditorModel {
        screen_rows: rows2,
        left_gutter: g,
        screen_cols: cols2,
        rx,
        row_offset: scroll_fix(m.row_offset, m.cy, rows2),
        col_offset: scroll_fix(m.col_offset, rx, cols2),
        ..m
    }
}

/// The magnitude of a negative step.
fn neg_mag(d: isize) -> (m: usize)
    requires
        d < 0,
    ensures
        m as int == -(d as int),
{
    ((0 - (d + 1)) as usize) + 1
}

/// Powers of ten.
spec fn pow10(k: nat) -> nat
    decreases k,
{
    if k == 0 {
        1
    } else {
        10 * pow10((k - 1) as nat)
    }
}

/// Digit counts stay within the width of a machine word.
proof fn lemma_digit_count_bound(n: nat)
    requires
        n <= usize::MAX,
    ensures
        digit_count(n) <= 20,
{
    assert(pow10(20) == 100000000000000000000) by {
        reveal_with_fuel(pow10, 21);
    }
    lemma_digit_count_small(n, 19);
}

/// A number below `10^(k + 1)` prints with at most `k + 1` digits.
proof fn lemma_digit_count_small(n: nat, k: nat)
    requires
        n < pow10(k + 1),
    ensures
        digit_count(n) <= k + 1,
    decreases k,
{
    if n < 10 {
    } else {
        assert(pow10(k + 1) == 10 * pow10(k as nat));
        assert(k >= 1) by {
            if k == 0 {
                assert(pow10(1) == 10) by {
                    reveal_with_fuel(pow10, 2);
                }
            }
        }
        assert(n / 10 < pow10(k as nat)) by (nonlinear_arith)
            requires
                n < 10 * pow10(k as nat),
                n >= 10,
        ;
        lemma_digit_count_small((n / 10) as nat, (k - 1) as nat);
    }
}

} // verus!

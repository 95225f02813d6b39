use vstd::prelude::*;

use crate::buffer::{
    clamp_col, clamp_row, spec_delete_char, spec_get_region, spec_insert_char,
    spec_insert_region, spec_join, spec_redo_act, spec_remove_region, spec_split,
    spec_undo_act, ActionModel,
};
use crate::editor::{
    model_inv, sel_end, sel_start, spec_delete_selection, spec_paste, spec_remove_highlight,
    EditorModel,
};
use crate::line::{clean_len_of, clean_of, ending_of, is_term_char, line_wf, term_len_of};

verus! {

/// A character sequence free of terminator characters.
pub open spec fn all_clean(a: Seq<char>) -> bool {
    forall|i: int| 0 <= i < a.len() ==> !is_term_char(a[i])
}

/// A sequence that is a whole line terminator: empty, `"\n"`, `"\r"`, or `"\r\n"`.
pub open spec fn is_term_seq(e: Seq<char>) -> bool {
    e =~= Seq::<char>::empty() || e =~= seq!['\n'] || e =~= seq!['\r'] || e =~= seq!['\r', '\n']
}

/// Appending a whole terminator to terminator-free content gives a line whose
/// clean part is exactly that content and whose ending is that terminator.
pub proof fn lemma_clean_concat(a: Seq<char>, e: Seq<char>)
    requires
        all_clean(a),
        is_term_seq(e),
    ensures
        term_len_of(a + e) == e.len(),
        clean_of(a + e) == a,
        ending_of(a + e) == e,
{
    let s = a + e;
    if e =~= Seq::<char>::empty() {
        assert(s =~= a);
        if s.len() >= 1 {
            assert(!is_term_char(s[s.len() - 1]));
        }
        assert(term_len_of(s) == 0);
        assert(clean_of(s) =~= a);
        assert(ending_of(s) =~= e);
    } else if e =~= seq!['\n'] {
        assert(s.len() == a.len() + 1);
        assert(s[s.len() - 1] == '\n');
        if s.len() >= 2 {
            assert(s[s.len() - 2] == a[a.len() - 1]);
            assert(!is_term_char(a[a.len() - 1]));
            assert(s[s.len() - 2] != '\r');
        }
        assert(term_len_of(s) == 1);
        assert(clean_of(s) =~= a);
        assert(ending_of(s) =~= e);
    } else if e =~= seq!['\r'] {
        assert(s[s.len() - 1] == '\r');
        assert(s[s.len() - 1] != '\n');
        assert(term_len_of(s) == 1);
        assert(clean_of(s) =~= a);
        assert(ending_of(s) =~= e);
    } else {
        assert(e =~= seq!['\r', '\n']);
        assert(s.len() == a.len() + 2);
        assert(s[s.len() - 2] == '\r');
        assert(s[s.len() - 1] == '\n');
        assert(term_len_of(s) == 2);
        assert(clean_of(s) =~= a);
        assert(ending_of(s) =~= e);
    }
}

/// Every raw line is its clean part followed by its ending, and the ending is
/// a whole terminator; a well-formed line has terminator-free clean content.
pub proof fn lemma_line_parts(s: Seq<char>)
    ensures
        s == clean_of(s) + ending_of(s),
        is_term_seq(ending_of(s)),
        line_wf(s) ==> all_clean(clean_of(s)),
{
    assert(s =~= clean_of(s) + ending_of(s));
    if term_len_of(s) == 0 {
        assert(ending_of(s) =~= Seq::<char>::empty());
    } else if term_len_of(s) == 1 {
        if s[s.len() - 1] == '\n' {
            assert(ending_of(s) =~= seq!['\n']);
        } else {
            assert(ending_of(s) =~= seq!['\r']);
        }
    } else {
        assert(ending_of(s) =~= seq!['\r', '\n']);
    }
    if line_wf(s) {
        assert forall|i: int| 0 <= i < clean_of(s).len() implies !is_term_char(
            clean_of(s)[i],
        ) by {
            assert(clean_of(s)[i] == s[i]);
        }
    }
}

/// Terminator-free content is all clean: it has no terminator to strip.
pub proof fn lemma_all_clean_id(a: Seq<char>)
    requires
        all_clean(a),
    ensures
        term_len_of(a) == 0,
        clean_of(a) == a,
        line_wf(a),
{
    if a.len() >= 1 {
        assert(!is_term_char(a[a.len() - 1]));
    }
    assert(clean_of(a) =~= a);
}

/// Inserting an ordinary character into the clean part of a line leaves the
/// terminator alone and grows the clean part by one.
pub proof fn lemma_insert_char_grows_clean(l: Seq<char>, col: int, c: char)
    requires
        0 <= col <= clean_len_of(l),
        !is_term_char(c),
    ensures
        term_len_of(l.insert(col, c)) == term_len_of(l),
        clean_len_of(l.insert(col, c)) == clean_len_of(l) + 1,
        l.insert(col, c).remove(col) == l,
{
    let l2 = l.insert(col, c);
    let len = l.len() as int;
    assert(l2.len() == len + 1);
    if term_len_of(l) == 2 {
        assert(l2[len - 1] == l[len - 2]);
        assert(l2[len] == l[len - 1]);
        assert(term_len_of(l2) == 2);
    } else if term_len_of(l) == 1 {
        assert(l2[len] == l[len - 1]);
        if col == len - 1 {
            assert(l2[len - 1] == c);
            assert(term_len_of(l2) == 1);
        } else {
            if len >= 2 {
                assert(l2[len - 1] == l[len - 2]);
            }
            assert(term_len_of(l2) == 1);
        }
    } else {
        if col == len {
            assert(l2[len] == c);
            assert(term_len_of(l2) == 0);
        } else {
            assert(l2[len] == l[len - 1]);
            assert(!is_term_char(l[len - 1]));
            assert(term_len_of(l2) == 0);
        }
    }
    assert(l2.remove(col) =~= l);
}

/// Inserting a character and deleting it again at the same position restores
/// every line of the buffer exactly.
pub proof fn lemma_insert_char_then_delete(b: Seq<Seq<char>>, row: int, col: int, c: char)
    requires
        b.len() >= 1,
        0 <= row < b.len(),
        0 <= col <= clean_len_of(b[row]),
        !is_term_char(c),
    ensures
        spec_delete_char(spec_insert_char(b, row, col, c), row, col) == b,
{
    let l = b[row];
    assert(clamp_row(b, row) == row || row == b.len() - 1);
    assert(clamp_col(l, col) == col);
    let l2 = l.insert(col, c);
    let b2 = spec_insert_char(b, row, col, c);
    assert(b2 =~= b.update(row, l2));
    lemma_insert_char_grows_clean(l, col, c);
    assert(clamp_row(b2, row) == clamp_row(b, row));
    assert(b2[clamp_row(b2, row)] == l2);
    assert(col < clean_len_of(l2));
    assert(spec_delete_char(b2, row, col) =~= b2.update(clamp_row(b2, row), l2.remove(col)));
    assert(spec_delete_char(b2, row, col) =~= b);
}

/// Deleting a character and re-inserting the recorded character restores
/// every line of the buffer exactly.
pub proof fn lemma_delete_char_then_insert(b: Seq<Seq<char>>, row: int, col: int)
    requires
        b.len() >= 1,
        0 <= row < b.len(),
        0 <= col < clean_len_of(b[row]),
    ensures
        spec_insert_char(spec_delete_char(b, row, col), row, col, b[row][col]) == b,
{
    let l = b[row];
    let r = clamp_row(b, row);
    assert(r == row);
    let l2 = l.remove(col);
    let b2 = spec_delete_char(b, row, col);
    assert(b2 =~= b.update(row, l2));
    assert(col <= l2.len());
    assert(clamp_col(l2, col) == col);
    assert(l2.insert(col, l[col]) =~= l);
    assert(spec_insert_char(b2, row, col, l[col]) =~= b);
}

/// Joining two lines that carry the same terminator and splitting at the
/// recorded clean length restores both lines exactly.
pub proof fn lemma_join_then_split(b: Seq<Seq<char>>, r: int)
    requires
        0 <= r,
        r + 1 < b.len(),
        line_wf(b[r]),
        ending_of(b[r]) == ending_of(b[r + 1]),
    ensures
        spec_split(spec_join(b, r), r, clean_len_of(b[r]) as int) == b,
{
    let lr = b[r];
    let ls = b[r + 1];
    let cr = clean_of(lr);
    let cs = clean_of(ls);
    let e = ending_of(lr);
    lemma_line_parts(lr);
    lemma_line_parts(ls);
    let j = cr + ls;
    let b2 = spec_join(b, r);
    assert(b2 =~= b.take(r) + seq![j] + b.skip(r + 2));
    assert(b2.len() == b.len() - 1);
    assert(r < b2.len());
    assert(b2[r] == j);
    assert(clamp_row(b2, r) == r);
    // The joined line splits back into the same clean part and tail.
    assert(j =~= (cr + cs) + e);
    assert(all_clean(cr + cs) ==> true);
    lemma_line_parts(j);
    // term of j equals e.len(): the last characters of j are those of ls when
    // ls is long enough, else the well-formed head decides.
    assert(j.len() == cr.len() + ls.len());
    if ls.len() >= 2 {
        assert(j[j.len() - 1] == ls[ls.len() - 1]);
        assert(j[j.len() - 2] == ls[ls.len() - 2]);
        assert(term_len_of(j) == term_len_of(ls));
        assert(term_len_of(ls) == e.len());
    } else {
        if ls.len() == 0 {
            assert(e =~= Seq::<char>::empty());
            assert(j =~= cr);
            lemma_clean_concat(cr, e);
            assert(term_len_of(j) == 0);
        } else {
            assert(j[j.len() - 1] == ls[0]);
            if cs.len() == 1 {
                assert(e =~= Seq::<char>::empty());
                assert(!is_term_char(ls[0]) || term_len_of(ls) > 0);
                assert(j =~= (cr + cs));
                lemma_clean_concat(cr + cs, e);
                assert(term_len_of(j) == 0);
            } else {
                assert(cs.len() == 0);
                assert(e.len() == 1);
                assert(j =~= cr + e);
                lemma_clean_concat(cr, e);
                assert(term_len_of(j) == e.len());
            }
        }
    }
    assert(clean_len_of(j) == cr.len() + cs.len());
    let col = clean_len_of(lr) as int;
    assert(col == cr.len());
    assert(clamp_col(j, col) == col);
    assert(j.take(col) =~= cr);
    assert(j.skip(col) =~= ls);
    assert(ending_of(j) =~= e);
    let b3 = spec_split(b2, r, col);
    assert(b3 =~= b2.update(r, cr + e).insert(r + 1, ls));
    assert(cr + e =~= lr);
    assert(b3 =~= b);
}

/// The head a split produces keeps exactly the raw prefix as its clean part
/// when the line is well formed.
pub proof fn lemma_split_head_clean(l: Seq<char>, cc: int)
    requires
        line_wf(l),
        0 <= cc <= l.len(),
    ensures
        clean_of(l.take(cc) + ending_of(l)) == l.take(cc),
        term_len_of(l.take(cc) + ending_of(l)) == term_len_of(l),
{
    let c = clean_of(l);
    let e = ending_of(l);
    let cl = clean_len_of(l) as int;
    lemma_line_parts(l);
    let h = l.take(cc) + e;
    if cc <= cl {
        assert(l.take(cc) =~= c.take(cc));
        assert(all_clean(c.take(cc)));
        lemma_clean_concat(c.take(cc), e);
    } else {
        // The prefix already reaches into the terminator.
        assert(h.len() == cc + e.len());
        if term_len_of(l) == 2 {
            assert(h[h.len() - 1] == '\n');
            assert(h[h.len() - 2] == '\r');
            assert(term_len_of(h) == 2);
            assert(clean_of(h) =~= l.take(cc));
        } else {
            assert(term_len_of(l) == 1);
            assert(e.len() == 1);
            assert(cc == l.len());
            if l[l.len() - 1] == '\n' {
                assert(h[h.len() - 1] == '\n');
                assert(h[h.len() - 2] == '\n');
                assert(term_len_of(h) == 1);
                assert(clean_of(h) =~= l.take(cc));
            } else {
                assert(h[h.len() - 1] == '\r');
                assert(term_len_of(h) == 1);
                assert(clean_of(h) =~= l.take(cc));
            }
        }
    }
}

/// Splitting a well-formed line and joining the two halves again restores
/// every line of the buffer exactly.
pub proof fn lemma_split_then_join(b: Seq<Seq<char>>, row: int, col: int)
    requires
        b.len() >= 1,
        0 <= row < b.len(),
        0 <= col,
        line_wf(b[row]),
    ensures
        spec_join(spec_split(b, row, col), row) == b,
{
    let l = b[row];
    let r = clamp_row(b, row);
    assert(r == row);
    let cc = clamp_col(l, col);
    let h = l.take(cc) + ending_of(l);
    let t = l.skip(cc);
    let b2 = spec_split(b, row, col);
    assert(b2 =~= b.update(row, h).insert(row + 1, t));
    assert(b2.len() == b.len() + 1);
    assert(b2[row] == h);
    assert(b2[row + 1] == t);
    lemma_split_head_clean(l, cc);
    assert(clean_of(h) + t =~= l);
    let b3 = spec_join(b2, row);
    assert(b3 =~= b2.update(row, clean_of(h) + t).remove(row + 1));
    assert(b3 =~= b);
}

/// Inserting a region and removing the span it produced restores every line
/// of the buffer exactly.
pub proof fn lemma_insert_region_then_remove(
    b: Seq<Seq<char>>,
    sx: int,
    sy: int,
    ins: Seq<Seq<char>>,
)
    requires
        b.len() >= 1,
        0 <= sy < b.len(),
        0 <= sx <= clean_len_of(b[sy]),
    ensures
        spec_undo_act(spec_insert_region(b, (sx, sy), ins), ActionModel::MInsertRegion(
            sx,
            sy,
            ins,
        )) == b,
{
    if ins.len() == 1 {
        lemma_insert_one_then_remove(b, sx, sy, ins);
    } else if ins.len() > 1 {
        lemma_insert_many_then_remove(b, sx, sy, ins);
    }
}

/// The one-line case: the spliced clean content leaves the target line again.
#[verifier::rlimit(100)]
proof fn lemma_insert_one_then_remove(b: Seq<Seq<char>>, sx: int, sy: int, ins: Seq<Seq<char>>)
    requires
        b.len() >= 1,
        0 <= sy < b.len(),
        0 <= sx <= clean_len_of(b[sy]),
        ins.len() == 1,
    ensures
        spec_undo_act(spec_insert_region(b, (sx, sy), ins), ActionModel::MInsertRegion(
            sx,
            sy,
            ins,
        )) == b,
{
    let l = b[sy];
    assert(clamp_row(b, sy) == sy);
    assert(clamp_col(l, sx) == sx);
    assert(clean_of(l).take(sx) =~= l.take(sx));
    let head = l.take(sx);
    let tail = l.skip(sx);
    {
        let c0 = clean_of(ins[0]);
        let l2 = head + c0 + tail;
        let b2 = spec_insert_region(b, (sx, sy), ins);
        assert(b2 =~= b.update(sy, l2));
        let ex = sx + clean_len_of(ins[0]);
        assert(ex == sx + c0.len());
        assert(clamp_row(b2, sy) == sy);
        assert(l2.len() == l.len() + c0.len());
        assert(clamp_col(l2, sx) == sx);
        assert(clamp_col(l2, ex as int) == ex);
        let b3 = spec_remove_region(b2, (sx, sy), (ex as int, sy));
        assert(b3 =~= b2.update(sy, l2.take(sx) + l2.skip(ex as int)));
        assert(l2.take(sx) =~= head);
        assert(l2.skip(ex as int) =~= tail);
        assert(head + tail =~= l);
        assert(b3 =~= b);
    }
}

/// The many-line case: the removal span reaches from the head's end to the
/// last inserted line's end.
#[verifier::rlimit(100)]
proof fn lemma_insert_many_then_remove(b: Seq<Seq<char>>, sx: int, sy: int, ins: Seq<Seq<char>>)
    requires
        b.len() >= 1,
        0 <= sy < b.len(),
        0 <= sx <= clean_len_of(b[sy]),
        ins.len() > 1,
    ensures
        spec_undo_act(spec_insert_region(b, (sx, sy), ins), ActionModel::MInsertRegion(
            sx,
            sy,
            ins,
        )) == b,
{
    let l = b[sy];
    assert(clamp_row(b, sy) == sy);
    assert(clamp_col(l, sx) == sx);
    assert(clean_of(l).take(sx) =~= l.take(sx));
    let head = l.take(sx);
    let tail = l.skip(sx);
    {
        let n = ins.len() as int;
        let b2 = spec_insert_region(b, (sx, sy), ins);
        assert(b2 =~= b.take(sy) + seq![head + ins[0]] + ins.subrange(1, n - 1) + seq![
            ins.last() + tail,
        ] + b.skip(sy + 1));
        assert(b2.len() == b.len() + n - 1);
        let ey = sy + n - 1;
        assert(b2[sy] == head + ins[0]);
        assert(b2[ey] == ins.last() + tail);
        let ex = ins.last().len() as int;
        assert(clamp_row(b2, sy) == sy);
        assert(clamp_row(b2, ey) == ey);
        assert(clamp_col(b2[sy], sx) == sx);
        assert(clamp_col(b2[ey], ex) == ex);
        let b3 = spec_remove_region(b2, (sx, sy), (ex, ey));
        assert(b3 =~= b2.take(sy) + seq![b2[sy].take(sx) + b2[ey].skip(ex)] + b2.skip(ey + 1));
        assert(b2[sy].take(sx) =~= head);
        assert(b2[ey].skip(ex) =~= tail);
        assert(b2.take(sy) =~= b.take(sy));
        assert(b2.skip(ey + 1) =~= b.skip(sy + 1));
        assert(head + tail =~= l);
        assert(b3 =~= b);
    }
}

/// Removing a region and inserting the captured text at its start restores
/// every line of the buffer exactly.
#[verifier::rlimit(100)]
pub proof fn lemma_remove_region_then_insert(
    b: Seq<Seq<char>>,
    sx: int,
    sy: int,
    ex: int,
    ey: int,
)
    requires
        b.len() >= 1,
        0 <= sy <= ey < b.len(),
        0 <= sx <= clean_len_of(b[sy]),
        line_wf(b[sy]),
        sy == ey ==> sx <= ex <= clean_len_of(b[sy]),
        sy < ey ==> 0 <= ex <= b[ey].len(),
    ensures
        spec_insert_region(
            spec_remove_region(b, (sx, sy), (ex, ey)),
            (sx, sy),
            spec_get_region(b, (sx, sy), (ex, ey)),
        ) == b,
{
    let l = b[sy];
    let c = clean_of(l);
    let e = ending_of(l);
    let cl = clean_len_of(l) as int;
    lemma_line_parts(l);
    assert(clamp_row(b, sy) == sy);
    assert(clamp_row(b, ey) == ey);
    assert(clamp_col(l, sx) == sx);
    if sy == ey {
        assert(clamp_col(l, ex) == ex);
        let frag = l.subrange(sx, ex);
        let rem = spec_get_region(b, (sx, sy), (ex, ey));
        assert(rem =~= seq![frag]);
        let l2 = l.take(sx) + l.skip(ex);
        let b2 = spec_remove_region(b, (sx, sy), (ex, ey));
        assert(b2 =~= b.update(sy, l2));
        // The shortened line still has the whole prefix in its clean part.
        assert(l.take(sx) =~= c.take(sx));
        assert(l.skip(ex) =~= c.skip(ex) + e);
        assert(l2 =~= (c.take(sx) + c.skip(ex)) + e);
        assert(all_clean(c.take(sx) + c.skip(ex)));
        lemma_clean_concat(c.take(sx) + c.skip(ex), e);
        assert(clean_len_of(l2) == cl - (ex - sx));
        assert(sx <= clean_len_of(l2));
        assert(clean_of(l2).take(sx) =~= l.take(sx));
        // The fragment is pure clean content.
        assert(frag =~= c.subrange(sx, ex));
        assert(all_clean(frag));
        lemma_all_clean_id(frag);
        assert(clean_of(frag) == frag);
        let b3 = spec_insert_region(b2, (sx, sy), rem);
        assert(clamp_row(b2, sy) == sy);
        assert(clamp_col(l2, sx) == sx);
        assert(b3 =~= b2.update(sy, clean_of(l2).take(sx) + frag + l2.skip(sx)));
        assert(l2.skip(sx) =~= c.skip(ex) + e);
        assert(clean_of(l2).take(sx) + frag + l2.skip(sx) =~= l);
        assert(b3 =~= b);
    } else {
        let lf = b[ey];
        let rem = spec_get_region(b, (sx, sy), (ex, ey));
        assert(rem =~= seq![l.skip(sx)] + b.subrange(sy + 1, ey) + seq![lf.take(ex)]);
        let n = rem.len() as int;
        assert(n == ey - sy + 1);
        assert(n >= 2);
        let la = l.take(sx);
        let lb = lf.skip(ex);
        let l2 = la + lb;
        let b2 = spec_remove_region(b, (sx, sy), (ex, ey));
        assert(b2 =~= b.take(sy) + seq![l2] + b.skip(ey + 1));
        assert(b2.len() == b.len() - (ey - sy));
        assert(b2[sy] == l2);
        assert(clamp_row(b2, sy) == sy);
        assert(clamp_col(l2, sx) == sx);
        // The clean part of the shortened line reaches at least to sx.
        assert(la =~= c.take(sx));
        assert(all_clean(la));
        if lb.len() == 0 {
            assert(l2 =~= la);
            lemma_all_clean_id(la);
            assert(clean_len_of(l2) == sx);
        } else {
            assert(term_len_of(l2) <= lb.len()) by {
                if term_len_of(l2) == 2 {
                    assert(l2[l2.len() - 2] == '\r');
                    if lb.len() < 2 {
                        assert(l2.len() - 2 < la.len());
                        assert(!is_term_char(la[l2.len() - 2]));
                        assert(false);
                    }
                }
            }
            assert(clean_len_of(l2) >= sx);
        }
        assert(clean_of(l2).take(sx) =~= la);
        let b3 = spec_insert_region(b2, (sx, sy), rem);
        assert(b3 =~= b2.take(sy) + seq![clean_of(l2).take(sx) + rem[0]] + rem.subrange(1, n - 1)
            + seq![rem.last() + l2.skip(sx)] + b2.skip(sy + 1));
        assert(rem[0] == l.skip(sx));
        assert(rem.last() == lf.take(ex));
        assert(l2.skip(sx) =~= lb);
        assert(clean_of(l2).take(sx) + rem[0] =~= l);
        assert(rem.last() + l2.skip(sx) =~= lf);
        assert(b2.take(sy) =~= b.take(sy));
        assert(b2.skip(sy + 1) =~= b.skip(ey + 1));
        assert(rem.subrange(1, n - 1) =~= b.subrange(sy + 1, ey));
        assert(b3 =~= b);
    }
}

/// The conditions under which a recorded edit's documented inverse undoes it:
/// positions lie in bounds under the user-facing clamp discipline, recorded
/// data matches the buffer, and the lines edits run through are well formed.
pub open spec fn act_matches(b: Seq<Seq<char>>, m: ActionModel) -> bool {
    match m {
        ActionModel::MInsertChar(r, c, ch) => 0 <= r < b.len() && 0 <= c <= clean_len_of(b[r])
            && !is_term_char(ch),
        ActionModel::MDeleteChar(r, c, ch) => 0 <= r < b.len() && 0 <= c < clean_len_of(b[r])
            && ch == b[r][c],
        ActionModel::MInsertRegion(sx, sy, ins) => 0 <= sy < b.len() && 0 <= sx <= clean_len_of(
            b[sy],
        ),
        ActionModel::MRemoveRegion(sx, sy, ex, ey, rem) => 0 <= sy <= ey < b.len() && 0 <= sx
            <= clean_len_of(b[sy]) && line_wf(b[sy]) && (sy == ey ==> sx <= ex <= clean_len_of(
            b[sy],
        )) && (sy < ey ==> 0 <= ex <= b[ey].len()) && rem == spec_get_region(
            b,
            (sx, sy),
            (ex, ey),
        ),
        ActionModel::MJoinLine(r, c) => 0 <= r && r + 1 < b.len() && c == clean_len_of(b[r])
            && line_wf(b[r]) && ending_of(b[r]) == ending_of(b[r + 1]),
        ActionModel::MSplitLine(r, c) => 0 <= r < b.len() && 0 <= c && line_wf(b[r]),
    }
}

/// Undo restores the buffer: applying a recorded edit forward and then its
/// documented inverse yields exactly the lines the buffer held before, hence
/// the same text.
pub proof fn lemma_undo_restores(b: Seq<Seq<char>>, m: ActionModel)
    requires
        b.len() >= 1,
        act_matches(b, m),
    ensures
        spec_undo_act(spec_redo_act(b, m), m) == b,
{
    match m {
        ActionModel::MInsertChar(r, c, ch) => {
            lemma_insert_char_then_delete(b, r, c, ch);
        },
        ActionModel::MDeleteChar(r, c, ch) => {
            lemma_delete_char_then_insert(b, r, c);
        },
        ActionModel::MInsertRegion(sx, sy, ins) => {
            lemma_insert_region_then_remove(b, sx, sy, ins);
        },
        ActionModel::MRemoveRegion(sx, sy, ex, ey, rem) => {
            lemma_remove_region_then_insert(b, sx, sy, ex, ey);
        },
        ActionModel::MJoinLine(r, c) => {
            assert(clamp_row(b, r) == r);
            lemma_join_then_split(b, r);
        },
        ActionModel::MSplitLine(r, c) => {
            let b2 = spec_split(b, r, c);
            assert(b2.len() == b.len() + 1);
            assert(0 <= r && r + 1 < b2.len());
            lemma_split_then_join(b, r, c);
        },
    }
}

/// Redo restores the edit: after an undo, replaying the same recorded edit
/// forward yields exactly the buffer that held after the original edit.
pub proof fn lemma_redo_after_undo(b: Seq<Seq<char>>, m: ActionModel)
    requires
        b.len() >= 1,
        act_matches(b, m),
    ensures
        spec_redo_act(spec_undo_act(spec_redo_act(b, m), m), m) == spec_redo_act(b, m),
{
    lemma_undo_restores(b, m);
}

/// A cursor movement changes no line, no history, and none of the session's
/// flags beyond the highlight.
proof fn lemma_move_keeps_content(m: EditorModel, mv: crate::editor::Movement, wh: bool)
    ensures
        ({
            let r = crate::editor::spec_move_cursor(m, mv, wh);
            r.lines == m.lines && r.hist == m.hist && r.hist_index == m.hist_index && r.dirty
                == m.dirty && r.confirm_dirty == m.confirm_dirty && r.message_v == m.message_v
                && r.prompt_active == m.prompt_active && r.prompt_message == m.prompt_message
                && r.prompt_answer == m.prompt_answer && r.prompt_purpose == m.prompt_purpose
                && r.tab == m.tab && r.screen_rows == m.screen_rows
        }),
{
}

/// After a selection is cut, the buffer holds the removal's result and the
/// cursor sits at the selection's start.
#[verifier::rlimit(100)]
proof fn lemma_cut_state(m: EditorModel)
    requires
        model_inv(m),
        m.highlighting,
        0 <= m.hy < m.lines.len(),
        0 <= m.hx <= usize::MAX,
        m.hy <= usize::MAX,
        ({
            let s = sel_start(m);
            s.0 <= m.lines[s.1].len() && s.1 < spec_remove_region(
                m.lines,
                sel_start(m),
                sel_end(m),
            ).len() && s.0 <= spec_remove_region(m.lines, sel_start(m), sel_end(m))[s.1].len()
        }),
    ensures
        ({
            let mc = spec_delete_selection(m);
            mc.lines == spec_remove_region(m.lines, sel_start(m), sel_end(m)) && mc.cx
                == sel_start(m).0 && mc.cy == sel_start(m).1 && !mc.highlighting
                && mc.prompt_active == m.prompt_active && mc.tab == m.tab
        }),
{
    let s = sel_start(m);
    let e = sel_end(m);
    let b2 = spec_remove_region(m.lines, s, e);
    let h2 = m.hist.take(m.hist_index).push(crate::buffer::remove_region_act(m.lines, s, e));
    let m1 = EditorModel { lines: b2, hist: h2, hist_index: h2.len() as int, ..m };
    if m.cy < m.hy || (m.cy == m.hy && m.cx <= m.hx) {
    } else {
        let mv = crate::editor::Movement::Absolute(m.hx as usize, m.hy as usize);
        lemma_move_keeps_content(m1, mv, false);
        assert(spec_remove_highlight(m) == crate::editor::spec_move_cursor(m1, mv, false));
        let t = crate::editor::move_pos(m1.lines, crate::editor::arm_highlight(m1, false), mv);
        assert(t.0 == s.0 && t.1 == s.1);
    }
}

/// Cutting a selection and pasting the clipboard at the resulting cursor
/// reproduces the buffer text byte for byte: the cursor lands at the
/// selection's start when it is cut, and the paste puts the captured region
/// back there.
#[verifier::rlimit(100)]
pub proof fn lemma_cut_paste_restores(m: EditorModel)
    requires
        model_inv(m),
        m.highlighting,
        !m.prompt_active,
        0 <= m.hy < m.lines.len(),
        0 <= m.hx <= usize::MAX,
        m.hy <= usize::MAX,
        ({
            let s = sel_start(m);
            let e = sel_end(m);
            s.0 <= clean_len_of(m.lines[s.1]) && e.0 <= clean_len_of(m.lines[e.1]) && line_wf(
                m.lines[s.1],
            )
        }),
    ensures
        ({
            let clip = spec_get_region(m.lines, sel_start(m), sel_end(m));
            spec_paste(spec_delete_selection(m), clip).lines == m.lines
        }),
        ({
            let clip = spec_get_region(m.lines, sel_start(m), sel_end(m));
            spec_paste(spec_delete_selection(m), clip).lines.flatten() == m.lines.flatten()
        }),
{
    let s = sel_start(m);
    let e = sel_end(m);
    let (sx, sy) = s;
    let (ex, ey) = e;
    assert(sy <= ey);
    let clip = spec_get_region(m.lines, s, e);
    lemma_remove_region_then_insert(m.lines, sx, sy, ex, ey);
    let b2 = spec_remove_region(m.lines, s, e);
    // The selection's start still lies inside the shortened first line.
    assert(b2.len() >= 1 && sy < b2.len());
    assert(sx <= b2[sy].len()) by {
        if sy == ey {
            assert(b2[sy] == m.lines[sy].take(sx) + m.lines[sy].skip(
                if ex < sx {
                    sx
                } else {
                    ex
                },
            ));
        } else {
            assert(b2[sy] == m.lines[sy].take(sx) + m.lines[ey].skip(ex));
        }
    }
    lemma_cut_state(m);
    let mc = spec_delete_selection(m);
    let res = spec_paste(mc, clip);
    assert(res.lines == spec_insert_region(b2, (sx, sy), clip)) by {
        let h3 = mc.hist.take(mc.hist_index).push(
            ActionModel::MInsertRegion(
                crate::buffer::clamp_pos(mc.lines, (mc.cx, mc.cy)).0,
                crate::buffer::clamp_pos(mc.lines, (mc.cx, mc.cy)).1,
                clip,
            ),
        );
        let m2 = EditorModel {
            lines: spec_insert_region(mc.lines, (mc.cx, mc.cy), clip),
            hist: h3,
            hist_index: h3.len() as int,
            ..mc
        };
        let pos = crate::buffer::spec_insert_region_pos(mc.lines, (mc.cx, mc.cy), clip);
        lemma_move_keeps_content(
            m2,
            crate::editor::Movement::Absolute(pos.0 as usize, pos.1 as usize),
            false,
        );
    }
    assert(res.lines == m.lines);
}

/// A newly recorded edit discards the whole redo tail: the log keeps only the
/// entries before the history cursor and the new entry, and the cursor lands
/// at the end, where redo is a no-op.
pub proof fn lemma_new_edit_discards_redo(h: Seq<ActionModel>, idx: int, m: ActionModel)
    requires
        0 <= idx <= h.len(),
    ensures
        h.take(idx).push(m).len() == idx + 1,
        forall|j: int| 0 <= j < idx ==> h.take(idx).push(m)[j] == h[j],
        h.take(idx).push(m)[idx] == m,
{
}

} // verus!


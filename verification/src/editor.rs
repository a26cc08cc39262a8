use vstd::prelude::*;

use crate::highlight::{delim_matches, spec_scan, update_syntax_row, EditorHighlight, EditorSyntax};
use crate::input::EditorKey;
use crate::row::EditorRow;

verus! {

/// The rows' texts, in order: the document a sequence of rows holds.
pub open spec fn doc_chars(rows: Seq<EditorRow>) -> Seq<Seq<char>> {
    Seq::new(rows.len(), |i: int| rows[i].chars@)
}

/// Two rows hold the same text, rendered form and position.
pub open spec fn row_text_eq(a: EditorRow, b: EditorRow) -> bool {
    &&& a.chars == b.chars
    &&& a.render == b.render
    &&& a.size == b.size
    &&& a.r_size == b.r_size
    &&& a.idx == b.idx
}

/// Two rows carry the same highlighting state.
pub open spec fn row_hl_eq(a: EditorRow, b: EditorRow) -> bool {
    &&& a.hl == b.hl
    &&& a.hl_open_comment == b.hl_open_comment
}

/// Row `i`'s highlighting is exactly what one scan assigns it, seeded with
/// the trailing block-comment state stored on the row above.
pub open spec fn row_hl_ok(rows: Seq<EditorRow>, syn: EditorSyntax, i: int) -> bool {
    let seed = if i > 0 {
        rows[i - 1].hl_open_comment
    } else {
        false
    };
    let sc = spec_scan(syn, rows[i].render@, seed);
    &&& rows[i].hl is Some
    &&& rows[i].hl->Some_0@ == sc.0
    &&& rows[i].hl_open_comment == sc.1
}

/// What one call of the highlight-propagation worklist starting at `at`
/// leaves behind: the stretch of rows from `at` to the stabilization point
/// `k` is freshly scanned, each seeded from the row above; every row of the
/// stretch before `k` had its trailing flag changed by the rescan, so `k` is
/// the first row whose flag came out unchanged (or the last row of the
/// document); rows beyond `k` keep their highlighting.
pub open spec fn rescan_effect(
    old_rows: Seq<EditorRow>,
    new_rows: Seq<EditorRow>,
    syn: EditorSyntax,
    at: int,
) -> bool {
    exists|k: int|
        #![trigger new_rows[k]]
        at <= k < new_rows.len() && (forall|j: int|
            at <= j <= k ==> row_hl_ok(new_rows, syn, j)) && (forall|j: int|
            at <= j < k ==> new_rows[j].hl_open_comment != old_rows[j].hl_open_comment) && (forall|
            j: int,
        |
            k < j < new_rows.len() ==> new_rows[j] == old_rows[j]) && (k + 1 < new_rows.len()
            ==> new_rows[k].hl_open_comment == old_rows[k].hl_open_comment)
}

/// A dirty counter bumped by one edit; it stops at its ceiling rather than
/// wrap.
pub open spec fn bump(n: usize) -> usize {
    if n < usize::MAX {
        (n + 1) as usize
    } else {
        n
    }
}

/// The whole editor state: the document rows, cursor and scroll positions,
/// the dirty counter, quit gating, the status line, the saved-highlight
/// snapshot and the active syntax profile.
pub struct EditorConfig {
    pub cx: usize,
    pub cy: usize,
    pub rx: usize,
    pub row_off: usize,
    pub col_off: usize,
    pub screen_rows: usize,
    pub screen_cols: usize,
    pub dirty: usize,
    pub number_of_rows: usize,
    pub quit_times: u8,
    pub erow: Vec<EditorRow>,
    pub filename: Option<Vec<char>>,
    pub status_msg: Vec<char>,
    pub status_msg_time: u64,
    pub saved_hl: Option<Vec<EditorHighlight>>,
    pub saved_hl_line: Option<usize>,
    pub syntax: Option<EditorSyntax>,
}

impl EditorConfig {
    /// The row count matches the rows, every row is well formed and numbered
    /// by its position, and any active syntax profile is well formed.
    pub open spec fn wf(&self) -> bool {
        &&& self.number_of_rows == self.erow@.len()
        &&& forall|i: int|
            0 <= i < self.erow@.len() ==> (#[trigger] self.erow@[i]).wf() && self.erow@[i].idx == i
        &&& match self.syntax {
            Some(s) => s.wf(),
            None => true,
        }
    }

    /// Everything outside the rows, the row count and the dirty counter is
    /// unchanged between two states.
    pub open spec fn frame_eq(a: &EditorConfig, b: &EditorConfig) -> bool {
        &&& a.cx == b.cx
        &&& a.cy == b.cy
        &&& a.rx == b.rx
        &&& a.row_off == b.row_off
        &&& a.col_off == b.col_off
        &&& a.screen_rows == b.screen_rows
        &&& a.screen_cols == b.screen_cols
        &&& a.quit_times == b.quit_times
        &&& a.filename == b.filename
        &&& a.status_msg == b.status_msg
        &&& a.status_msg_time == b.status_msg_time
        &&& a.saved_hl == b.saved_hl
        &&& a.saved_hl_line == b.saved_hl_line
        &&& a.syntax == b.syntax
    }

    /// Builds an empty editor for a screen of the given size, with two rows
    /// reserved for the status and message lines.
    pub fn new(cols: usize, rows: usize) -> (r: EditorConfig)
        ensures
            r.wf(),
            r.erow@.len() == 0,
            r.dirty == 0,
            r.cx == 0 && r.cy == 0 && r.rx == 0,
            r.row_off == 0 && r.col_off == 0,
            r.screen_cols == cols,
            r.screen_rows == if rows >= 2 {
                (rows - 2) as usize
            } else {
                0
            },
            r.quit_times == crate::QUIT_TIMES,
            r.filename is None,
            r.syntax is None,
            r.saved_hl is None,
            r.saved_hl_line is None,
            r.status_msg@.len() == 0,
    {
        EditorConfig {
            cx: 0,
            cy: 0,
            rx: 0,
            row_off: 0,
            col_off: 0,
            screen_rows: if rows >= 2 {
                rows - 2
            } else {
                0
            },
            screen_cols: cols,
            dirty: 0,
            number_of_rows: 0,
            quit_times: crate::QUIT_TIMES,
            erow: Vec::new(),
            filename: None,
            status_msg: Vec::new(),
            status_msg_time: 0,
            saved_hl: None,
            saved_hl_line: None,
            syntax: None,
        }
    }

    /// Rescans one row's highlighting, seeded with the trailing state of the
    /// row above, and reports whether the row's own trailing state changed.
    fn rescan_row(&mut self, i: usize) -> (changed: bool)
        requires
            old(self).wf(),
            i < old(self).erow@.len(),
            old(self).syntax is Some,
        ensures
            final(self).wf(),
            Self::frame_eq(final(self), old(self)),
            final(self).dirty == old(self).dirty,
            final(self).number_of_rows == old(self).number_of_rows,
            final(self).erow@.len() == old(self).erow@.len(),
            forall|j: int|
                0 <= j < old(self).erow@.len() && j != i ==> final(self).erow@[j] == old(
                    self,
                ).erow@[j],
            row_text_eq(final(self).erow@[i as int], old(self).erow@[i as int]),
            row_hl_ok(final(self).erow@, old(self).syntax->Some_0, i as int),
            changed == (old(self).erow@[i as int].hl_open_comment != final(self).erow@[
                i as int
            ].hl_open_comment),
    {
        let seed: bool = if i > 0 {
            self.erow[i - 1].hl_open_comment
        } else {
            false
        };
        let syn = self.syntax.as_ref().unwrap();
        let out = update_syntax_row(&self.erow[i].render, syn, seed);
        let changed = self.erow[i].hl_open_comment != out.1;
        self.erow[i].hl = Some(out.0);
        self.erow[i].hl_open_comment = out.1;
        changed
    }

    /// Recolors the row at `row_index` and propagates downward: whenever a
    /// row's trailing block-comment state changes, the row below is
    /// rescanned with the new incoming state, until a row's state comes out
    /// unchanged or the document ends. Out-of-range rows, or no active
    /// syntax, leave the document untouched.
    pub fn editor_update_syntax(&mut self, row_index: usize)
        requires
            old(self).wf(),
        ensures
            final(self).wf(),
            Self::frame_eq(final(self), old(self)),
            final(self).dirty == old(self).dirty,
            final(self).number_of_rows == old(self).number_of_rows,
            final(self).erow@.len() == old(self).erow@.len(),
            (row_index >= old(self).erow@.len() || old(self).syntax is None) ==> *final(self)
                == *old(self),
            forall|j: int|
                0 <= j < row_index && j < old(self).erow@.len() ==> final(self).erow@[j] == old(
                    self,
                ).erow@[j],
            forall|j: int|
                0 <= j < old(self).erow@.len() ==> row_text_eq(
                    #[trigger] final(self).erow@[j],
                    old(self).erow@[j],
                ),
            (row_index < old(self).erow@.len() && old(self).syntax is Some) ==> rescan_effect(
                old(self).erow@,
                final(self).erow@,
                old(self).syntax->Some_0,
                row_index as int,
            ),
    {
        let n = self.erow.len();
        if row_index >= n {
            return ;
        }
        if self.syntax.is_none() {
            return ;
        }
        let ghost syn = self.syntax->Some_0;
        let mut i = row_index;
        let mut changed = self.rescan_row(i);
        while changed && i + 1 < n
            invariant
                self.wf(),
                n == self.erow@.len(),
                row_index <= i < n,
                self.syntax is Some,
                self.syntax->Some_0 == syn,
                Self::frame_eq(self, old(self)),
                self.dirty == old(self).dirty,
                self.number_of_rows == old(self).number_of_rows,
                forall|j: int|
                    0 <= j < n && !(row_index <= j <= i) ==> self.erow@[j] == old(self).erow@[j],
                forall|j: int|
                    row_index <= j <= i ==> row_text_eq(#[trigger] self.erow@[j], old(self).erow@[j]),
                forall|j: int| row_index <= j <= i ==> row_hl_ok(self.erow@, syn, j),
                forall|j: int|
                    row_index <= j < i ==> (#[trigger] self.erow@[j]).hl_open_comment != old(
                        self,
                    ).erow@[j].hl_open_comment,
                changed == (self.erow@[i as int].hl_open_comment != old(self).erow@[
                    i as int
                ].hl_open_comment),
            decreases n - i,
        {
            i = i + 1;
            let ghost pre = self.erow@;
            changed = self.rescan_row(i);
            proof {
                assert forall|j: int| row_index <= j <= i implies row_hl_ok(self.erow@, syn, j) by {
                    if j < i {
                        assert(row_hl_ok(pre, syn, j));
                        assert(self.erow@[j] == pre[j]);
                        if j > 0 {
                            assert(self.erow@[j - 1] == pre[j - 1]);
                        }
                    }
                }
            }
        }
        proof {
            let k = i as int;
            assert(rescan_effect(old(self).erow@, self.erow@, syn, row_index as int));
        }
    }

    /// Inserts a new row holding `s` at position `at` (clamped to the row
    /// count, so a position past the end appends), renumbers the rows below,
    /// recolors from the new row down, and counts one edit.
    pub fn editor_insert_row(&mut self, at: usize, s: Vec<char>)
        requires
            old(self).wf(),
        ensures
            final(self).wf(),
            ({
                let at = vstd::math::min(at as int, old(self).erow@.len() as int);
                &&& Self::frame_eq(final(self), old(self))
                &&& final(self).erow@.len() == old(self).erow@.len() + 1
                &&& doc_chars(final(self).erow@) == doc_chars(old(self).erow@).insert(at, s@)
                &&& final(self).dirty == bump(old(self).dirty)
                &&& (forall|j: int| 0 <= j < at ==> final(self).erow@[j] == old(self).erow@[j])
                &&& (forall|j: int|
                    at < j < final(self).erow@.len() ==> row_hl_eq(
                        #[trigger] final(self).erow@[j],
                        old(self).erow@[j - 1],
                    ) || row_hl_ok(final(self).erow@, old(self).syntax->Some_0, j))
                &&& (old(self).syntax is Some ==> row_hl_ok(
                    final(self).erow@,
                    old(self).syntax->Some_0,
                    at,
                ))
            }),
    {
        let n = self.erow.len();
        let at = if at > n {
            n
        } else {
            at
        };
        let mut j = at;
        while j < n
            invariant
                old(self).wf(),
                at <= j <= n,
                n == old(self).erow@.len(),
                n == self.erow@.len(),
                Self::frame_eq(self, old(self)),
                self.dirty == old(self).dirty,
                self.number_of_rows == old(self).number_of_rows,
                self.number_of_rows == n,
                forall|i: int| 0 <= i < at ==> self.erow@[i] == old(self).erow@[i],
                forall|i: int| j <= i < n ==> self.erow@[i] == old(self).erow@[i],
                forall|i: int|
                    at <= i < j ==> row_text_eq_except_idx(
                        #[trigger] self.erow@[i],
                        old(self).erow@[i],
                    ) && row_hl_eq(self.erow@[i], old(self).erow@[i]) && self.erow@[i].idx == i + 1,
                forall|i: int| 0 <= i < n ==> (#[trigger] self.erow@[i]).wf(),
            decreases n - j,
        {
            proof {
                assert(old(self).erow@[j as int].idx == j);
            }
            let v = self.erow[j].idx;
            self.erow[j].idx = v + 1;
            j = j + 1;
        }
        let row = EditorRow::new_row(s, at);
        self.erow.insert(at, row);
        self.number_of_rows = self.erow.len();
        proof {
            assert forall|i: int| 0 <= i < self.erow@.len() implies (#[trigger] self.erow@[i]).wf()
                && self.erow@[i].idx == i by {}
            assert(self.wf());
        }
        let ghost mid = self.erow@;
        self.editor_update_syntax(at);
        let d = self.dirty;
        self.dirty = if d < usize::MAX {
            d + 1
        } else {
            d
        };
        proof {
            assert(doc_chars(self.erow@) =~= doc_chars(old(self).erow@).insert(at as int, s@));
            if self.syntax is Some {
                let syn = old(self).syntax->Some_0;
                let k = choose|k: int|
                    #![auto]
                    at <= k < self.erow@.len() && (forall|j: int|
                        at <= j <= k ==> row_hl_ok(self.erow@, syn, j)) && (forall|j: int|
                        k < j < self.erow@.len() ==> self.erow@[j] == mid[j]) && (k + 1
                        < self.erow@.len() ==> self.erow@[k].hl_open_comment
                        == mid[k].hl_open_comment);
                assert forall|j: int| at < j < self.erow@.len() implies row_hl_eq(
                    #[trigger] self.erow@[j],
                    old(self).erow@[j - 1],
                ) || row_hl_ok(self.erow@, old(self).syntax->Some_0, j) by {
                    if j > k {
                        assert(self.erow@[j] == mid[j]);
                        assert(mid[j] == old(self).erow@[j - 1] || row_hl_eq(
                            mid[j],
                            old(self).erow@[j - 1],
                        ));
                    }
                }
            }
        }
    }

    /// Removes the row at position `at`, renumbers the rows below, recolors
    /// the row that took its place, and counts one edit. Out-of-range
    /// positions are a no-op.
    pub fn editor_free_row(&mut self, at: usize)
        requires
            old(self).wf(),
        ensures
            final(self).wf(),
            at >= old(self).erow@.len() ==> *final(self) == *old(self),
            at < old(self).erow@.len() ==> {
                &&& Self::frame_eq(final(self), old(self))
                &&& final(self).erow@.len() == old(self).erow@.len() - 1
                &&& doc_chars(final(self).erow@) == doc_chars(old(self).erow@).remove(at as int)
                &&& final(self).dirty == bump(old(self).dirty)
                &&& forall|j: int| 0 <= j < at ==> final(self).erow@[j] == old(self).erow@[j]
                &&& forall|j: int|
                    at <= j < final(self).erow@.len() ==> row_hl_eq(
                        #[trigger] final(self).erow@[j],
                        old(self).erow@[j + 1],
                    ) || row_hl_ok(final(self).erow@, old(self).syntax->Some_0, j)
            },
    {
        let n = self.erow.len();
        if at >= n {
            return ;
        }
        let mut j = at + 1;
        while j < n
            invariant
                old(self).wf(),
                at + 1 <= j <= n,
                n == old(self).erow@.len(),
                n == self.erow@.len(),
                Self::frame_eq(self, old(self)),
                self.dirty == old(self).dirty,
                self.number_of_rows == old(self).number_of_rows,
                self.number_of_rows == n,
                forall|i: int| 0 <= i <= at ==> self.erow@[i] == old(self).erow@[i],
                forall|i: int| j <= i < n ==> self.erow@[i] == old(self).erow@[i],
                forall|i: int|
                    at < i < j ==> row_text_eq_except_idx(
                        #[trigger] self.erow@[i],
                        old(self).erow@[i],
                    ) && row_hl_eq(self.erow@[i], old(self).erow@[i]) && self.erow@[i].idx == i - 1,
                forall|i: int| 0 <= i < n ==> (#[trigger] self.erow@[i]).wf(),
            decreases n - j,
        {
            proof {
                assert(old(self).erow@[j as int].idx == j);
            }
            let v = self.erow[j].idx;
            self.erow[j].idx = v - 1;
            j = j + 1;
        }
        self.erow.remove(at);
        self.number_of_rows = self.erow.len();
        proof {
            assert(self.wf());
        }
        let ghost mid = self.erow@;
        if at < self.erow.len() {
            self.editor_update_syntax(at);
        }
        let d = self.dirty;
        self.dirty = if d < usize::MAX {
            d + 1
        } else {
            d
        };
        proof {
            assert(doc_chars(self.erow@) =~= doc_chars(old(self).erow@).remove(at as int));
            if at < self.erow@.len() && self.syntax is Some {
                let syn = old(self).syntax->Some_0;
                let k = choose|k: int|
                    #![auto]
                    at <= k < self.erow@.len() && (forall|j: int|
                        at <= j <= k ==> row_hl_ok(self.erow@, syn, j)) && (forall|j: int|
                        k < j < self.erow@.len() ==> self.erow@[j] == mid[j]) && (k + 1
                        < self.erow@.len() ==> self.erow@[k].hl_open_comment
                        == mid[k].hl_open_comment);
                assert forall|j: int| at <= j < self.erow@.len() implies row_hl_eq(
                    #[trigger] self.erow@[j],
                    old(self).erow@[j + 1],
                ) || row_hl_ok(self.erow@, old(self).syntax->Some_0, j) by {
                    if j > k {
                        assert(self.erow@[j] == mid[j]);
                    }
                }
            }
        }
    }
}

impl EditorConfig {
    /// The highlight-settling that one edit at row `at` leaves: rows from
    /// `at` to some stabilization point are freshly scanned, rows below the
    /// point keep the highlighting they had (at the given index offset into
    /// the old rows).
    pub open spec fn hl_settled(
        old_rows: Seq<EditorRow>,
        new_rows: Seq<EditorRow>,
        syn: EditorSyntax,
        at: int,
        off: int,
    ) -> bool {
        exists|k: int|
            #![trigger new_rows[k]]
            at <= k < new_rows.len() && (forall|j: int|
                at <= j <= k ==> row_hl_ok(new_rows, syn, j)) && (forall|j: int|
                k < j < new_rows.len() ==> row_hl_eq(new_rows[j], old_rows[j + off]))
    }

    /// Inserts one character at the cursor, appending a fresh row first when
    /// the cursor rests on the virtual row past the end of the document;
    /// the insertion column is the cursor column clamped to the row's
    /// length, and the cursor advances to just after the new character.
    /// What inserting one character at the cursor leaves behind: the
    /// character sits at the cursor column (clamped to the row), the cursor
    /// advances past it, the edit is counted, and highlighting settles from
    /// the edited row down; on the virtual row past the end a fresh
    /// one-character row appears.
    pub open spec fn insert_char_post(pre: EditorConfig, post: EditorConfig, c: char) -> bool {
        &&& post.cy == pre.cy
        &&& post.rx == pre.rx
        &&& post.row_off == pre.row_off
        &&& post.col_off == pre.col_off
        &&& post.screen_rows == pre.screen_rows
        &&& post.screen_cols == pre.screen_cols
        &&& post.quit_times == pre.quit_times
        &&& post.filename == pre.filename
        &&& post.status_msg == pre.status_msg
        &&& post.status_msg_time == pre.status_msg_time
        &&& post.saved_hl == pre.saved_hl
        &&& post.saved_hl_line == pre.saved_hl_line
        &&& post.syntax == pre.syntax
        &&& (pre.cy < pre.erow@.len() ==> {
            let cy = pre.cy as int;
            let line = pre.erow@[cy].chars@;
            let at = vstd::math::min(pre.cx as int, line.len() as int);
            &&& post.erow@.len() == pre.erow@.len()
            &&& doc_chars(post.erow@) == doc_chars(pre.erow@).update(cy, line.insert(at, c))
            &&& post.cx == at + 1
            &&& post.dirty == bump(pre.dirty)
            &&& (forall|j: int| 0 <= j < cy ==> post.erow@[j] == pre.erow@[j])
            &&& (pre.syntax is Some ==> Self::hl_settled(
                pre.erow@,
                post.erow@,
                pre.syntax->Some_0,
                cy,
                0,
            ))
        })
        &&& (pre.cy == pre.erow@.len() ==> {
            &&& post.erow@.len() == pre.erow@.len() + 1
            &&& doc_chars(post.erow@) == doc_chars(pre.erow@).push(seq![c])
            &&& post.cx == 1
            &&& post.dirty == bump(bump(pre.dirty))
            &&& (forall|j: int| 0 <= j < pre.erow@.len() ==> post.erow@[j] == pre.erow@[j])
            &&& (pre.syntax is Some ==> row_hl_ok(post.erow@, pre.syntax->Some_0, pre.cy as int))
        })
    }

    #[verifier::rlimit(100)]
    pub fn editor_insert_char(&mut self, c: char)
        requires
            old(self).wf(),
            old(self).cy <= old(self).erow@.len(),
        ensures
            final(self).wf(),
            Self::insert_char_post(*old(self), *final(self), c),
            old(self).cy < old(self).erow@.len() ==> {
                let cy = old(self).cy as int;
                let line = old(self).erow@[cy].chars@;
                let at = vstd::math::min(old(self).cx as int, line.len() as int);
                &&& final(self).erow@.len() == old(self).erow@.len()
                &&& doc_chars(final(self).erow@) == doc_chars(old(self).erow@).update(
                    cy,
                    line.insert(at, c),
                )
                &&& final(self).cx == at + 1
                &&& final(self).dirty == bump(old(self).dirty)
                &&& forall|j: int| 0 <= j < cy ==> final(self).erow@[j] == old(self).erow@[j]
                &&& (old(self).syntax is Some ==> Self::hl_settled(
                    old(self).erow@,
                    final(self).erow@,
                    old(self).syntax->Some_0,
                    cy,
                    0,
                ))
            },
            old(self).cy == old(self).erow@.len() ==> {
                &&& final(self).erow@.len() == old(self).erow@.len() + 1
                &&& doc_chars(final(self).erow@) == doc_chars(old(self).erow@).push(seq![c])
                &&& final(self).cx == 1
                &&& final(self).dirty == bump(bump(old(self).dirty))
                &&& forall|j: int|
                    0 <= j < old(self).erow@.len() ==> final(self).erow@[j] == old(self).erow@[j]
                &&& (old(self).syntax is Some ==> row_hl_ok(
                    final(self).erow@,
                    old(self).syntax->Some_0,
                    old(self).cy as int,
                ))
            },
    {
        if self.cy == self.number_of_rows {
            let empty: Vec<char> = Vec::new();
            proof {
                assert(empty@ =~= Seq::<char>::empty());
            }
            self.editor_insert_row(self.number_of_rows, empty);
            proof {
                assert(doc_chars(self.erow@) =~= doc_chars(old(self).erow@).push(
                    Seq::<char>::empty(),
                ));
                assert(self.erow@[old(self).erow@.len() as int].chars@ == doc_chars(self.erow@)[old(
                    self,
                ).erow@.len() as int]);
            }
        }
        let cy = self.cy;
        let rsize = self.erow[cy].size;
        let at = if self.cx < rsize {
            self.cx
        } else {
            rsize
        };
        let ghost mid0 = self.erow@;
        let row = &mut self.erow[cy];
        row.insert_char(at, c);
        proof {
            assert forall|i: int| 0 <= i < self.erow@.len() implies (#[trigger] self.erow@[i]).wf()
                && self.erow@[i].idx == i by {
                if i != cy {
                    assert(self.erow@[i] == mid0[i]);
                }
            }
        }
        let ghost mid = self.erow@;
        self.editor_update_syntax(cy);
        self.cx = at + 1;
        let d = self.dirty;
        self.dirty = if d < usize::MAX {
            d + 1
        } else {
            d
        };
        proof {
            if old(self).cy < old(self).erow@.len() {
                let cyi = old(self).cy as int;
                let line = old(self).erow@[cyi].chars@;
                let ati = vstd::math::min(old(self).cx as int, line.len() as int);
                assert(doc_chars(self.erow@) =~= doc_chars(old(self).erow@).update(
                    cyi,
                    line.insert(ati, c),
                ));
                if self.syntax is Some {
                    let syn = old(self).syntax->Some_0;
                    assert forall|j: int| cyi < j < mid.len() implies row_hl_eq(
                        #[trigger] mid[j],
                        old(self).erow@[j],
                    ) by {
                        assert(mid0 == old(self).erow@);
                        assert(mid[j] == mid0[j]);
                    }
                    lemma_settle_from_rescan(old(self).erow@, mid, self.erow@, syn, cyi, 0);
                }
            } else {
                let n0 = old(self).erow@.len() as int;
                assert forall|j: int| 0 <= j < self.erow@.len() implies #[trigger] doc_chars(
                    self.erow@,
                )[j] == doc_chars(old(self).erow@).push(seq![c])[j] by {
                    if j < n0 {
                        assert(self.erow@[j] == old(self).erow@[j]);
                    } else {
                        assert(row_text_eq(self.erow@[j], mid[j]));
                        assert(mid0[j].chars@ == doc_chars(mid0)[j]);
                        assert(doc_chars(mid0)[j] =~= Seq::<char>::empty());
                        assert(mid[j].chars@ == mid0[j].chars@.insert(
                            vstd::math::min(at as int, mid0[j].chars@.len() as int),
                            c,
                        ));
                        assert(mid[j].chars@ =~= seq![c]);
                    }
                }
                assert(doc_chars(self.erow@) =~= doc_chars(old(self).erow@).push(seq![c]));
                if self.syntax is Some {
                    let syn = old(self).syntax->Some_0;
                    let cyi = old(self).cy as int;
                    let k = choose|k: int|
                        #![auto]
                        cyi <= k < self.erow@.len() && (forall|j: int|
                            cyi <= j <= k ==> row_hl_ok(self.erow@, syn, j)) && (forall|j: int|
                            k < j < self.erow@.len() ==> self.erow@[j] == mid[j]) && (k + 1
                            < self.erow@.len() ==> self.erow@[k].hl_open_comment
                            == mid[k].hl_open_comment);
                    assert(row_hl_ok(self.erow@, syn, cyi));
                }
            }
        }
    }

    /// What deleting left of the cursor leaves behind: within a row the
    /// character before the cursor goes and the cursor steps left; at column
    /// zero the row joins onto the row above, the cursor landing at the join
    /// point; at the document start, or past its end, nothing happens.
    pub open spec fn del_char_post(pre: EditorConfig, post: EditorConfig) -> bool {
        &&& (post.wf())
        &&& (post.rx == pre.rx)
        &&& (post.row_off == pre.row_off)
        &&& (post.col_off == pre.col_off)
        &&& (post.screen_rows == pre.screen_rows)
        &&& (post.screen_cols == pre.screen_cols)
        &&& (post.quit_times == pre.quit_times)
        &&& (post.filename == pre.filename)
        &&& (post.status_msg == pre.status_msg)
        &&& (post.status_msg_time == pre.status_msg_time)
        &&& (post.saved_hl == pre.saved_hl)
        &&& (post.saved_hl_line == pre.saved_hl_line)
        &&& (post.syntax == pre.syntax)
        &&& (pre.cy >= pre.erow@.len() ==> post == pre)
        &&& ((pre.cy < pre.erow@.len() && pre.cx == 0 && pre.cy == 0)
                ==> post == pre)
        &&& ((pre.cy < pre.erow@.len() && pre.cx > 0) ==> {
                let cy = pre.cy as int;
                let line = pre.erow@[cy].chars@;
                let at = (pre.cx - 1) as int;
                &&& post.erow@.len() == pre.erow@.len()
                &&& doc_chars(post.erow@) == doc_chars(pre.erow@).update(
                    cy,
                    if at < line.len() {
                        line.remove(at)
                    } else {
                        line
                    },
                )
                &&& post.cx == pre.cx - 1
                &&& post.cy == pre.cy
                &&& post.dirty == bump(pre.dirty)
                &&& forall|j: int| 0 <= j < cy ==> post.erow@[j] == pre.erow@[j]
                &&& (pre.syntax is Some ==> Self::hl_settled(
                    pre.erow@,
                    post.erow@,
                    pre.syntax->Some_0,
                    cy,
                    0,
                ))
            })
        &&& ((pre.cy < pre.erow@.len() && pre.cx == 0 && pre.cy > 0) ==> {
                let cy = pre.cy as int;
                let prev = pre.erow@[cy - 1].chars@;
                let cur = pre.erow@[cy].chars@;
                &&& post.erow@.len() == pre.erow@.len() - 1
                &&& doc_chars(post.erow@) == doc_chars(pre.erow@).remove(cy).update(
                    cy - 1,
                    prev + cur,
                )
                &&& post.cx == prev.len()
                &&& post.cy == pre.cy - 1
                &&& post.dirty == bump(pre.dirty)
                &&& forall|j: int| 0 <= j < cy - 1 ==> post.erow@[j] == pre.erow@[j]
                &&& (pre.syntax is Some ==> Self::hl_settled(
                    pre.erow@,
                    post.erow@,
                    pre.syntax->Some_0,
                    cy - 1,
                    1,
                ))
            })
    }

    /// Deletes the character left of the cursor; at the start of a row the
    /// row's text is joined onto the row above, the cursor landing at the
    /// join point. At the very start of the document, or past its end,
    /// nothing happens.
    #[verifier::rlimit(100)]
    pub fn editor_del_char(&mut self)
        requires
            old(self).wf(),
        ensures
            Self::del_char_post(*old(self), *final(self)),
            final(self).wf(),
            final(self).rx == old(self).rx,
            final(self).row_off == old(self).row_off,
            final(self).col_off == old(self).col_off,
            final(self).screen_rows == old(self).screen_rows,
            final(self).screen_cols == old(self).screen_cols,
            final(self).quit_times == old(self).quit_times,
            final(self).filename == old(self).filename,
            final(self).status_msg == old(self).status_msg,
            final(self).status_msg_time == old(self).status_msg_time,
            final(self).saved_hl == old(self).saved_hl,
            final(self).saved_hl_line == old(self).saved_hl_line,
            final(self).syntax == old(self).syntax,
            old(self).cy >= old(self).erow@.len() ==> *final(self) == *old(self),
            (old(self).cy < old(self).erow@.len() && old(self).cx == 0 && old(self).cy == 0)
                ==> *final(self) == *old(self),
            (old(self).cy < old(self).erow@.len() && old(self).cx > 0) ==> {
                let cy = old(self).cy as int;
                let line = old(self).erow@[cy].chars@;
                let at = (old(self).cx - 1) as int;
                &&& final(self).erow@.len() == old(self).erow@.len()
                &&& doc_chars(final(self).erow@) == doc_chars(old(self).erow@).update(
                    cy,
                    if at < line.len() {
                        line.remove(at)
                    } else {
                        line
                    },
                )
                &&& final(self).cx == old(self).cx - 1
                &&& final(self).cy == old(self).cy
                &&& final(self).dirty == bump(old(self).dirty)
                &&& forall|j: int| 0 <= j < cy ==> final(self).erow@[j] == old(self).erow@[j]
                &&& (old(self).syntax is Some ==> Self::hl_settled(
                    old(self).erow@,
                    final(self).erow@,
                    old(self).syntax->Some_0,
                    cy,
                    0,
                ))
            },
            (old(self).cy < old(self).erow@.len() && old(self).cx == 0 && old(self).cy > 0) ==> {
                let cy = old(self).cy as int;
                let prev = old(self).erow@[cy - 1].chars@;
                let cur = old(self).erow@[cy].chars@;
                &&& final(self).erow@.len() == old(self).erow@.len() - 1
                &&& doc_chars(final(self).erow@) == doc_chars(old(self).erow@).remove(cy).update(
                    cy - 1,
                    prev + cur,
                )
                &&& final(self).cx == prev.len()
                &&& final(self).cy == old(self).cy - 1
                &&& final(self).dirty == bump(old(self).dirty)
                &&& forall|j: int| 0 <= j < cy - 1 ==> final(self).erow@[j] == old(self).erow@[j]
                &&& (old(self).syntax is Some ==> Self::hl_settled(
                    old(self).erow@,
                    final(self).erow@,
                    old(self).syntax->Some_0,
                    cy - 1,
                    1,
                ))
            },
    {
        let n = self.erow.len();
        if self.cy >= n {
            return ;
        }
        if self.cx == 0 && self.cy == 0 {
            return ;
        }
        if self.cx > 0 {
            let cy = self.cy;
            self.cx = self.cx - 1;
            let at = self.cx;
            let ghost mid0 = self.erow@;
            let row = &mut self.erow[cy];
            row.delete_char(at);
            proof {
                assert forall|i: int|
                    0 <= i < self.erow@.len() implies (#[trigger] self.erow@[i]).wf()
                    && self.erow@[i].idx == i by {
                    if i != cy {
                        assert(self.erow@[i] == mid0[i]);
                    }
                }
            }
            let ghost mid = self.erow@;
            self.editor_update_syntax(cy);
            let d = self.dirty;
            self.dirty = if d < usize::MAX {
                d + 1
            } else {
                d
            };
            proof {
                let cyi = old(self).cy as int;
                let line = old(self).erow@[cyi].chars@;
                let ati = (old(self).cx - 1) as int;
                assert(doc_chars(self.erow@) =~= doc_chars(old(self).erow@).update(
                    cyi,
                    if ati < line.len() {
                        line.remove(ati)
                    } else {
                        line
                    },
                ));
                if self.syntax is Some {
                    let syn = old(self).syntax->Some_0;
                    assert forall|j: int| cyi < j < mid.len() implies row_hl_eq(
                        #[trigger] mid[j],
                        old(self).erow@[j],
                    ) by {
                        assert(mid[j] == old(self).erow@[j]);
                    }
                    lemma_settle_from_rescan(old(self).erow@, mid, self.erow@, syn, cyi, 0);
                }
            }
        } else {
            let cy = self.cy;
            let current_row = self.erow.remove(cy);
            let mut j = cy;
            while j < self.erow.len()
                invariant
                    old(self).wf(),
                    old(self).cy == cy,
                    0 < cy < old(self).erow@.len(),
                    self.erow@.len() == old(self).erow@.len() - 1,
                    cy <= j <= self.erow@.len(),
                    Self::frame_eq(self, old(self)),
                    self.dirty == old(self).dirty,
                    self.number_of_rows == old(self).number_of_rows,
                    forall|i: int| 0 <= i < cy ==> self.erow@[i] == old(self).erow@[i],
                    forall|i: int|
                        j <= i < self.erow@.len() ==> self.erow@[i] == old(self).erow@[i + 1],
                    forall|i: int|
                        cy <= i < j ==> row_text_eq_except_idx(
                            #[trigger] self.erow@[i],
                            old(self).erow@[i + 1],
                        ) && row_hl_eq(self.erow@[i], old(self).erow@[i + 1]) && self.erow@[i].idx
                            == i,
                decreases self.erow@.len() - j,
            {
                proof {
                    assert(old(self).erow@[j as int + 1].idx == j + 1);
                }
                let v = self.erow[j].idx;
                self.erow[j].idx = v - 1;
                j = j + 1;
            }
            self.cy = cy - 1;
            let prev_row_len = self.erow[cy - 1].size;
            let ghost mid0 = self.erow@;
            let prev_row = &mut self.erow[cy - 1];
            prev_row.append_string(&current_row.chars);
            proof {
                assert forall|i: int|
                    0 <= i < self.erow@.len() implies (#[trigger] self.erow@[i]).wf()
                    && self.erow@[i].idx == i by {
                    if i != cy - 1 {
                        assert(self.erow@[i] == mid0[i]);
                    }
                }
            }
            self.number_of_rows = self.erow.len();
            let ghost mid = self.erow@;
            self.editor_update_syntax(cy - 1);
            self.cx = prev_row_len;
            let d = self.dirty;
            self.dirty = if d < usize::MAX {
                d + 1
            } else {
                d
            };
            proof {
                let cyi = old(self).cy as int;
                let prev = old(self).erow@[cyi - 1].chars@;
                let cur = old(self).erow@[cyi].chars@;
                assert(doc_chars(self.erow@) =~= doc_chars(old(self).erow@).remove(cyi).update(
                    cyi - 1,
                    prev + cur,
                ));
                if self.syntax is Some {
                    let syn = old(self).syntax->Some_0;
                    assert forall|j: int| cyi - 1 < j < mid.len() implies row_hl_eq(
                        #[trigger] mid[j],
                        old(self).erow@[j + 1],
                    ) by {
                        assert(row_hl_eq(mid[j], mid0[j]));
                    }
                    lemma_settle_from_rescan(old(self).erow@, mid, self.erow@, syn, cyi - 1, 1);
                }
            }
        }
    }

    /// Splits the line at the cursor: at column zero an empty row is
    /// inserted above; otherwise the text from the cursor on moves to a new
    /// row below. The cursor lands at the start of the lower row.
    pub fn editor_insert_new_line(&mut self)
        requires
            old(self).wf(),
            old(self).cy <= old(self).erow@.len(),
        ensures
            final(self).wf(),
            Self::insert_new_line_post(*old(self), *final(self)),
    {
        if self.cx == 0 || self.cy == self.number_of_rows {
            let empty: Vec<char> = Vec::new();
            let cy = self.cy;
            self.editor_insert_row(cy, empty);
        } else {
            let cy = self.cy;
            let rowlen = self.erow[cy].size;
            let cx = if self.cx < rowlen {
                self.cx
            } else {
                rowlen
            };
            let ghost mid0 = self.erow@;
            let row = &mut self.erow[cy];
            let right = row.chars.split_off(cx);
            row.size = row.chars.len();
            row.update_row();
            proof {
                assert forall|i: int|
                    0 <= i < self.erow@.len() implies (#[trigger] self.erow@[i]).wf()
                    && self.erow@[i].idx == i by {
                    if i != cy {
                        assert(self.erow@[i] == mid0[i]);
                    }
                }
            }
            self.editor_update_syntax(cy);
            self.editor_insert_row(cy + 1, right);
            proof {
                let cyi = old(self).cy as int;
                let line = old(self).erow@[cyi].chars@;
                let at = vstd::math::min(old(self).cx as int, line.len() as int);
                assert(doc_chars(self.erow@) =~= doc_chars(old(self).erow@).update(
                    cyi,
                    line.take(at),
                ).insert(cyi + 1, line.skip(at)));
            }
        }
        self.cy = self.cy + 1;
        self.cx = 0;
    }

    /// What splitting the line at the cursor leaves behind: at column zero,
    /// or on the virtual row past the end, an empty row appears above the
    /// cursor; otherwise the text from the (clamped) cursor column moves to
    /// a new row below. The cursor lands at the start of the lower row and
    /// the edit is counted.
    pub open spec fn insert_new_line_post(pre: EditorConfig, post: EditorConfig) -> bool {
        &&& post.cy == pre.cy + 1
        &&& post.cx == 0
        &&& post.rx == pre.rx
        &&& post.row_off == pre.row_off
        &&& post.col_off == pre.col_off
        &&& post.quit_times == pre.quit_times
        &&& post.filename == pre.filename
        &&& post.syntax == pre.syntax
        &&& post.screen_rows == pre.screen_rows
        &&& post.screen_cols == pre.screen_cols
        &&& post.erow@.len() == pre.erow@.len() + 1
        &&& post.dirty == bump(pre.dirty)
        &&& if pre.cx == 0 || pre.cy == pre.erow@.len() {
            doc_chars(post.erow@) == doc_chars(pre.erow@).insert(
                pre.cy as int,
                Seq::<char>::empty(),
            )
        } else {
            let cy = pre.cy as int;
            let line = pre.erow@[cy].chars@;
            let at = vstd::math::min(pre.cx as int, line.len() as int);
            doc_chars(post.erow@) == doc_chars(pre.erow@).update(cy, line.take(at)).insert(
                cy + 1,
                line.skip(at),
            )
        }
    }
}


/// Carries a worklist postcondition over to the state before a textual
/// edit: if the rows' highlighting before the rescan agreed (at an index
/// offset) with some earlier state, the rescan leaves the suffix agreeing
/// with that state too.
pub proof fn lemma_settle_from_rescan(
    old_rows: Seq<EditorRow>,
    mid: Seq<EditorRow>,
    new_rows: Seq<EditorRow>,
    syn: EditorSyntax,
    at: int,
    off: int,
)
    requires
        rescan_effect(mid, new_rows, syn, at),
        mid.len() == new_rows.len(),
        forall|j: int| at < j < mid.len() ==> row_hl_eq(#[trigger] mid[j], old_rows[j + off]),
    ensures
        EditorConfig::hl_settled(old_rows, new_rows, syn, at, off),
{
    let k = choose|k: int|
        #![auto]
        at <= k < new_rows.len() && (forall|j: int|
            at <= j <= k ==> row_hl_ok(new_rows, syn, j)) && (forall|j: int|
            k < j < new_rows.len() ==> new_rows[j] == mid[j]) && (k + 1 < new_rows.len()
            ==> new_rows[k].hl_open_comment == mid[k].hl_open_comment);
    assert forall|j: int| k < j < new_rows.len() implies row_hl_eq(
        new_rows[j],
        old_rows[j + off],
    ) by {
        assert(new_rows[j] == mid[j]);
        assert(row_hl_eq(mid[j], old_rows[j + off]));
    }
    assert(at <= k < new_rows.len() && (forall|j: int|
        at <= j <= k ==> row_hl_ok(new_rows, syn, j)) && (forall|j: int|
        k < j < new_rows.len() ==> row_hl_eq(new_rows[j], old_rows[j + off])));
}

/// Two rows hold the same text and rendered form, position aside.
pub open spec fn row_text_eq_except_idx(a: EditorRow, b: EditorRow) -> bool {
    &&& a.chars == b.chars
    &&& a.render == b.render
    &&& a.size == b.size
    &&& a.r_size == b.r_size
}

/// A text occurs somewhere in another.
pub open spec fn contains_sub(hay: Seq<char>, needle: Seq<char>) -> bool {
    exists|i: int| 0 <= i && delim_matches(hay, i, needle)
}

/// The position of the last dot in a filename, or a negative value when
/// there is none.
pub open spec fn last_dot(name: Seq<char>) -> int
    decreases name.len(),
{
    if name.len() == 0 {
        -1
    } else if name[name.len() - 1] == '.' {
        name.len() - 1
    } else {
        last_dot(name.drop_last())
    }
}

/// A filename-match pattern applies: a pattern starting with a dot must
/// equal the filename's extension, any other must occur in the filename.
pub open spec fn pattern_matches(name: Seq<char>, pat: Seq<char>) -> bool {
    if pat.len() > 0 && pat[0] == '.' {
        last_dot(name) >= 0 && name.subrange(last_dot(name), name.len() as int) == pat
    } else {
        contains_sub(name, pat)
    }
}

/// A syntax profile applies to a filename when one of its patterns does.
pub open spec fn syntax_matches(s: EditorSyntax, name: Seq<char>) -> bool {
    exists|p: int| 0 <= p < s.filematch@.len() && pattern_matches(name, #[trigger] s.filematch@[p]@)
}

/// The last dot lies within the filename and no later dot follows it.
pub proof fn lemma_last_dot(name: Seq<char>)
    ensures
        -1 <= last_dot(name) < name.len(),
        last_dot(name) >= 0 ==> name[last_dot(name)] == '.',
        forall|j: int| last_dot(name) < j < name.len() ==> name[j] != '.',
    decreases name.len(),
{
    if name.len() > 0 && name[name.len() - 1] != '.' {
        lemma_last_dot(name.drop_last());
        assert forall|j: int| last_dot(name) < j < name.len() implies name[j] != '.' by {
            if j < name.len() - 1 {
                assert(name.drop_last()[j] == name[j]);
            }
        }
    }
}

/// Copies a text.
pub(crate) fn clone_chars(v: &Vec<char>) -> (r: Vec<char>)
    ensures
        r@ == v@,
{
    let mut r: Vec<char> = Vec::new();
    let mut i: usize = 0;
    while i < v.len()
        invariant
            i <= v@.len(),
            r@ == v@.take(i as int),
        decreases v@.len() - i,
    {
        r.push(v[i]);
        proof {
            assert(r@ =~= v@.take(i as int + 1));
        }
        i = i + 1;
    }
    proof {
        assert(v@.take(v@.len() as int) =~= v@);
    }
    r
}

/// Decides whether one text occurs in another.
pub(crate) fn contains_chars(hay: &Vec<char>, needle: &Vec<char>) -> (r: bool)
    ensures
        r == contains_sub(hay@, needle@),
{
    let hn = hay.len();
    let nn = needle.len();
    if nn == 0 {
        proof {
            assert(hay@.subrange(0, 0) =~= needle@);
            assert(delim_matches(hay@, 0, needle@));
        }
        return true;
    }
    if nn > hn {
        proof {
            assert forall|i: int| 0 <= i implies !delim_matches(hay@, i, needle@) by {}
        }
        return false;
    }
    let mut i: usize = 0;
    while i <= hn - nn
        invariant
            hn == hay@.len(),
            nn == needle@.len(),
            1 <= nn <= hn,
            i <= hn - nn + 1,
            forall|j: int| 0 <= j < i ==> !delim_matches(hay@, j, needle@),
        decreases hn - nn + 1 - i,
    {
        if crate::highlight::delim_match(hay, i, needle) {
            return true;
        }
        i = i + 1;
    }
    proof {
        assert forall|j: int| 0 <= j implies !delim_matches(hay@, j, needle@) by {
            if j < i {
            } else {
                assert(j + needle@.len() > hay@.len());
            }
        }
    }
    false
}

impl EditorConfig {
    /// Any active syntax profile has every row colored exactly as one scan
    /// of the document assigns, each row seeded from the row above.
    pub open spec fn syntax_ok(&self) -> bool {
        match self.syntax {
            Some(s) => forall|i: int| 0 <= i < self.erow@.len() ==> row_hl_ok(self.erow@, s, i),
            None => true,
        }
    }

    /// Serializes the document for saving: every row's text with a newline
    /// terminator after each row, in row order.
    pub fn editor_row_to_string(&self) -> (r: Vec<char>)
        ensures
            r@ == crate::text::join_rows(doc_chars(self.erow@)),
    {
        let ghost rows = doc_chars(self.erow@);
        let mut buf: Vec<char> = Vec::new();
        proof {
            assert(rows.skip(0) =~= rows);
            assert(buf@ + crate::text::join_rows(rows) =~= crate::text::join_rows(rows));
        }
        let mut i: usize = 0;
        while i < self.erow.len()
            invariant
                rows == doc_chars(self.erow@),
                i <= self.erow@.len(),
                crate::text::join_rows(rows) == buf@ + crate::text::join_rows(
                    rows.skip(i as int),
                ),
            decreases self.erow@.len() - i,
        {
            let ghost buf0 = buf@;
            let row = &self.erow[i];
            let mut k: usize = 0;
            while k < row.chars.len()
                invariant
                    k <= row.chars@.len(),
                    buf@ == buf0 + row.chars@.take(k as int),
                decreases row.chars@.len() - k,
            {
                buf.push(row.chars[k]);
                proof {
                    assert(buf@ =~= buf0 + row.chars@.take(k as int + 1));
                }
                k = k + 1;
            }
            buf.push('\n');
            proof {
                let tail = rows.skip(i as int);
                assert(tail[0] == rows[i as int]);
                assert(tail.skip(1) =~= rows.skip(i as int + 1));
                assert(crate::text::join_rows(tail) == tail[0] + seq!['\n'] + crate::text::join_rows(
                    tail.skip(1),
                ));
                assert(row.chars@.take(row.chars@.len() as int) =~= row.chars@);
                assert(buf@ =~= buf0 + rows[i as int] + seq!['\n']);
                assert(crate::text::join_rows(rows) =~= buf@ + crate::text::join_rows(
                    rows.skip(i as int + 1),
                ));
            }
            i = i + 1;
        }
        proof {
            assert(crate::text::join_rows(rows) =~= buf@);
        }
        buf
    }

    /// Recolors every row of the document, top to bottom, leaving the whole
    /// document's highlighting consistent.
    pub fn update_all_syntax(&mut self)
        requires
            old(self).wf(),
        ensures
            final(self).wf(),
            final(self).syntax_ok(),
            Self::frame_eq(final(self), old(self)),
            final(self).dirty == old(self).dirty,
            final(self).number_of_rows == old(self).number_of_rows,
            final(self).erow@.len() == old(self).erow@.len(),
            forall|j: int|
                0 <= j < old(self).erow@.len() ==> row_text_eq(
                    #[trigger] final(self).erow@[j],
                    old(self).erow@[j],
                ),
            old(self).syntax is None ==> *final(self) == *old(self),
    {
        let n = self.erow.len();
        let mut i: usize = 0;
        while i < n
            invariant
                old(self).wf(),
                self.wf(),
                n == self.erow@.len(),
                i <= n,
                Self::frame_eq(self, old(self)),
                self.dirty == old(self).dirty,
                self.number_of_rows == old(self).number_of_rows,
                forall|j: int|
                    0 <= j < n ==> row_text_eq(#[trigger] self.erow@[j], old(self).erow@[j]),
                old(self).syntax is None ==> *self == *old(self),
                self.syntax is Some ==> forall|j: int|
                    0 <= j < i ==> row_hl_ok(self.erow@, self.syntax->Some_0, j),
            decreases n - i,
        {
            let ghost pre = self.erow@;
            self.editor_update_syntax(i);
            proof {
                if self.syntax is Some {
                    let syn = self.syntax->Some_0;
                    let k = choose|k: int|
                        #![auto]
                        i <= k < self.erow@.len() && (forall|j: int|
                            i <= j <= k ==> row_hl_ok(self.erow@, syn, j)) && (forall|j: int|
                            k < j < self.erow@.len() ==> self.erow@[j] == pre[j]) && (k + 1
                            < self.erow@.len() ==> self.erow@[k].hl_open_comment
                            == pre[k].hl_open_comment);
                    assert forall|j: int| 0 <= j < i + 1 implies row_hl_ok(self.erow@, syn, j) by {
                        if j < i {
                            assert(row_hl_ok(pre, syn, j));
                            assert(self.erow@[j] == pre[j]);
                            if j > 0 {
                                assert(self.erow@[j - 1] == pre[j - 1]);
                            }
                        }
                    }
                }
            }
            i = i + 1;
        }
    }

    /// Picks the syntax profile for the current filename: the first profile
    /// in table order with a pattern that matches wins, and the whole
    /// document is recolored under it; with no filename or no match the
    /// syntax stays disabled and the document untouched.
    pub fn editor_select_syntax_highlight(&mut self, db: Vec<EditorSyntax>)
        requires
            old(self).wf(),
            forall|d: int| 0 <= d < db@.len() ==> (#[trigger] db@[d]).wf(),
        ensures
            final(self).wf(),
            final(self).syntax_ok(),
            final(self).cx == old(self).cx && final(self).cy == old(self).cy,
            final(self).dirty == old(self).dirty,
            final(self).filename == old(self).filename,
            final(self).erow@.len() == old(self).erow@.len(),
            forall|j: int|
                0 <= j < old(self).erow@.len() ==> row_text_eq(
                    #[trigger] final(self).erow@[j],
                    old(self).erow@[j],
                ),
            old(self).filename is None ==> final(self).syntax is None && final(self).erow@ == old(
                self,
            ).erow@,
            match final(self).syntax {
                Some(s) => {
                    &&& old(self).filename is Some
                    &&& exists|d: int|
                        0 <= d < db@.len() && s == db@[d] && syntax_matches(
                            #[trigger] db@[d],
                            old(self).filename->Some_0@,
                        ) && (forall|d2: int|
                            0 <= d2 < d ==> !syntax_matches(
                                #[trigger] db@[d2],
                                old(self).filename->Some_0@,
                            ))
                },
                None => old(self).filename is Some ==> forall|d: int|
                    0 <= d < db@.len() ==> !syntax_matches(
                        #[trigger] db@[d],
                        old(self).filename->Some_0@,
                    ),
            },
    {
        self.syntax = None;
        let fname = match &self.filename {
            Some(f) => clone_chars(f),
            None => {
                return ;
            },
        };
        let ghost namev = old(self).filename->Some_0@;
        let n = fname.len();
        let mut dot: usize = 0;
        let mut has_dot = false;
        let mut i: usize = 0;
        while i < n
            invariant
                n == namev.len(),
                fname@ == namev,
                i <= n,
                has_dot == (last_dot(namev.take(i as int)) >= 0),
                has_dot ==> dot < i && last_dot(namev.take(i as int)) == dot,
            decreases n - i,
        {
            proof {
                assert(namev.take(i as int + 1).drop_last() =~= namev.take(i as int));
            }
            if fname[i] == '.' {
                dot = i;
                has_dot = true;
            }
            i = i + 1;
        }
        proof {
            assert(namev.take(n as int) =~= namev);
        }
        let mut dbv = db;
        let ghost db0 = dbv@;
        let mut d: usize = 0;
        while d < dbv.len()
            invariant
                old(self).wf(),
                self.wf(),
                dbv@ == db0,
                db@ == db0,
                old(self).filename is Some,
                namev == old(self).filename->Some_0@,
                fname@ == namev,
                n == namev.len(),
                has_dot == (last_dot(namev) >= 0),
                has_dot ==> dot < n && last_dot(namev) == dot,
                d <= db0.len(),
                forall|d2: int| 0 <= d2 < db0.len() ==> (#[trigger] db0[d2]).wf(),
                forall|d2: int| 0 <= d2 < d ==> !syntax_matches(#[trigger] db0[d2], namev),
                *self == (EditorConfig { syntax: None, ..*old(self) }),
            decreases db0.len() - d,
        {
            let entry = &dbv[d];
            let m = entry.filematch.len();
            let mut p: usize = 0;
            let mut matched = false;
            while p < m && !matched
                invariant
                    d < db0.len(),
                    *entry == db0[d as int],
                    m == entry.filematch@.len(),
                    fname@ == namev,
                    n == namev.len(),
                    has_dot == (last_dot(namev) >= 0),
                    has_dot ==> dot < n && last_dot(namev) == dot,
                    p <= m,
                    matched ==> syntax_matches(db0[d as int], namev),
                    !matched ==> forall|q: int|
                        0 <= q < p ==> !pattern_matches(namev, #[trigger] entry.filematch@[q]@),
                decreases m - p + (if matched {
                    0int
                } else {
                    1int
                }),
            {
                let pat = &entry.filematch[p];
                let is_ext = pat.len() > 0 && pat[0] == '.';
                let ok = if is_ext {
                    if has_dot && n - dot == pat.len() {
                        let hit = crate::highlight::delim_match(&fname, dot, pat);
                        proof {
                            if hit {
                                assert(namev.subrange(dot as int, n as int) =~= namev.subrange(
                                    dot as int,
                                    dot + pat@.len(),
                                ));
                            } else {
                                assert(namev.subrange(dot as int, dot + pat@.len()) =~= namev
                                    .subrange(dot as int, n as int));
                            }
                        }
                        hit
                    } else {
                        false
                    }
                } else {
                    contains_chars(&fname, pat)
                };
                proof {
                    if is_ext && !(has_dot && n - dot == pat@.len()) {
                        if has_dot {
                            assert(namev.subrange(dot as int, n as int).len() != pat@.len());
                        }
                        assert(!pattern_matches(namev, pat@));
                    }
                }
                if ok {
                    matched = true;
                } else {
                    p = p + 1;
                }
            }
            if matched {
                let s = dbv.remove(d);
                self.syntax = Some(s);
                self.update_all_syntax();
                proof {
                    assert(db@ == db0);
                    assert(self.syntax->Some_0 == db@[d as int]);
                    assert(syntax_matches(db@[d as int], namev));
                    assert(exists|dd: int|
                        0 <= dd < db@.len() && self.syntax->Some_0 == db@[dd] && syntax_matches(
                            #[trigger] db@[dd],
                            old(self).filename->Some_0@,
                        ) && (forall|d2: int|
                            0 <= d2 < dd ==> !syntax_matches(
                                #[trigger] db@[d2],
                                old(self).filename->Some_0@,
                            ))) by {
                        assert(0 <= d < db@.len() && self.syntax->Some_0 == db@[d as int]
                            && syntax_matches(db@[d as int], old(self).filename->Some_0@) && (
                        forall|d2: int|
                            0 <= d2 < d ==> !syntax_matches(
                                #[trigger] db@[d2],
                                old(self).filename->Some_0@,
                            )));
                    }
                }
                return ;
            }
            d = d + 1;
        }
        proof {
            assert(db@ == db0);
        }
    }

    /// Loads a document into an empty editor: the text splits at newlines,
    /// each line (trailing carriage returns stripped) becoming one row; the
    /// filename is recorded, the document counts as saved, and a syntax
    /// profile is selected for the filename.
    pub fn editor_open_text(&mut self, filename: Vec<char>, text: &Vec<char>, db: Vec<EditorSyntax>)
        requires
            old(self).wf(),
            old(self).erow@.len() == 0,
            forall|d: int| 0 <= d < db@.len() ==> (#[trigger] db@[d]).wf(),
        ensures
            final(self).wf(),
            final(self).syntax_ok(),
            doc_chars(final(self).erow@) == crate::text::split_lines(text@),
            final(self).dirty == 0,
            final(self).filename == Some(filename),
            final(self).cx == old(self).cx && final(self).cy == old(self).cy,
    {
        self.filename = Some(filename);
        let n = text.len();
        let mut from: usize = 0;
        while from < n
            invariant
                old(self).wf(),
                self.wf(),
                n == text@.len(),
                from <= n,
                self.cx == old(self).cx && self.cy == old(self).cy,
                self.filename == Some(filename),
                self.syntax == old(self).syntax,
                crate::text::split_lines(text@) == doc_chars(self.erow@)
                    + crate::text::split_lines_from(text@, from as int),
            decreases n - from,
        {
            proof {
                crate::text::lemma_find_char(text@, from as int, '\n');
            }
            let mut e = from;
            while e < n && text[e] != '\n'
                invariant
                    n == text@.len(),
                    from <= e <= n,
                    forall|j: int| from <= j < e ==> text@[j] != '\n',
                decreases n - e,
            {
                e = e + 1;
            }
            proof {
                assert(e == crate::text::find_char_from(text@, from as int, '\n')) by {
                    crate::text::lemma_find_char(text@, from as int, '\n');
                    let f = crate::text::find_char_from(text@, from as int, '\n');
                    if f < e {
                        assert(text@[f] != '\n');
                    }
                    if e < f {
                        assert(text@[e as int] != '\n');
                    }
                }
            }
            let mut end = e;
            while end > from && text[end - 1] == '\r'
                invariant
                    n == text@.len(),
                    from <= end <= e <= n,
                    forall|j: int| end <= j < e ==> text@[j] == '\r',
                decreases end,
            {
                end = end - 1;
            }
            proof {
                crate::text::lemma_strip_cr_range(text@, from as int, end as int, e as int);
            }
            let mut line: Vec<char> = Vec::new();
            let mut k = from;
            while k < end
                invariant
                    n == text@.len(),
                    from <= k <= end <= n,
                    line@ == text@.subrange(from as int, k as int),
                decreases end - k,
            {
                line.push(text[k]);
                proof {
                    assert(line@ =~= text@.subrange(from as int, k as int + 1));
                }
                k = k + 1;
            }
            let at = self.erow.len();
            let ghost docs0 = doc_chars(self.erow@);
            self.editor_insert_row(at, line);
            proof {
                assert(doc_chars(self.erow@) =~= docs0.push(
                    text@.subrange(from as int, end as int),
                ));
                let tail = crate::text::split_lines_from(text@, from as int);
                assert(tail == seq![crate::text::strip_cr(
                    text@.subrange(from as int, e as int),
                )] + crate::text::split_lines_from(
                    text@,
                    if e < n {
                        e as int + 1
                    } else {
                        e as int
                    },
                ));
                assert(crate::text::split_lines(text@) =~= doc_chars(self.erow@)
                    + crate::text::split_lines_from(
                    text@,
                    if e < n {
                        e as int + 1
                    } else {
                        e as int
                    },
                ));
            }
            from = if e < n {
                e + 1
            } else {
                n
            };
        }
        self.dirty = 0;
        let ghost docs = doc_chars(self.erow@);
        self.editor_select_syntax_highlight(db);
        proof {
            assert(doc_chars(self.erow@) =~= docs);
        }
    }
}

impl EditorConfig {
    /// Copies a highlight array.
    fn clone_hl(v: &Vec<EditorHighlight>) -> (r: Vec<EditorHighlight>)
        ensures
            r@ == v@,
    {
        let mut r: Vec<EditorHighlight> = Vec::new();
        let mut i: usize = 0;
        while i < v.len()
            invariant
                i <= v@.len(),
                r@ == v@.take(i as int),
            decreases v@.len() - i,
        {
            r.push(v[i]);
            proof {
                assert(r@ =~= v@.take(i as int + 1));
            }
            i = i + 1;
        }
        proof {
            assert(v@.take(v@.len() as int) =~= v@);
        }
        r
    }

    /// What restoring the saved-highlight snapshot leaves behind: with a
    /// snapshot outstanding whose row still exists and whose length still
    /// fits, that row gets its recorded highlighting back and the snapshot
    /// is cleared; otherwise with a snapshot outstanding only the snapshot
    /// is cleared; with none, nothing changes.
    pub open spec fn restore_post(pre: EditorConfig, post: EditorConfig) -> bool {
        if pre.saved_hl is Some && pre.saved_hl_line is Some {
            let line = pre.saved_hl_line->Some_0 as int;
            &&& post.saved_hl is None
            &&& post.saved_hl_line is None
            &&& post == (EditorConfig {
                saved_hl: None,
                saved_hl_line: None,
                erow: post.erow,
                ..pre
            })
            &&& post.erow@.len() == pre.erow@.len()
            &&& if 0 <= line < pre.erow@.len() && pre.erow@[line].hl is Some && pre.erow@[
                line
            ].hl->Some_0@.len() == pre.saved_hl->Some_0@.len() {
                &&& (forall|j: int|
                    0 <= j < pre.erow@.len() && j != line ==> post.erow@[j] == pre.erow@[j])
                &&& row_text_eq(post.erow@[line], pre.erow@[line])
                &&& post.erow@[line].hl_open_comment == pre.erow@[line].hl_open_comment
                &&& post.erow@[line].hl is Some
                &&& post.erow@[line].hl->Some_0@ == pre.saved_hl->Some_0@
            } else {
                post.erow@ == pre.erow@
            }
        } else {
            post == pre
        }
    }

    /// Puts back the highlighting recorded in the saved-highlight snapshot,
    /// if one is outstanding, and clears the snapshot.
    pub fn restore_highlight(&mut self)
        requires
            old(self).wf(),
        ensures
            final(self).wf(),
            Self::restore_post(*old(self), *final(self)),
    {
        let line_ok = self.saved_hl.is_some() && self.saved_hl_line.is_some();
        if !line_ok {
            return ;
        }
        let line = match self.saved_hl_line {
            Some(l) => l,
            None => 0,
        };
        let n = self.erow.len();
        if line < n {
            let saved_len = match &self.saved_hl {
                Some(v) => v.len(),
                None => 0,
            };
            let ghost pre_rows = self.erow@;
            let row_hl_len = match &self.erow[line].hl {
                Some(h) => h.len(),
                None => 0,
            };
            let has_hl = self.erow[line].hl.is_some();
            if has_hl && row_hl_len == saved_len {
                let saved = match &self.saved_hl {
                    Some(v) => Self::clone_hl(v),
                    None => Vec::new(),
                };
                self.erow[line].hl = Some(saved);
                proof {
                    assert forall|i: int|
                        0 <= i < self.erow@.len() implies (#[trigger] self.erow@[i]).wf()
                        && self.erow@[i].idx == i by {
                        if i != line {
                            assert(self.erow@[i] == pre_rows[i]);
                        }
                    }
                }
            }
        }
        self.saved_hl = None;
        self.saved_hl_line = None;
    }

    /// Restores any prior snapshot, then records the given row's current
    /// highlighting (and its position) as the one outstanding snapshot;
    /// a missing row or one without highlighting leaves no new snapshot.
    pub fn save_highlight(&mut self, line_index: usize)
        requires
            old(self).wf(),
        ensures
            final(self).wf(),
            exists|mid: EditorConfig|
                {
                    &&& #[trigger] Self::restore_post(*old(self), mid)
                    &&& mid.wf()
                    &&& final(self).erow@ == mid.erow@
                    &&& (EditorConfig {
                        saved_hl: mid.saved_hl,
                        saved_hl_line: mid.saved_hl_line,
                        ..*final(self)
                    }) == mid
                    &&& if line_index < mid.erow@.len() && mid.erow@[line_index as int].hl is Some {
                        &&& final(self).saved_hl is Some
                        &&& final(self).saved_hl->Some_0@ == mid.erow@[
                            line_index as int
                        ].hl->Some_0@
                        &&& final(self).saved_hl_line == Some(line_index)
                    } else {
                        &&& final(self).saved_hl == mid.saved_hl
                        &&& final(self).saved_hl_line == mid.saved_hl_line
                    }
                },
    {
        self.restore_highlight();
        let ghost mid = *self;
        let n = self.erow.len();
        if line_index < n {
            let has = self.erow[line_index].hl.is_some();
            if has {
                let cloned = match &self.erow[line_index].hl {
                    Some(h) => Self::clone_hl(h),
                    None => Vec::new(),
                };
                self.saved_hl = Some(cloned);
                self.saved_hl_line = Some(line_index);
            }
        }
        proof {
            assert(Self::restore_post(*old(self), mid));
            assert((EditorConfig {
                saved_hl: mid.saved_hl,
                saved_hl_line: mid.saved_hl_line,
                ..*self
            }) == mid);
            assert(exists|m: EditorConfig|
                {
                    &&& #[trigger] Self::restore_post(*old(self), m)
                    &&& m.wf()
                    &&& self.erow@ == m.erow@
                    &&& (EditorConfig { saved_hl: m.saved_hl, saved_hl_line: m.saved_hl_line, ..*self })
                        == m
                    &&& if line_index < m.erow@.len() && m.erow@[line_index as int].hl is Some {
                        &&& self.saved_hl is Some
                        &&& self.saved_hl->Some_0@ == m.erow@[line_index as int].hl->Some_0@
                        &&& self.saved_hl_line == Some(line_index)
                    } else {
                        &&& self.saved_hl == m.saved_hl
                        &&& self.saved_hl_line == m.saved_hl_line
                    }
                }) by {
                assert({
                    &&& Self::restore_post(*old(self), mid)
                    &&& mid.wf()
                    &&& self.erow@ == mid.erow@
                    &&& (EditorConfig {
                        saved_hl: mid.saved_hl,
                        saved_hl_line: mid.saved_hl_line,
                        ..*self
                    }) == mid
                    &&& if line_index < mid.erow@.len() && mid.erow@[line_index as int].hl is Some {
                        &&& self.saved_hl is Some
                        &&& self.saved_hl->Some_0@ == mid.erow@[line_index as int].hl->Some_0@
                        &&& self.saved_hl_line == Some(line_index)
                    } else {
                        &&& self.saved_hl == mid.saved_hl
                        &&& self.saved_hl_line == mid.saved_hl_line
                    }
                });
            }
        }
    }

    /// Rendered column where the cursor's logical column begins on a row.
    pub fn editor_row_cx_to_rx(&self, row: &EditorRow, cx: usize) -> (r: usize)
        requires
            row.wf(),
        ensures
            r == crate::row::spec_rx_of(
                row.chars@,
                vstd::math::min(cx as int, row.chars@.len() as int),
            ),
    {
        proof {
            crate::row::lemma_render_len(row.chars@);
        }
        crate::row::cx_to_rx(&row.chars, cx)
    }

    /// Logical column containing a rendered column on a row.
    pub fn editor_row_rx_to_cx(&self, row: &EditorRow, rx: usize) -> (r: usize)
        requires
            row.wf(),
        ensures
            r == crate::row::spec_cx_of(row.chars@, rx as int),
    {
        proof {
            crate::row::lemma_render_len(row.chars@);
        }
        crate::row::rx_to_cx(&row.chars, rx)
    }

    /// Where the cursor lands after one movement key: arrows move by one
    /// column or row, stepping across line ends, and the column then snaps
    /// to the landing row's length (or zero past the document's end).
    pub open spec fn spec_move_cursor(rows: Seq<EditorRow>, cx: int, cy: int, key: EditorKey) -> (
        int,
        int,
    ) {
        let n = rows.len() as int;
        let moved = if key == EditorKey::ArrowLeft {
            if cx > 0 {
                (cx - 1, cy)
            } else if cy > 0 {
                (rows[cy - 1].chars@.len() as int, cy - 1)
            } else {
                (cx, cy)
            }
        } else if key == EditorKey::ArrowRight {
            if cy < n && cx < rows[cy].chars@.len() {
                (cx + 1, cy)
            } else {
                (cx, cy)
            }
        } else if key == EditorKey::ArrowUp {
            if cy > 0 {
                (cx, cy - 1)
            } else {
                (cx, cy)
            }
        } else if key == EditorKey::ArrowDown {
            if cy < n {
                (cx, cy + 1)
            } else {
                (cx, cy)
            }
        } else {
            (cx, cy)
        };
        if moved.1 < n {
            (vstd::math::min(moved.0, rows[moved.1].chars@.len() as int), moved.1)
        } else {
            (0, moved.1)
        }
    }

    /// Moves the cursor one step for an arrow key, crossing line ends and
    /// snapping the column to the landing row.
    pub fn editor_move_cursor(&mut self, key: EditorKey)
        requires
            old(self).wf(),
            old(self).cy <= old(self).erow@.len(),
        ensures
            final(self).wf(),
            (final(self).cx as int, final(self).cy as int) == Self::spec_move_cursor(
                old(self).erow@,
                old(self).cx as int,
                old(self).cy as int,
                key,
            ),
            final(self).cy <= final(self).erow@.len(),
            *final(self) == (EditorConfig { cx: final(self).cx, cy: final(self).cy, ..*old(self) }),
    {
        let n = self.erow.len();
        match key {
            EditorKey::ArrowLeft => {
                if self.cx > 0 {
                    self.cx = self.cx - 1;
                } else if self.cy > 0 {
                    self.cy = self.cy - 1;
                    self.cx = self.erow[self.cy].size;
                }
            },
            EditorKey::ArrowRight => {
                if self.cy < n {
                    if self.cx < self.erow[self.cy].size {
                        self.cx = self.cx + 1;
                    }
                }
            },
            EditorKey::ArrowUp => {
                if self.cy > 0 {
                    self.cy = self.cy - 1;
                }
            },
            EditorKey::ArrowDown => {
                if self.cy < n {
                    self.cy = self.cy + 1;
                }
            },
            _ => {},
        }
        if self.cy < n {
            let rowlen = self.erow[self.cy].size;
            if self.cx > rowlen {
                self.cx = rowlen;
            }
        } else {
            self.cx = 0;
        }
    }

    /// Brings the cursor back into the visible window: recomputes the
    /// rendered cursor column and moves each scroll offset the least amount
    /// that puts the cursor inside the screen.
    pub fn editor_scroll(&mut self)
        requires
            old(self).wf(),
            old(self).screen_rows >= 1,
            old(self).screen_cols >= 1,
        ensures
            final(self).wf(),
            *final(self) == (EditorConfig {
                rx: final(self).rx,
                row_off: final(self).row_off,
                col_off: final(self).col_off,
                ..*old(self)
            }),
            final(self).rx as int == if old(self).cy < old(self).erow@.len() {
                crate::row::spec_rx_of(
                    old(self).erow@[old(self).cy as int].chars@,
                    vstd::math::min(
                        old(self).cx as int,
                        old(self).erow@[old(self).cy as int].chars@.len() as int,
                    ),
                )
            } else {
                old(self).rx as int
            },
            final(self).row_off as int == if old(self).cy < old(self).row_off {
                old(self).cy as int
            } else if old(self).cy as int >= old(self).row_off + old(self).screen_rows {
                old(self).cy - old(self).screen_rows + 1
            } else {
                old(self).row_off as int
            },
            final(self).col_off as int == if final(self).rx < old(self).col_off {
                final(self).rx as int
            } else if final(self).rx as int >= old(self).col_off + old(self).screen_cols {
                final(self).rx - old(self).screen_cols + 1
            } else {
                old(self).col_off as int
            },
    {
        let n = self.erow.len();
        if self.cy < n {
            let cy = self.cy;
            let cx = self.cx;
            proof {
                crate::row::lemma_render_len(self.erow@[cy as int].chars@);
            }
            self.rx = crate::row::cx_to_rx(&self.erow[cy].chars, cx);
        }
        if self.cy < self.row_off {
            self.row_off = self.cy;
        }
        if self.cy >= self.screen_rows && self.cy - self.screen_rows >= self.row_off {
            self.row_off = self.cy - self.screen_rows + 1;
        }
        if self.rx < self.col_off {
            self.col_off = self.rx;
        }
        if self.rx >= self.screen_cols && self.rx - self.screen_cols >= self.col_off {
            self.col_off = self.rx - self.screen_cols + 1;
        }
    }

    /// What deleting under the cursor leaves behind: the character at the
    /// cursor column goes, the cursor staying put; at the end of a row the
    /// row below joins onto it; at the end of the last row, or past the
    /// document, nothing happens.
    pub open spec fn delete_forward_post(pre: EditorConfig, post: EditorConfig) -> bool {
        &&& post.cx == pre.cx
        &&& post.cy == pre.cy
        &&& post.rx == pre.rx
        &&& post.row_off == pre.row_off
        &&& post.col_off == pre.col_off
        &&& post.screen_rows == pre.screen_rows
        &&& post.screen_cols == pre.screen_cols
        &&& post.quit_times == pre.quit_times
        &&& post.filename == pre.filename
        &&& post.status_msg == pre.status_msg
        &&& post.status_msg_time == pre.status_msg_time
        &&& post.saved_hl == pre.saved_hl
        &&& post.saved_hl_line == pre.saved_hl_line
        &&& post.syntax == pre.syntax
        &&& (pre.cy >= pre.erow@.len() ==> post == pre)
        &&& ((pre.cy < pre.erow@.len() && pre.cx < pre.erow@[pre.cy as int].chars@.len()) ==> {
            let cy = pre.cy as int;
            let line = pre.erow@[cy].chars@;
            &&& post.erow@.len() == pre.erow@.len()
            &&& doc_chars(post.erow@) == doc_chars(pre.erow@).update(
                cy,
                line.remove(pre.cx as int),
            )
            &&& post.dirty == bump(pre.dirty)
            &&& (forall|j: int| 0 <= j < cy ==> post.erow@[j] == pre.erow@[j])
            &&& (pre.syntax is Some ==> Self::hl_settled(
                pre.erow@,
                post.erow@,
                pre.syntax->Some_0,
                cy,
                0,
            ))
        })
        &&& ((pre.cy < pre.erow@.len() && pre.cx == pre.erow@[pre.cy as int].chars@.len() && pre.cy
            + 1 < pre.erow@.len()) ==> {
            let cy = pre.cy as int;
            let cur = pre.erow@[cy].chars@;
            let next = pre.erow@[cy + 1].chars@;
            &&& post.erow@.len() == pre.erow@.len() - 1
            &&& doc_chars(post.erow@) == doc_chars(pre.erow@).remove(cy + 1).update(
                cy,
                cur + next,
            )
            &&& post.dirty == bump(pre.dirty)
            &&& (forall|j: int| 0 <= j < cy ==> post.erow@[j] == pre.erow@[j])
            &&& (pre.syntax is Some ==> Self::hl_settled(
                pre.erow@,
                post.erow@,
                pre.syntax->Some_0,
                cy,
                1,
            ))
        })
        &&& ((pre.cy < pre.erow@.len() && pre.cx >= pre.erow@[pre.cy as int].chars@.len() && !(
        pre.cx == pre.erow@[pre.cy as int].chars@.len() && pre.cy + 1 < pre.erow@.len())) ==> post
            == pre)
    }

    /// Deletes the character under the cursor, joining the row below onto
    /// this one when the cursor rests at the row's end.
    #[verifier::rlimit(100)]
    pub fn delete_forward(&mut self)
        requires
            old(self).wf(),
        ensures
            final(self).wf(),
            Self::delete_forward_post(*old(self), *final(self)),
    {
        let n = self.erow.len();
        if self.cy >= n {
            return ;
        }
        let cy = self.cy;
        let rowlen = self.erow[cy].size;
        if self.cx < rowlen {
            let at = self.cx;
            let ghost mid0 = self.erow@;
            let row = &mut self.erow[cy];
            row.delete_char(at);
            proof {
                assert forall|i: int|
                    0 <= i < self.erow@.len() implies (#[trigger] self.erow@[i]).wf()
                    && self.erow@[i].idx == i by {
                    if i != cy {
                        assert(self.erow@[i] == mid0[i]);
                    }
                }
            }
            let ghost mid = self.erow@;
            self.editor_update_syntax(cy);
            let d = self.dirty;
            self.dirty = if d < usize::MAX {
                d + 1
            } else {
                d
            };
            proof {
                let cyi = old(self).cy as int;
                let line = old(self).erow@[cyi].chars@;
                assert(doc_chars(self.erow@) =~= doc_chars(old(self).erow@).update(
                    cyi,
                    line.remove(old(self).cx as int),
                ));
                if self.syntax is Some {
                    let syn = old(self).syntax->Some_0;
                    assert forall|j: int| cyi < j < mid.len() implies row_hl_eq(
                        #[trigger] mid[j],
                        old(self).erow@[j],
                    ) by {
                        assert(mid0 == old(self).erow@);
                        assert(mid[j] == mid0[j]);
                    }
                    lemma_settle_from_rescan(old(self).erow@, mid, self.erow@, syn, cyi, 0);
                }
            }
        } else if self.cx == rowlen && cy + 1 < n {
            let next_row = self.erow.remove(cy + 1);
            let mut j = cy + 1;
            while j < self.erow.len()
                invariant
                    old(self).wf(),
                    old(self).cy == cy,
                    cy + 1 < old(self).erow@.len(),
                    self.erow@.len() == old(self).erow@.len() - 1,
                    cy + 1 <= j <= self.erow@.len(),
                    Self::frame_eq(self, old(self)),
                    self.cx == old(self).cx,
                    self.cy == old(self).cy,
                    self.rx == old(self).rx,
                    self.dirty == old(self).dirty,
                    self.number_of_rows == old(self).number_of_rows,
                    forall|i: int| 0 <= i <= cy ==> self.erow@[i] == old(self).erow@[i],
                    forall|i: int|
                        j <= i < self.erow@.len() ==> self.erow@[i] == old(self).erow@[i + 1],
                    forall|i: int|
                        cy + 1 <= i < j ==> row_text_eq_except_idx(
                            #[trigger] self.erow@[i],
                            old(self).erow@[i + 1],
                        ) && row_hl_eq(self.erow@[i], old(self).erow@[i + 1]) && self.erow@[i].idx
                            == i,
                decreases self.erow@.len() - j,
            {
                proof {
                    assert(old(self).erow@[j as int + 1].idx == j + 1);
                }
                let v = self.erow[j].idx;
                self.erow[j].idx = v - 1;
                j = j + 1;
            }
            let ghost mid0 = self.erow@;
            let cur_row = &mut self.erow[cy];
            cur_row.append_string(&next_row.chars);
            proof {
                assert forall|i: int|
                    0 <= i < self.erow@.len() implies (#[trigger] self.erow@[i]).wf()
                    && self.erow@[i].idx == i by {
                    if i != cy {
                        assert(self.erow@[i] == mid0[i]);
                    }
                }
            }
            self.number_of_rows = self.erow.len();
            let ghost mid = self.erow@;
            self.editor_update_syntax(cy);
            let d = self.dirty;
            self.dirty = if d < usize::MAX {
                d + 1
            } else {
                d
            };
            proof {
                let cyi = old(self).cy as int;
                let cur = old(self).erow@[cyi].chars@;
                let next = old(self).erow@[cyi + 1].chars@;
                assert(doc_chars(self.erow@) =~= doc_chars(old(self).erow@).remove(cyi + 1).update(
                    cyi,
                    cur + next,
                ));
                if self.syntax is Some {
                    let syn = old(self).syntax->Some_0;
                    assert forall|j: int| cyi < j < mid.len() implies row_hl_eq(
                        #[trigger] mid[j],
                        old(self).erow@[j + 1],
                    ) by {
                        assert(row_hl_eq(mid[j], mid0[j]));
                    }
                    lemma_settle_from_rescan(old(self).erow@, mid, self.erow@, syn, cyi, 1);
                }
            }
        }
    }

    /// Records a transient status message together with the moment it was
    /// set.
    pub fn editor_set_status_msg(&mut self, msg: Vec<char>, now: u64)
        ensures
            *final(self) == (EditorConfig {
                status_msg: final(self).status_msg,
                status_msg_time: now,
                ..*old(self)
            }),
            final(self).status_msg@ == msg@,
            final(self).status_msg_time == now,
    {
        self.status_msg = msg;
        self.status_msg_time = now;
    }
}

/// What the main loop should do after one key was handled: go on reading,
/// exit, or run one of the interactive flows that need the terminal.
#[derive(Debug, Clone, Copy, PartialEq, Eq, Structural)]
pub enum KeyAction {
    Continue,
    Quit,
    RequestSave,
    RequestFind,
}

/// The warning shown while quitting a dirty document is still gated.
pub open spec fn quit_warning(n: int) -> Seq<char> {
    "WARNING!!! File has unsaved changes. Press Ctrl-Q "@ + crate::numfmt::dec_chars(n)
        + " more times to quit."@
}

/// Appends the characters of a text fragment.
pub(crate) fn push_str_chars(buf: &mut Vec<char>, s: &str)
    ensures
        final(buf)@ == old(buf)@ + s@,
{
    let n = s.unicode_len();
    let mut i: usize = 0;
    while i < n
        invariant
            n == s@.len(),
            i <= n,
            buf@ == old(buf)@ + s@.take(i as int),
        decreases n - i,
    {
        let c = s.get_char(i);
        buf.push(c);
        proof {
            assert(buf@ =~= old(buf)@ + s@.take(i as int + 1));
        }
        i = i + 1;
    }
    proof {
        assert(s@.take(s@.len() as int) =~= s@);
    }
}

/// The incremental-search state carried across keystrokes: the row of the
/// last hit, if any, and the scan direction (positive is forward).
pub struct SearchState {
    pub last_match: Option<usize>,
    pub direction: i32,
}

/// A row's highlight array, if it has one, as a sequence.
pub open spec fn hl_view(r: EditorRow) -> Option<Seq<EditorHighlight>> {
    match r.hl {
        Some(h) => Some(h@),
        None => None,
    }
}

/// The highlighting row `j` shows once any outstanding snapshot has been
/// put back.
pub open spec fn hl_after_restore(pre: EditorConfig, j: int) -> Option<Seq<EditorHighlight>> {
    if pre.saved_hl is Some && pre.saved_hl_line is Some && pre.saved_hl_line->Some_0 == j && 0 <= j
        < pre.erow@.len() && pre.erow@[j].hl is Some && pre.erow@[j].hl->Some_0@.len()
        == pre.saved_hl->Some_0@.len() {
        Some(pre.saved_hl->Some_0@)
    } else if 0 <= j < pre.erow@.len() {
        hl_view(pre.erow@[j])
    } else {
        None
    }
}

/// A highlight array with the search-match class laid over one region; an
/// out-of-range region changes nothing.
pub open spec fn overlay_match(h: Seq<EditorHighlight>, mi: int, qlen: int) -> Seq<
    EditorHighlight,
> {
    if qlen <= h.len() && mi <= h.len() - qlen {
        Seq::new(
            h.len(),
            |i: int|
                if mi <= i < mi + qlen {
                    EditorHighlight::Match
                } else {
                    h[i]
                },
        )
    } else {
        h
    }
}

/// The row the wrapping scan lands on: starting beside `cur` and stepping
/// `count` times in direction `dir` (wrapping at the document's ends), the
/// first row whose rendered text contains the query.
pub open spec fn find_match_row(
    rows: Seq<EditorRow>,
    query: Seq<char>,
    cur: int,
    dir: int,
    count: int,
) -> Option<int>
    decreases count,
{
    if count <= 0 {
        None
    } else {
        let n = rows.len() as int;
        let next = if dir == 1 {
            if cur + 1 >= n {
                0
            } else {
                cur + 1
            }
        } else {
            if cur <= 0 {
                n - 1
            } else {
                cur - 1
            }
        };
        if contains_sub(rows[next].render@, query) {
            Some(next)
        } else {
            find_match_row(rows, query, next, dir, count - 1)
        }
    }
}

/// Restoring a coherent snapshot leaves every row showing its
/// post-restore highlighting and no snapshot outstanding.
proof fn lemma_restore_views(pre: EditorConfig, post: EditorConfig)
    requires
        EditorConfig::restore_post(pre, post),
        pre.saved_hl is Some <==> pre.saved_hl_line is Some,
    ensures
        post.erow@.len() == pre.erow@.len(),
        forall|j: int|
            0 <= j < pre.erow@.len() ==> hl_view(#[trigger] post.erow@[j]) == hl_after_restore(
                pre,
                j,
            ),
        forall|j: int|
            0 <= j < pre.erow@.len() ==> row_text_eq(#[trigger] post.erow@[j], pre.erow@[j])
                && post.erow@[j].hl_open_comment == pre.erow@[j].hl_open_comment,
        post.saved_hl is None && post.saved_hl_line is None,
        post == (EditorConfig { saved_hl: None, saved_hl_line: None, erow: post.erow, ..pre }),
{
    if pre.saved_hl is Some && pre.saved_hl_line is Some {
        let line = pre.saved_hl_line->Some_0 as int;
        if 0 <= line < pre.erow@.len() && pre.erow@[line].hl is Some && pre.erow@[
            line
        ].hl->Some_0@.len() == pre.saved_hl->Some_0@.len() {
            assert forall|j: int| 0 <= j < pre.erow@.len() implies hl_view(#[trigger] post.erow@[j])
                == hl_after_restore(pre, j) by {
                if j != line {
                    assert(post.erow@[j] == pre.erow@[j]);
                }
            }
        }
    } else {
        assert(post == pre);
    }
}

/// Finds where a query first occurs in a text.
pub(crate) fn find_sub(hay: &Vec<char>, needle: &Vec<char>) -> (r: Option<usize>)
    ensures
        match r {
            Some(i) => delim_matches(hay@, i as int, needle@) && (forall|j: int|
                0 <= j < i ==> !delim_matches(hay@, j, needle@)),
            None => !contains_sub(hay@, needle@),
        },
{
    let hn = hay.len();
    let nn = needle.len();
    if nn == 0 {
        proof {
            assert(hay@.subrange(0, 0) =~= needle@);
        }
        return Some(0);
    }
    if nn > hn {
        proof {
            assert forall|i: int| 0 <= i implies !delim_matches(hay@, i, needle@) by {}
        }
        return None;
    }
    let mut i: usize = 0;
    while i <= hn - nn
        invariant
            hn == hay@.len(),
            nn == needle@.len(),
            1 <= nn <= hn,
            i <= hn - nn + 1,
            forall|j: int| 0 <= j < i ==> !delim_matches(hay@, j, needle@),
        decreases hn - nn + 1 - i,
    {
        if crate::highlight::delim_match(hay, i, needle) {
            return Some(i);
        }
        i = i + 1;
    }
    proof {
        assert forall|j: int| 0 <= j implies !delim_matches(hay@, j, needle@) by {
            if j >= i {
                assert(j + needle@.len() > hay@.len());
            }
        }
    }
    None
}

/// What landing a search hit on row `r` leaves behind: the cursor sits on
/// the first occurrence of the query in that row's rendered text, the row
/// offset takes the document length (relying on the next scroll to clamp
/// it), the row's prior highlighting is snapshotted and the match region
/// overlaid.
pub open spec fn search_hit_post(
    pre: EditorConfig,
    post: EditorConfig,
    r: int,
    query: Seq<char>,
) -> bool {
    &&& post.cy as int == r
    &&& post.row_off == pre.erow@.len()
    &&& post == (EditorConfig {
        cx: post.cx,
        cy: post.cy,
        row_off: post.row_off,
        erow: post.erow,
        saved_hl: post.saved_hl,
        saved_hl_line: post.saved_hl_line,
        ..pre
    })
    &&& (exists|mi: int|
        {
            &&& 0 <= mi
            &&& #[trigger] delim_matches(pre.erow@[r].render@, mi, query)
            &&& (forall|j: int| 0 <= j < mi ==> !delim_matches(pre.erow@[r].render@, j, query))
            &&& post.cx == crate::row::spec_cx_of(pre.erow@[r].chars@, mi)
            &&& hl_view(post.erow@[r]) == match hl_after_restore(pre, r) {
                Some(h) => Some(overlay_match(h, mi, query.len() as int)),
                None => None::<Seq<EditorHighlight>>,
            }
        })
    &&& (forall|j: int|
        0 <= j < pre.erow@.len() && j != r ==> hl_view(#[trigger] post.erow@[j])
            == hl_after_restore(pre, j))
    &&& (hl_after_restore(pre, r) is Some ==> post.saved_hl is Some && post.saved_hl->Some_0@
        == hl_after_restore(pre, r)->Some_0 && post.saved_hl_line == Some(r as usize))
    &&& (hl_after_restore(pre, r) is None ==> post.saved_hl is None && post.saved_hl_line is None)
}

impl EditorConfig {
    /// Consumes one keystroke of the incremental-search mode. Enter or
    /// Escape ends the session, putting back any overlaid highlighting;
    /// horizontal and vertical arrows pick the scan direction; any other
    /// key restarts the scan. With a non-empty query the document is
    /// scanned once around, wrapping, from the last hit; the first row
    /// whose rendered text contains the query receives the cursor and a
    /// match overlay, its prior highlighting saved in the snapshot.
    #[verifier::rlimit(100)]
    #[verifier::spinoff_prover]
    pub fn editor_find_step(&mut self, st: &mut SearchState, query: &Vec<char>, key: EditorKey)
        requires
            old(self).wf(),
            old(self).saved_hl is Some <==> old(self).saved_hl_line is Some,
            old(st).last_match is Some ==> old(st).last_match->Some_0 < old(self).erow@.len(),
        ensures
            final(self).wf(),
            final(self).saved_hl is Some <==> final(self).saved_hl_line is Some,
            final(st).last_match is Some ==> final(st).last_match->Some_0 < final(self).erow@.len(),
            final(self).erow@.len() == old(self).erow@.len(),
            forall|j: int|
                0 <= j < old(self).erow@.len() ==> row_text_eq(
                    #[trigger] final(self).erow@[j],
                    old(self).erow@[j],
                ) && final(self).erow@[j].hl_open_comment == old(self).erow@[j].hl_open_comment,
            (key == EditorKey::EnterKey || key == EditorKey::Escape) ==> {
                &&& final(st).last_match is None
                &&& final(st).direction == 1
                &&& final(self).saved_hl is None
                &&& final(self).saved_hl_line is None
                &&& (forall|j: int|
                    0 <= j < old(self).erow@.len() ==> hl_view(#[trigger] final(self).erow@[j])
                        == hl_after_restore(*old(self), j))
                &&& *final(self) == (EditorConfig {
                    saved_hl: None,
                    saved_hl_line: None,
                    erow: final(self).erow,
                    ..*old(self)
                })
            },
            !(key == EditorKey::EnterKey || key == EditorKey::Escape) ==> {
                let arrow = key == EditorKey::ArrowRight || key == EditorKey::ArrowDown || key
                    == EditorKey::ArrowLeft || key == EditorKey::ArrowUp;
                let dir1: i32 = if key == EditorKey::ArrowRight || key == EditorKey::ArrowDown {
                    1
                } else if key == EditorKey::ArrowLeft || key == EditorKey::ArrowUp {
                    (-1) as i32
                } else {
                    1
                };
                let lm1 = if arrow {
                    old(st).last_match
                } else {
                    None::<usize>
                };
                let n = old(self).erow@.len() as int;
                if query@.len() == 0 || n == 0 {
                    &&& *final(self) == *old(self)
                    &&& final(st).direction == dir1
                    &&& final(st).last_match == lm1
                } else {
                    let dir2: i32 = if lm1 is None {
                        1
                    } else {
                        dir1
                    };
                    let start = if lm1 is Some {
                        lm1->Some_0 as int
                    } else {
                        n - 1
                    };
                    match find_match_row(old(self).erow@, query@, start, dir2 as int, n) {
                        None => {
                            &&& *final(self) == *old(self)
                            &&& final(st).direction == dir2
                            &&& final(st).last_match == lm1
                        },
                        Some(r) => {
                            &&& final(st).last_match == Some(r as usize)
                            &&& final(st).direction == dir2
                            &&& search_hit_post(*old(self), *final(self), r, query@)
                        },
                    }
                }
            },
    {
        match key {
            EditorKey::EnterKey | EditorKey::Escape => {
                self.restore_highlight();
                st.last_match = None;
                st.direction = 1;
                proof {
                    lemma_restore_views(*old(self), *self);
                }
                return ;
            },
            EditorKey::ArrowRight | EditorKey::ArrowDown => {
                st.direction = 1;
            },
            EditorKey::ArrowLeft | EditorKey::ArrowUp => {
                st.direction = -1;
            },
            _ => {
                st.last_match = None;
                st.direction = 1;
            },
        }
        let row_count = self.erow.len();
        if query.len() == 0 || row_count == 0 {
            return ;
        }
        if st.last_match.is_none() {
            st.direction = 1;
        }
        let ghost dir2 = st.direction;
        let ghost lm1 = st.last_match;
        let mut current: usize = match st.last_match {
            Some(r) => r,
            None => row_count - 1,
        };
        let ghost start = current as int;
        let mut count: usize = 0;
        while count < row_count
            invariant
                old(self).wf(),
                old(self).saved_hl is Some <==> old(self).saved_hl_line is Some,
                key != EditorKey::EnterKey && key != EditorKey::Escape,
                *self == *old(self),
                *st == (SearchState { last_match: lm1, direction: dir2 }),
                row_count == self.erow@.len(),
                row_count > 0,
                query@.len() > 0,
                count <= row_count,
                current < row_count,
                ({
                    let arrow = key == EditorKey::ArrowRight || key == EditorKey::ArrowDown || key
                        == EditorKey::ArrowLeft || key == EditorKey::ArrowUp;
                    let dir1: i32 = if key == EditorKey::ArrowRight || key
                        == EditorKey::ArrowDown {
                        1
                    } else if key == EditorKey::ArrowLeft || key == EditorKey::ArrowUp {
                        (-1) as i32
                    } else {
                        1
                    };
                    let lm1x = if arrow {
                        old(st).last_match
                    } else {
                        None::<usize>
                    };
                    &&& lm1 == lm1x
                    &&& dir2 == if lm1x is None {
                        1i32
                    } else {
                        dir1
                    }
                    &&& start == if lm1x is Some {
                        lm1x->Some_0 as int
                    } else {
                        row_count - 1
                    }
                }),
                find_match_row(old(self).erow@, query@, start, dir2 as int, row_count as int)
                    == find_match_row(
                    old(self).erow@,
                    query@,
                    current as int,
                    dir2 as int,
                    (row_count - count) as int,
                ),
            decreases row_count - count,
        {
            let ghost prev = current as int;
            current = if st.direction == 1 {
                if current + 1 >= row_count {
                    0
                } else {
                    current + 1
                }
            } else {
                if current == 0 {
                    row_count - 1
                } else {
                    current - 1
                }
            };
            let found = find_sub(&self.erow[current].render, query);
            proof {
                let r = current as int;
                match found {
                    Some(mi) => {
                        assert(contains_sub(self.erow@[r].render@, query@)) by {
                            assert(delim_matches(self.erow@[r].render@, mi as int, query@));
                        }
                        assert(find_match_row(
                            old(self).erow@,
                            query@,
                            prev,
                            dir2 as int,
                            (row_count - count) as int,
                        ) == Some(r));
                    },
                    None => {
                        assert(find_match_row(
                            old(self).erow@,
                            query@,
                            prev,
                            dir2 as int,
                            (row_count - count) as int,
                        ) == find_match_row(
                            old(self).erow@,
                            query@,
                            r,
                            dir2 as int,
                            (row_count - count - 1) as int,
                        ));
                    },
                }
            }
            if let Some(mi) = found {
                st.last_match = Some(current);
                self.save_highlight(current);
                let ghost mid = choose|m: EditorConfig|
                    {
                        &&& #[trigger] Self::restore_post(*old(self), m)
                        &&& m.wf()
                        &&& self.erow@ == m.erow@
                        &&& (EditorConfig {
                            saved_hl: m.saved_hl,
                            saved_hl_line: m.saved_hl_line,
                            ..*self
                        }) == m
                        &&& if current < m.erow@.len() && m.erow@[current as int].hl is Some {
                            &&& self.saved_hl is Some
                            &&& self.saved_hl->Some_0@ == m.erow@[current as int].hl->Some_0@
                            &&& self.saved_hl_line == Some(current)
                        } else {
                            &&& self.saved_hl == m.saved_hl
                            &&& self.saved_hl_line == m.saved_hl_line
                        }
                    };
                proof {
                    lemma_restore_views(*old(self), mid);
                }
                let ghost pre_overlay = self.erow@;
                let row = &mut self.erow[current];
                row.highlight_match(mi, query);
                proof {
                    assert forall|i: int|
                        0 <= i < self.erow@.len() implies (#[trigger] self.erow@[i]).wf()
                        && self.erow@[i].idx == i by {
                        if i != current {
                            assert(self.erow@[i] == pre_overlay[i]);
                        }
                    }
                }
                self.cy = current;
                proof {
                    crate::row::lemma_render_len(self.erow@[current as int].chars@);
                }
                let new_cx = crate::row::rx_to_cx(&self.erow[current].chars, mi);
                self.cx = new_cx;
                self.row_off = self.number_of_rows;
                proof {
                    let r = current as int;
                    assert(self.erow@[r].chars@ == old(self).erow@[r].chars@);
                    assert(hl_view(mid.erow@[r]) == hl_after_restore(*old(self), r));
                    assert({
                        &&& 0 <= mi as int
                        &&& delim_matches(old(self).erow@[r].render@, mi as int, query@)
                        &&& (forall|j: int|
                            0 <= j < mi as int ==> !delim_matches(
                                old(self).erow@[r].render@,
                                j,
                                query@,
                            ))
                        &&& self.cx == crate::row::spec_cx_of(old(self).erow@[r].chars@, mi as int)
                        &&& hl_view(self.erow@[r]) == match hl_after_restore(*old(self), r) {
                            Some(h) => Some(overlay_match(h, mi as int, query@.len() as int)),
                            None => None::<Seq<EditorHighlight>>,
                        }
                    });
                    assert(search_hit_post(*old(self), *self, r, query@));
                }
                return ;
            }
            count = count + 1;
        }
    }
}

impl EditorConfig {
    /// Handles one decoded key: edits or moves as the key demands, gates
    /// quitting a dirty document behind repeated presses, and reports what
    /// the caller should do next. Any key other than the quit command rearms
    /// the quit gate.
    pub fn process_keypress(&mut self, key: EditorKey, now: u64) -> (r: KeyAction)
        requires
            old(self).wf(),
            old(self).cy <= old(self).erow@.len(),
            old(self).screen_rows >= 1,
        ensures
            final(self).wf(),
            final(self).cy <= final(self).erow@.len(),
            (r == KeyAction::Quit) == (key == EditorKey::CtrlQ && !(old(self).dirty > 0 && old(
                self,
            ).quit_times > 0)),
            (r == KeyAction::RequestSave) == (key == EditorKey::CtrlS),
            (r == KeyAction::RequestFind) == (key == EditorKey::CtrlF),
            key == EditorKey::CtrlQ ==> if old(self).dirty > 0 && old(self).quit_times > 0 {
                &&& final(self).quit_times == old(self).quit_times - 1
                &&& final(self).status_msg@ == quit_warning(old(self).quit_times as int)
                &&& final(self).status_msg_time == now
                &&& *final(self) == (EditorConfig {
                    quit_times: final(self).quit_times,
                    status_msg: final(self).status_msg,
                    status_msg_time: now,
                    ..*old(self)
                })
            } else {
                *final(self) == *old(self)
            },
            key != EditorKey::CtrlQ ==> final(self).quit_times == crate::QUIT_TIMES,
            key == EditorKey::EnterKey ==> Self::insert_new_line_post(
                *old(self),
                (EditorConfig { quit_times: old(self).quit_times, ..*final(self) }),
            ),
            (key == EditorKey::Backspace || key == EditorKey::CtrlH) ==> Self::del_char_post(
                *old(self),
                (EditorConfig { quit_times: old(self).quit_times, ..*final(self) }),
            ),
            key == EditorKey::Delete ==> Self::delete_forward_post(
                *old(self),
                (EditorConfig { quit_times: old(self).quit_times, ..*final(self) }),
            ),
            (key == EditorKey::ArrowUp || key == EditorKey::ArrowDown || key
                == EditorKey::ArrowLeft || key == EditorKey::ArrowRight) ==> {
                &&& (final(self).cx as int, final(self).cy as int) == Self::spec_move_cursor(
                    old(self).erow@,
                    old(self).cx as int,
                    old(self).cy as int,
                    key,
                )
                &&& *final(self) == (EditorConfig {
                    cx: final(self).cx,
                    cy: final(self).cy,
                    quit_times: crate::QUIT_TIMES,
                    ..*old(self)
                })
            },
            key == EditorKey::HomeKey ==> *final(self) == (EditorConfig {
                cx: 0,
                quit_times: crate::QUIT_TIMES,
                ..*old(self)
            }),
            key == EditorKey::EndKey ==> *final(self) == (EditorConfig {
                cx: if old(self).cy < old(self).erow@.len() {
                    old(self).erow@[old(self).cy as int].chars@.len() as usize
                } else {
                    old(self).cx
                },
                quit_times: crate::QUIT_TIMES,
                ..*old(self)
            }),
            key == EditorKey::PageUp ==> {
                &&& final(self).cy as int == vstd::math::min(
                    old(self).row_off as int,
                    old(self).erow@.len() as int,
                )
                &&& *final(self) == (EditorConfig {
                    cy: final(self).cy,
                    quit_times: crate::QUIT_TIMES,
                    ..*old(self)
                })
            },
            key == EditorKey::PageDown ==> {
                &&& final(self).cy as int == vstd::math::min(
                    old(self).row_off + old(self).screen_rows - 1,
                    old(self).erow@.len() as int,
                )
                &&& *final(self) == (EditorConfig {
                    cy: final(self).cy,
                    quit_times: crate::QUIT_TIMES,
                    ..*old(self)
                })
            },
            (key matches EditorKey::Other(b) && (32 == b || 33 <= b <= 126)) ==> Self::insert_char_post(
                *old(self),
                (EditorConfig { quit_times: old(self).quit_times, ..*final(self) }),
                key->Other_0 as char,
            ),
            (key matches EditorKey::Other(b) && !(32 == b || 33 <= b <= 126)) ==> *final(self)
                == (EditorConfig { quit_times: crate::QUIT_TIMES, ..*old(self) }),
            (key == EditorKey::CtrlL || key == EditorKey::Escape || key == EditorKey::CtrlS || key
                == EditorKey::CtrlF) ==> *final(self) == (EditorConfig {
                quit_times: crate::QUIT_TIMES,
                ..*old(self)
            }),
    {
        let mut action = KeyAction::Continue;
        match key {
            EditorKey::EnterKey => {
                self.editor_insert_new_line();
            },
            EditorKey::CtrlQ => {
                if self.dirty > 0 && self.quit_times > 0 {
                    let mut msg: Vec<char> = Vec::new();
                    push_str_chars(&mut msg, "WARNING!!! File has unsaved changes. Press Ctrl-Q ");
                    let digits = crate::numfmt::usize_to_chars(self.quit_times as usize);
                    let mut k: usize = 0;
                    while k < digits.len()
                        invariant
                            k <= digits@.len(),
                            msg@ == "WARNING!!! File has unsaved changes. Press Ctrl-Q "@
                                + digits@.take(k as int),
                        decreases digits@.len() - k,
                    {
                        msg.push(digits[k]);
                        proof {
                            assert(msg@ =~= "WARNING!!! File has unsaved changes. Press Ctrl-Q "@
                                + digits@.take(k as int + 1));
                        }
                        k = k + 1;
                    }
                    proof {
                        assert(digits@.take(digits@.len() as int) =~= digits@);
                    }
                    push_str_chars(&mut msg, " more times to quit.");
                    let qt = self.quit_times;
                    self.editor_set_status_msg(msg, now);
                    self.quit_times = qt - 1;
                    return KeyAction::Continue;
                }
                return KeyAction::Quit;
            },
            EditorKey::CtrlS => {
                action = KeyAction::RequestSave;
            },
            EditorKey::CtrlF => {
                action = KeyAction::RequestFind;
            },
            EditorKey::PageUp => {
                let n = self.number_of_rows;
                self.cy = if self.row_off < n {
                    self.row_off
                } else {
                    n
                };
            },
            EditorKey::PageDown => {
                let n = self.number_of_rows;
                if self.row_off >= n {
                    self.cy = n;
                } else {
                    if self.screen_rows - 1 >= n - self.row_off {
                        self.cy = n;
                    } else {
                        self.cy = self.row_off + self.screen_rows - 1;
                    }
                }
            },
            EditorKey::HomeKey => {
                self.cx = 0;
            },
            EditorKey::EndKey => {
                if self.cy < self.number_of_rows {
                    self.cx = self.erow[self.cy].size;
                }
            },
            EditorKey::Delete => {
                self.delete_forward();
            },
            EditorKey::Backspace | EditorKey::CtrlH => {
                self.editor_del_char();
            },
            EditorKey::ArrowUp | EditorKey::ArrowDown | EditorKey::ArrowRight
                | EditorKey::ArrowLeft => {
                self.editor_move_cursor(key);
            },
            EditorKey::Other(b) => {
                if (33 <= b && b <= 126) || b == 32 {
                    self.editor_insert_char(b as char);
                }
            },
            EditorKey::CtrlL | EditorKey::Escape => {},
        }
        self.quit_times = crate::QUIT_TIMES;
        action
    }
}

/// One keystroke's effect on the modal prompt: keep collecting, commit the
/// non-empty buffer, or cancel.
#[derive(Debug, Clone, Copy, PartialEq, Eq, Structural)]
pub enum PromptStep {
    Pending,
    Committed,
    Cancelled,
}

/// Applies one decoded key to the prompt's input buffer: printable
/// characters append, erasing keys drop the last character, Enter commits a
/// non-empty buffer, Escape cancels.
pub fn editor_prompt_step(buf: &mut Vec<char>, key: EditorKey) -> (r: PromptStep)
    ensures
        key == EditorKey::EnterKey ==> final(buf)@ == old(buf)@ && r == (if old(buf)@.len() > 0 {
            PromptStep::Committed
        } else {
            PromptStep::Pending
        }),
        (key == EditorKey::Backspace || key == EditorKey::CtrlH || key == EditorKey::Delete) ==> r
            == PromptStep::Pending && final(buf)@ == (if old(buf)@.len() > 0 {
            old(buf)@.drop_last()
        } else {
            old(buf)@
        }),
        key == EditorKey::Escape ==> r == PromptStep::Cancelled && final(buf)@ == old(buf)@,
        (key matches EditorKey::Other(b) && (b == 32 || 33 <= b <= 126)) ==> r
            == PromptStep::Pending && final(buf)@ == old(buf)@.push(key->Other_0 as char),
        (key matches EditorKey::Other(b) && !(b == 32 || 33 <= b <= 126)) ==> r
            == PromptStep::Pending && final(buf)@ == old(buf)@,
        !(key == EditorKey::EnterKey || key == EditorKey::Escape || key == EditorKey::Backspace
            || key == EditorKey::CtrlH || key == EditorKey::Delete || key matches EditorKey::Other(
            _,
        )) ==> r == PromptStep::Pending && final(buf)@ == old(buf)@,
{
    match key {
        EditorKey::EnterKey => {
            if buf.len() > 0 {
                PromptStep::Committed
            } else {
                PromptStep::Pending
            }
        },
        EditorKey::Backspace | EditorKey::CtrlH | EditorKey::Delete => {
            if buf.len() > 0 {
                buf.pop();
                proof {
                    assert(buf@ =~= old(buf)@.drop_last());
                }
            }
            PromptStep::Pending
        },
        EditorKey::Escape => PromptStep::Cancelled,
        EditorKey::Other(b) => {
            if (33 <= b && b <= 126) || b == 32 {
                buf.push(b as char);
            }
            PromptStep::Pending
        },
        _ => PromptStep::Pending,
    }
}

impl EditorConfig {
    /// Marks the document saved: the dirty counter returns to zero and the
    /// status line reports how many bytes went to disk.
    pub fn editor_saved(&mut self, len: usize, now: u64)
        ensures
            *final(self) == (EditorConfig {
                dirty: 0,
                status_msg: final(self).status_msg,
                status_msg_time: now,
                ..*old(self)
            }),
            final(self).status_msg@ == crate::numfmt::dec_chars(len as int)
                + " bytes written to disk"@,
            final(self).status_msg_time == now,
            final(self).dirty == 0,
    {
        let mut msg = crate::numfmt::usize_to_chars(len);
        push_str_chars(&mut msg, " bytes written to disk");
        self.editor_set_status_msg(msg, now);
        self.dirty = 0;
    }
}

} // verus!

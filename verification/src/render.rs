use vstd::prelude::*;

use crate::editor::EditorConfig;
use crate::highlight::EditorHighlight;
use crate::numfmt::dec_chars;
use crate::row::EditorRow;

verus! {

/// The screen output accumulated for one frame, flushed in one write.
pub struct AppendBuffer {
    pub buffer: Vec<char>,
}

impl AppendBuffer {
    /// An empty frame buffer.
    pub fn new() -> (r: AppendBuffer)
        ensures
            r.buffer@.len() == 0,
    {
        AppendBuffer { buffer: Vec::new() }
    }

    /// Appends a text fragment.
    pub fn append(&mut self, data: &str)
        ensures
            final(self).buffer@ == old(self).buffer@ + data@,
    {
        crate::editor::push_str_chars(&mut self.buffer, data);
    }

    /// Appends one character.
    pub fn append_char(&mut self, ch: char)
        ensures
            final(self).buffer@ == old(self).buffer@ + seq![ch],
    {
        self.buffer.push(ch);
        proof {
            assert(self.buffer@ =~= old(self).buffer@ + seq![ch]);
        }
    }

    /// Appends a range of a character vector.
    pub fn append_range(&mut self, data: &Vec<char>, start: usize, end: usize)
        requires
            start <= end <= data@.len(),
        ensures
            final(self).buffer@ == old(self).buffer@ + data@.subrange(start as int, end as int),
    {
        let mut k = start;
        while k < end
            invariant
                start <= k <= end <= data@.len(),
                self.buffer@ == old(self).buffer@ + data@.subrange(start as int, k as int),
            decreases end - k,
        {
            self.buffer.push(data[k]);
            proof {
                assert(self.buffer@ =~= old(self).buffer@ + data@.subrange(
                    start as int,
                    k as int + 1,
                ));
            }
            k = k + 1;
        }
    }

    /// Appends a number in decimal notation.
    pub fn append_number(&mut self, n: usize)
        ensures
            final(self).buffer@ == old(self).buffer@ + dec_chars(n as int),
    {
        let digits = crate::numfmt::usize_to_chars(n);
        let ghost b0 = self.buffer@;
        let mut k: usize = 0;
        while k < digits.len()
            invariant
                k <= digits@.len(),
                digits@ == dec_chars(n as int),
                self.buffer@ == b0 + digits@.take(k as int),
            decreases digits@.len() - k,
        {
            self.buffer.push(digits[k]);
            proof {
                assert(self.buffer@ =~= b0 + digits@.take(k as int + 1));
            }
            k = k + 1;
        }
        proof {
            assert(digits@.take(digits@.len() as int) =~= digits@);
        }
    }
}

/// A terminal control character: it would corrupt the frame if written
/// bare.
pub open spec fn is_ctrl(c: char) -> bool {
    (c as u32) < 32 || (c as u32) == 127
}

/// The caret-notation glyph standing in for a control character.
pub open spec fn ctrl_glyph(c: char) -> char {
    if (c as u32) <= 26 {
        (((c as u32) + 64) as u8) as char
    } else {
        '?'
    }
}

/// The escape sequence selecting a foreground color.
pub open spec fn color_code(c: int) -> Seq<char> {
    "\u{1b}["@ + dec_chars(c) + "m"@
}

/// The class shown at one rendered column: the stored class, or normal
/// where the highlight array is missing or short.
pub open spec fn hl_at(hl: Option<Seq<EditorHighlight>>, i: int) -> EditorHighlight {
    match hl {
        Some(h) => if 0 <= i < h.len() {
            h[i]
        } else {
            EditorHighlight::Normal
        },
        None => EditorHighlight::Normal,
    }
}

/// The colored emission of the visible cells of one row from column `j` on:
/// a color escape is written only when the class changes from the previous
/// cell, control characters appear as inverted caret glyphs restoring the
/// current color, and a trailing escape resets the color.
pub open spec fn emit_cells(
    render: Seq<char>,
    hl: Option<Seq<EditorHighlight>>,
    j: int,
    end: int,
    cur: Option<u8>,
) -> Seq<char>
    decreases end - j,
{
    if j < 0 || j >= end {
        if cur is Some {
            "\u{1b}[39m"@
        } else {
            Seq::empty()
        }
    } else {
        let c = render[j];
        let h = hl_at(hl, j);
        if is_ctrl(c) {
            "\u{1b}[7m"@ + seq![ctrl_glyph(c)] + "\u{1b}[m"@ + (match cur {
                Some(cc) => color_code(cc as int),
                None => Seq::empty(),
            }) + emit_cells(render, hl, j + 1, end, cur)
        } else if h == EditorHighlight::Normal {
            (if cur is Some {
                "\u{1b}[39m"@
            } else {
                Seq::empty()
            }) + seq![c] + emit_cells(render, hl, j + 1, end, None)
        } else {
            let col = EditorRow::spec_syntax_color(h);
            (if cur == Some(col) {
                Seq::empty()
            } else {
                color_code(col as int)
            }) + seq![c] + emit_cells(render, hl, j + 1, end, Some(col))
        }
    }
}

/// The visible slice of one document row, colored when the row carries
/// highlighting and raw otherwise.
pub open spec fn row_line(row: EditorRow, col_off: int, screen_cols: int) -> Seq<char> {
    let rlen = row.render@.len() as int;
    let start = vstd::math::min(col_off, rlen);
    let len0 = if rlen >= col_off {
        rlen - col_off
    } else {
        0
    };
    let len = vstd::math::min(len0, screen_cols);
    let end = start + len;
    match row.hl {
        Some(h) => emit_cells(row.render@, Some(h@), start, end, None),
        None => row.render@.subrange(start, end),
    }
}

/// The centered welcome banner shown on an empty document.
pub open spec fn welcome_line(screen_cols: int) -> Seq<char> {
    let welcome = "Kibi Editor -- version 0.0.1"@;
    let wlen = vstd::math::min(welcome.len() as int, screen_cols);
    let padding = (screen_cols - wlen) / 2;
    (if padding > 0 {
        seq!['~'] + crate::row::spaces(padding - 1)
    } else {
        Seq::empty()
    }) + welcome.take(wlen)
}

/// What one screen row shows: a document row's visible slice, a filler
/// tilde past the end of the document, or the welcome banner; each row ends
/// clearing the rest of the terminal line.
pub open spec fn draw_rows_from(e: EditorConfig, y: int) -> Seq<char>
    decreases e.screen_rows - y,
{
    if y < 0 || y >= e.screen_rows {
        Seq::empty()
    } else {
        let file_row = y + e.row_off;
        let body = if file_row >= e.erow@.len() {
            if e.erow@.len() == 0 && y == (e.screen_rows as int) / 3 {
                welcome_line(e.screen_cols as int)
            } else {
                seq!['~']
            }
        } else {
            row_line(e.erow@[file_row], e.col_off as int, e.screen_cols as int)
        };
        body + "\u{1b}[K"@ + (if y < e.screen_rows - 1 {
            "\r\n"@
        } else {
            Seq::empty()
        }) + draw_rows_from(e, y + 1)
    }
}

/// The inverted status line: right-aligned cursor position, then the
/// filename (at most twenty characters), line count and modified marker,
/// truncated to the screen width.
pub open spec fn status_bar_line(e: EditorConfig) -> Seq<char> {
    let cols = e.screen_cols as int;
    let n = e.erow@.len() as int;
    let fname = match e.filename {
        Some(f) => f@,
        None => "No File"@,
    };
    let fdisp = fname.take(vstd::math::min(20, fname.len() as int));
    let modified = if e.dirty > 0 {
        "(Modified)"@
    } else {
        ""@
    };
    let status_full = fdisp + " - "@ + dec_chars(n) + " lines "@ + modified;
    let status = status_full.take(vstd::math::min(cols, status_full.len() as int));
    let rstatus = dec_chars(e.cy + 1) + "/"@ + dec_chars(n);
    let len0 = status.len() as int;
    let pad = if len0 >= cols {
        Seq::<char>::empty()
    } else if 1 <= rstatus.len() <= cols - len0 {
        crate::row::spaces(cols - len0 - rstatus.len()) + rstatus
    } else {
        crate::row::spaces(cols - len0)
    };
    "\u{1b}[7m"@ + pad + status + "\u{1b}[m"@ + "\r\n"@
}

/// How long ago a status message was set, on a clock that never runs
/// backwards.
pub open spec fn elapsed_since(now: u64, t: u64) -> int {
    if now >= t {
        now - t
    } else {
        0
    }
}

/// The transient message line: the status message, truncated to the screen
/// width, only within five seconds of being set.
pub open spec fn message_bar_line(e: EditorConfig, now: u64) -> Seq<char> {
    "\u{1b}[K"@ + if e.status_msg@.len() > 0 && elapsed_since(now, e.status_msg_time) < 5000 {
        e.status_msg@.take(vstd::math::min(e.screen_cols as int, e.status_msg@.len() as int))
    } else {
        Seq::empty()
    }
}

/// The escape sequence placing the terminal cursor on the editing cursor,
/// in screen coordinates.
pub open spec fn cursor_cmd(e: EditorConfig) -> Seq<char> {
    "\u{1b}["@ + dec_chars(e.cy - e.row_off + 1) + ";"@ + dec_chars(e.rx - e.col_off + 1) + "H"@
}

/// One whole frame: hide the cursor, home, the screen rows, the status and
/// message lines, the cursor position, and show the cursor again.
pub open spec fn spec_frame(e: EditorConfig, now: u64) -> Seq<char> {
    "\u{1b}[?25l\u{1b}[H"@ + draw_rows_from(e, 0) + status_bar_line(e) + message_bar_line(e, now)
        + cursor_cmd(e) + "\u{1b}[?25h"@
}

impl EditorConfig {
    /// Maps a highlight class to its terminal color code.
    pub fn highlight_to_color(&self, hl: EditorHighlight) -> (r: u8)
        ensures
            r == EditorRow::spec_syntax_color(hl),
    {
        EditorRow::editor_syntax_to_color(hl)
    }

    /// Writes the colored cells of one row's visible slice.
    fn emit_row_cells(
        &self,
        ab: &mut AppendBuffer,
        render: &Vec<char>,
        hl: &Vec<EditorHighlight>,
        start: usize,
        end: usize,
    )
        requires
            start <= end <= render@.len(),
        ensures
            final(ab).buffer@ == old(ab).buffer@ + emit_cells(
                render@,
                Some(hl@),
                start as int,
                end as int,
                None,
            ),
    {
        let mut cur: Option<u8> = None;
        let mut j = start;
        while j < end
            invariant
                start <= j <= end <= render@.len(),
                old(ab).buffer@ + emit_cells(render@, Some(hl@), start as int, end as int, None)
                    == ab.buffer@ + emit_cells(
                    render@,
                    Some(hl@),
                    j as int,
                    end as int,
                    match cur {
                        Some(c) => Some(c),
                        None => None,
                    },
                ),
            decreases end - j,
        {
            let c = render[j];
            let h = if j < hl.len() {
                hl[j]
            } else {
                EditorHighlight::Normal
            };
            let u = c as u32;
            if u < 32 || u == 127 {
                ab.append("\u{1b}[7m");
                let glyph: char = if u <= 26 {
                    ((u as u8) + 64) as char
                } else {
                    '?'
                };
                ab.append_char(glyph);
                ab.append("\u{1b}[m");
                if let Some(cc) = cur {
                    ab.append("\u{1b}[");
                    ab.append_number(cc as usize);
                    ab.append("m");
                }
                proof {
                    assert(old(ab).buffer@ + emit_cells(
                        render@,
                        Some(hl@),
                        start as int,
                        end as int,
                        None,
                    ) =~= ab.buffer@ + emit_cells(
                        render@,
                        Some(hl@),
                        j as int + 1,
                        end as int,
                        match cur {
                            Some(c) => Some(c),
                            None => None,
                        },
                    ));
                }
            } else if h == EditorHighlight::Normal {
                if cur.is_some() {
                    ab.append("\u{1b}[39m");
                    cur = None;
                }
                ab.append_char(c);
                proof {
                    assert(old(ab).buffer@ + emit_cells(
                        render@,
                        Some(hl@),
                        start as int,
                        end as int,
                        None,
                    ) =~= ab.buffer@ + emit_cells(
                        render@,
                        Some(hl@),
                        j as int + 1,
                        end as int,
                        None::<u8>,
                    ));
                }
            } else {
                let color = self.highlight_to_color(h);
                let same = match cur {
                    Some(cc) => cc == color,
                    None => false,
                };
                if !same {
                    ab.append("\u{1b}[");
                    ab.append_number(color as usize);
                    ab.append("m");
                    cur = Some(color);
                }
                ab.append_char(c);
                proof {
                    assert(old(ab).buffer@ + emit_cells(
                        render@,
                        Some(hl@),
                        start as int,
                        end as int,
                        None,
                    ) =~= ab.buffer@ + emit_cells(
                        render@,
                        Some(hl@),
                        j as int + 1,
                        end as int,
                        Some(color),
                    ));
                }
            }
            j = j + 1;
        }
        if cur.is_some() {
            ab.append("\u{1b}[39m");
        }
        proof {
            assert(old(ab).buffer@ + emit_cells(
                render@,
                Some(hl@),
                start as int,
                end as int,
                None,
            ) =~= ab.buffer@);
        }
    }

    /// Writes every visible screen row: document rows sliced and colored,
    /// filler tildes past the document's end, and the welcome banner on an
    /// empty document.
    pub fn draw_rows(&self, ab: &mut AppendBuffer)
        requires
            self.wf(),
        ensures
            final(ab).buffer@ == old(ab).buffer@ + draw_rows_from(*self, 0),
    {
        let mut y: usize = 0;
        while y < self.screen_rows
            invariant
                self.wf(),
                y <= self.screen_rows,
                old(ab).buffer@ + draw_rows_from(*self, 0) == ab.buffer@ + draw_rows_from(
                    *self,
                    y as int,
                ),
            decreases self.screen_rows - y,
        {
            let ghost pre = ab.buffer@;
            let n = self.number_of_rows;
            let row_past_end = self.row_off > usize::MAX - y || y + self.row_off >= n;
            if row_past_end {
                if n == 0 && y == self.screen_rows / 3 {
                    let welcome = "Kibi Editor -- version 0.0.1";
                    let wfull = welcome.unicode_len();
                    let wlen = if wfull > self.screen_cols {
                        self.screen_cols
                    } else {
                        wfull
                    };
                    let padding = (self.screen_cols - wlen) / 2;
                    if padding > 0 {
                        ab.append("~");
                        proof {
                            reveal_strlit("~");
                            assert("~"@ =~= seq!['~']);
                            assert(ab.buffer@ =~= pre + seq!['~'] + crate::row::spaces(0));
                        }
                        let mut p: usize = 1;
                        while p < padding
                            invariant
                                1 <= p <= padding,
                                ab.buffer@ == pre + seq!['~'] + crate::row::spaces(p - 1),
                            decreases padding - p,
                        {
                            ab.append(" ");
                            proof {
                                reveal_strlit(" ");
                                assert(" "@ =~= crate::row::spaces(1));
                                assert(ab.buffer@ =~= pre + seq!['~'] + crate::row::spaces(
                                    p as int,
                                ));
                            }
                            p = p + 1;
                        }
                    }
                    let mut k: usize = 0;
                    let ghost pre2 = ab.buffer@;
                    while k < wlen
                        invariant
                            k <= wlen,
                            wlen <= welcome@.len(),
                            welcome@ == "Kibi Editor -- version 0.0.1"@,
                            ab.buffer@ == pre2 + welcome@.take(k as int),
                        decreases wlen - k,
                    {
                        let ch = welcome.get_char(k);
                        ab.append_char(ch);
                        proof {
                            assert(ab.buffer@ =~= pre2 + welcome@.take(k as int + 1));
                        }
                        k = k + 1;
                    }
                    proof {
                        assert(ab.buffer@ =~= pre + welcome_line(self.screen_cols as int));
                    }
                } else {
                    ab.append("~");
                    proof {
                        reveal_strlit("~");
                        assert(ab.buffer@ =~= pre + seq!['~']);
                    }
                }
            } else {
                let file_row = y + self.row_off;
                let row = &self.erow[file_row];
                let rlen = row.render.len();
                let start = if self.col_off < rlen {
                    self.col_off
                } else {
                    rlen
                };
                let len0 = if rlen >= self.col_off {
                    rlen - self.col_off
                } else {
                    0
                };
                let len = if len0 > self.screen_cols {
                    self.screen_cols
                } else {
                    len0
                };
                let end = start + len;
                match &row.hl {
                    Some(h) => {
                        self.emit_row_cells(ab, &row.render, h, start, end);
                    },
                    None => {
                        ab.append_range(&row.render, start, end);
                    },
                }
                proof {
                    assert(ab.buffer@ =~= pre + row_line(
                        self.erow@[file_row as int],
                        self.col_off as int,
                        self.screen_cols as int,
                    ));
                }
            }
            ab.append("\u{1b}[K");
            if y < self.screen_rows - 1 {
                ab.append("\r\n");
            }
            proof {
                assert(old(ab).buffer@ + draw_rows_from(*self, 0) =~= ab.buffer@ + draw_rows_from(
                    *self,
                    y as int + 1,
                ));
            }
            y = y + 1;
        }
    }

    /// Writes the inverted status line.
    #[verifier::rlimit(100)]
    pub fn editor_draw_status_bar(&self, ab: &mut AppendBuffer)
        requires
            self.wf(),
            self.cy < usize::MAX,
        ensures
            final(ab).buffer@ == old(ab).buffer@ + status_bar_line(*self),
    {
        ab.append("\u{1b}[7m");
        let mut status: Vec<char> = Vec::new();
        match &self.filename {
            Some(f) => {
                let take = if f.len() > 20 {
                    20
                } else {
                    f.len()
                };
                let mut k: usize = 0;
                while k < take
                    invariant
                        take <= f@.len(),
                        k <= take,
                        status@ == f@.take(k as int),
                    decreases take - k,
                {
                    status.push(f[k]);
                    proof {
                        assert(status@ =~= f@.take(k as int + 1));
                    }
                    k = k + 1;
                }
            },
            None => {
                crate::editor::push_str_chars(&mut status, "No File");
                proof {
                    assert("No File"@.take(vstd::math::min(20, "No File"@.len() as int))
                        =~= "No File"@) by {
                        reveal_strlit("No File");
                    }
                }
            },
        }
        crate::editor::push_str_chars(&mut status, " - ");
        let n = self.number_of_rows;
        let digits = crate::numfmt::usize_to_chars(n);
        let ghost s0 = status@;
        let mut k: usize = 0;
        while k < digits.len()
            invariant
                k <= digits@.len(),
                status@ == s0 + digits@.take(k as int),
            decreases digits@.len() - k,
        {
            status.push(digits[k]);
            proof {
                assert(status@ =~= s0 + digits@.take(k as int + 1));
            }
            k = k + 1;
        }
        proof {
            assert(digits@.take(digits@.len() as int) =~= digits@);
        }
        crate::editor::push_str_chars(&mut status, " lines ");
        if self.dirty > 0 {
            crate::editor::push_str_chars(&mut status, "(Modified)");
        }
        proof {
            reveal_strlit("No File");
            reveal_strlit("");
            let fname = match &self.filename {
                Some(f) => f@,
                None => "No File"@,
            };
            let fdisp = fname.take(vstd::math::min(20, fname.len() as int));
            assert(status@ =~= fdisp + " - "@ + dec_chars(n as int) + " lines "@ + (if self.dirty
                > 0 {
                "(Modified)"@
            } else {
                ""@
            }));
        }
        if status.len() > self.screen_cols {
            status.truncate(self.screen_cols);
        }
        proof {
            let full = status_full_view(*self);
            assert(status@ =~= full.take(
                vstd::math::min(self.screen_cols as int, full.len() as int),
            ));
        }
        let mut rstatus: Vec<char> = Vec::new();
        let cyd = crate::numfmt::usize_to_chars(self.cy + 1);
        let mut k2: usize = 0;
        while k2 < cyd.len()
            invariant
                k2 <= cyd@.len(),
                rstatus@ == cyd@.take(k2 as int),
            decreases cyd@.len() - k2,
        {
            rstatus.push(cyd[k2]);
            proof {
                assert(rstatus@ =~= cyd@.take(k2 as int + 1));
            }
            k2 = k2 + 1;
        }
        proof {
            assert(cyd@.take(cyd@.len() as int) =~= cyd@);
        }
        crate::editor::push_str_chars(&mut rstatus, "/");
        let digits2 = crate::numfmt::usize_to_chars(n);
        let ghost r0 = rstatus@;
        let mut k3: usize = 0;
        while k3 < digits2.len()
            invariant
                k3 <= digits2@.len(),
                digits2@ == dec_chars(n as int),
                rstatus@ == r0 + digits2@.take(k3 as int),
            decreases digits2@.len() - k3,
        {
            rstatus.push(digits2[k3]);
            proof {
                assert(rstatus@ =~= r0 + digits2@.take(k3 as int + 1));
            }
            k3 = k3 + 1;
        }
        proof {
            assert(digits2@.take(digits2@.len() as int) =~= digits2@);
        }
        let rlen = rstatus.len();
        let len0 = status.len();
        let ghost mid = ab.buffer@;
        proof {
            assert(rstatus@.len() >= 1);
            assert(crate::row::spaces(0) =~= Seq::<char>::empty());
        }
        let mut len = len0;
        let mut wrote_r = false;
        while len < self.screen_cols && !wrote_r
            invariant
                len0 <= len <= self.screen_cols,
                rlen == rstatus@.len(),
                1 <= rlen,
                !wrote_r ==> ab.buffer@ == mid + crate::row::spaces(len - len0) && (rlen
                    > self.screen_cols - len0 || len + rlen <= self.screen_cols),
                wrote_r ==> ab.buffer@ == mid + crate::row::spaces(
                    self.screen_cols - len0 - rlen,
                ) + rstatus@ && rlen <= self.screen_cols - len0 && 1 <= rlen,
            decreases self.screen_cols - len + (if wrote_r {
                0int
            } else {
                1int
            }),
        {
            if self.screen_cols - len == rlen {
                let ghost b1 = ab.buffer@;
                let mut k4: usize = 0;
                while k4 < rstatus.len()
                    invariant
                        k4 <= rstatus@.len(),
                        ab.buffer@ == b1 + rstatus@.take(k4 as int),
                    decreases rstatus@.len() - k4,
                {
                    ab.append_char(rstatus[k4]);
                    proof {
                        assert(ab.buffer@ =~= b1 + rstatus@.take(k4 as int + 1));
                    }
                    k4 = k4 + 1;
                }
                proof {
                    assert(rstatus@.take(rstatus@.len() as int) =~= rstatus@);
                }
                wrote_r = true;
            } else {
                ab.append(" ");
                proof {
                    reveal_strlit(" ");
                    assert(" "@ =~= crate::row::spaces(1));
                    assert(ab.buffer@ =~= mid + crate::row::spaces(len - len0 + 1));
                }
                len = len + 1;
            }
        }
        proof {
            let cols = self.screen_cols as int;
            let pad = if len0 >= cols {
                Seq::<char>::empty()
            } else if 1 <= rlen <= cols - len0 {
                crate::row::spaces(cols - len0 - rlen) + rstatus@
            } else {
                crate::row::spaces(cols - len0)
            };
            assert(ab.buffer@ =~= mid + pad);
        }
        let ghost before_status = ab.buffer@;
        let mut k5: usize = 0;
        while k5 < status.len()
            invariant
                k5 <= status@.len(),
                ab.buffer@ == before_status + status@.take(k5 as int),
            decreases status@.len() - k5,
        {
            ab.append_char(status[k5]);
            proof {
                assert(ab.buffer@ =~= before_status + status@.take(k5 as int + 1));
            }
            k5 = k5 + 1;
        }
        proof {
            assert(status@.take(status@.len() as int) =~= status@);
        }
        ab.append("\u{1b}[m");
        ab.append("\r\n");
        proof {
            assert(ab.buffer@ =~= old(ab).buffer@ + status_bar_line(*self));
        }
    }

    /// Writes the transient message line.
    pub fn editor_draw_message_bar(&self, ab: &mut AppendBuffer, now: u64)
        ensures
            final(ab).buffer@ == old(ab).buffer@ + message_bar_line(*self, now),
    {
        ab.append("\u{1b}[K");
        let elapsed: u64 = if now >= self.status_msg_time {
            now - self.status_msg_time
        } else {
            0
        };
        if self.status_msg.len() > 0 && elapsed < 5000 {
            let take = if self.status_msg.len() > self.screen_cols {
                self.screen_cols
            } else {
                self.status_msg.len()
            };
            self.append_msg_prefix(ab, take);
        }
        proof {
            assert(ab.buffer@ =~= old(ab).buffer@ + message_bar_line(*self, now));
        }
    }

    /// Writes the first `take` characters of the status message.
    fn append_msg_prefix(&self, ab: &mut AppendBuffer, take: usize)
        requires
            take <= self.status_msg@.len(),
        ensures
            final(ab).buffer@ == old(ab).buffer@ + self.status_msg@.take(take as int),
    {
        let mut k: usize = 0;
        while k < take
            invariant
                k <= take <= self.status_msg@.len(),
                ab.buffer@ == old(ab).buffer@ + self.status_msg@.take(k as int),
            decreases take - k,
        {
            ab.append_char(self.status_msg[k]);
            proof {
                assert(ab.buffer@ =~= old(ab).buffer@ + self.status_msg@.take(k as int + 1));
            }
            k = k + 1;
        }
    }

    /// Builds one whole frame: scrolls the cursor back into view, then
    /// serializes the visible rows, the status and message lines and the
    /// cursor position. Only the scroll state changes.
    pub fn refresh_screen(&mut self, now: u64) -> (frame: Vec<char>)
        requires
            old(self).wf(),
            old(self).screen_rows >= 1,
            old(self).screen_cols >= 1,
            old(self).cy < usize::MAX,
        ensures
            final(self).wf(),
            *final(self) == (EditorConfig {
                rx: final(self).rx,
                row_off: final(self).row_off,
                col_off: final(self).col_off,
                ..*old(self)
            }),
            frame@ == spec_frame(*final(self), now),
            final(self).row_off <= final(self).cy,
            final(self).col_off <= final(self).rx,
    {
        self.editor_scroll();
        proof {
            assert(self.row_off <= self.cy);
            assert(self.col_off <= self.rx);
        }
        let mut ab = AppendBuffer::new();
        ab.append("\u{1b}[?25l\u{1b}[H");
        self.draw_rows(&mut ab);
        self.editor_draw_status_bar(&mut ab);
        self.editor_draw_message_bar(&mut ab, now);
        ab.append("\u{1b}[");
        let dy = self.cy - self.row_off;
        ab.append_number(dy + 1);
        ab.append(";");
        let dx = self.rx - self.col_off;
        ab.append_number(dx + 1);
        ab.append("H");
        ab.append("\u{1b}[?25h");
        proof {
            assert(ab.buffer@ =~= spec_frame(*self, now));
        }
        ab.buffer
    }
}

/// The status line's text before truncation: filename display, line count
/// and modified marker.
pub open spec fn status_full_view(e: EditorConfig) -> Seq<char> {
    let fname = match e.filename {
        Some(f) => f@,
        None => "No File"@,
    };
    let fdisp = fname.take(vstd::math::min(20, fname.len() as int));
    let modified = if e.dirty > 0 {
        "(Modified)"@
    } else {
        ""@
    };
    fdisp + " - "@ + dec_chars(e.erow@.len() as int) + " lines "@ + modified
}

} // verus!

use vstd::prelude::*;

use crate::highlight::EditorHighlight;
use crate::TAB_STOP;

verus! {

/// Columns a tab starting at rendered column `col` occupies: up to the next
/// multiple of the tab stop.
pub open spec fn spec_tab_width(col: int) -> int {
    TAB_STOP - (col % (TAB_STOP as int))
}

/// Rendered width of one character placed at rendered column `col`.
pub open spec fn char_width(c: char, col: int) -> int {
    if c == '\t' {
        spec_tab_width(col)
    } else {
        1
    }
}

/// A run of `n` spaces.
pub open spec fn spaces(n: int) -> Seq<char> {
    Seq::new(n as nat, |i: int| ' ')
}

/// The rendered form of `chars` from position `j` on, where the characters
/// before `j` already occupy `col` rendered columns.
pub open spec fn render_from(chars: Seq<char>, j: int, col: int) -> Seq<char>
    decreases chars.len() - j,
{
    if j < 0 || j >= chars.len() {
        Seq::empty()
    } else if chars[j] == '\t' {
        spaces(spec_tab_width(col)) + render_from(chars, j + 1, col + spec_tab_width(col))
    } else {
        seq![chars[j]] + render_from(chars, j + 1, col + 1)
    }
}

/// The rendered form of a row's text: tabs expanded to the next tab stop.
pub open spec fn spec_render(chars: Seq<char>) -> Seq<char> {
    render_from(chars, 0, 0)
}

/// The rendered column where logical column `cx` begins, scanning from
/// logical position `j` at rendered column `col`.
pub open spec fn rx_from(chars: Seq<char>, j: int, col: int, cx: int) -> int
    decreases cx - j,
{
    if j >= cx || j < 0 {
        col
    } else {
        rx_from(chars, j + 1, col + char_width(chars[j], col), cx)
    }
}

/// The rendered column where logical column `cx` begins.
pub open spec fn spec_rx_of(chars: Seq<char>, cx: int) -> int {
    rx_from(chars, 0, 0, cx)
}

/// The logical column containing rendered column `rx`, scanning from logical
/// position `j` at rendered column `col`; the row's length when `rx` lies at
/// or past the end of the rendered form.
pub open spec fn cx_from(chars: Seq<char>, j: int, col: int, rx: int) -> int
    decreases chars.len() - j,
{
    if j < 0 || j >= chars.len() {
        chars.len() as int
    } else {
        let next = col + char_width(chars[j], col);
        if next > rx {
            j
        } else {
            cx_from(chars, j + 1, next, rx)
        }
    }
}

/// The logical column containing rendered column `rx`.
pub open spec fn spec_cx_of(chars: Seq<char>, rx: int) -> int {
    cx_from(chars, 0, 0, rx)
}

/// A tab starting at column `col` widens the row by one to `TAB_STOP`
/// columns and ends exactly on a tab stop; no narrower expansion reaches
/// one.
pub proof fn lemma_tab_width(col: int)
    requires
        col >= 0,
    ensures
        1 <= spec_tab_width(col) <= TAB_STOP,
        (col + spec_tab_width(col)) % (TAB_STOP as int) == 0,
        forall|w: int| col < w < col + spec_tab_width(col) ==> #[trigger] (w % (TAB_STOP as int)) != 0,
{
    let t = TAB_STOP as int;
    vstd::arithmetic::div_mod::lemma_mod_bound(col, t);
    vstd::arithmetic::div_mod::lemma_fundamental_div_mod(col, t);
    let q = col / t;
    let r = col % t;
    assert(col + spec_tab_width(col) == (q + 1) * t) by (nonlinear_arith)
        requires
            col == q * t + r,
            spec_tab_width(col) == t - r,
    ;
    vstd::arithmetic::div_mod::lemma_mod_multiples_basic(q + 1, t);
    assert forall|w: int| col < w < col + spec_tab_width(col) implies #[trigger] (w % t) != 0 by {
        let s = w - q * t;
        assert(0 < s < t);
        vstd::arithmetic::div_mod::lemma_mod_multiples_vanish(q, s, t);
        vstd::arithmetic::div_mod::lemma_small_mod(s as nat, t as nat);
    }
}

/// Every character is at least one column wide, so rendered columns of
/// successive logical columns strictly increase.
pub proof fn lemma_rx_from_bounds(chars: Seq<char>, j: int, col: int, cx: int)
    requires
        0 <= j <= cx,
        col >= 0,
    ensures
        rx_from(chars, j, col, cx) >= col + (cx - j),
        j < cx ==> rx_from(chars, j, col, cx) >= col + char_width(chars[j], col) + (cx - j - 1),
    decreases cx - j,
{
    if j < cx {
        if chars[j] == '\t' {
            lemma_tab_width(col);
        }
        lemma_rx_from_bounds(chars, j + 1, col + char_width(chars[j], col), cx);
    }
}

/// Splitting the rendered-column sum at an intermediate logical column.
pub proof fn lemma_rx_from_split(chars: Seq<char>, j: int, col: int, mid: int, cx: int)
    requires
        0 <= j <= mid <= cx,
    ensures
        rx_from(chars, j, col, cx) == rx_from(chars, mid, rx_from(chars, j, col, mid), cx),
    decreases mid - j,
{
    if j < mid {
        lemma_rx_from_split(chars, j + 1, col + char_width(chars[j], col), mid, cx);
    }
}

/// The rendered form from position `j` is as long as the columns the
/// remaining characters occupy.
pub proof fn lemma_render_from_len(chars: Seq<char>, j: int, col: int)
    requires
        0 <= j <= chars.len(),
        col >= 0,
    ensures
        render_from(chars, j, col).len() == rx_from(chars, j, col, chars.len() as int) - col,
    decreases chars.len() - j,
{
    if j < chars.len() {
        if chars[j] == '\t' {
            lemma_tab_width(col);
        }
        lemma_render_from_len(chars, j + 1, col + char_width(chars[j], col));
    }
}

/// The rendered length of a row equals the rendered column where its end
/// begins.
pub proof fn lemma_render_len(chars: Seq<char>)
    ensures
        spec_render(chars).len() == spec_rx_of(chars, chars.len() as int),
{
    lemma_render_from_len(chars, 0, 0);
}

/// Stepping one logical column right advances the rendered column by
/// exactly the width of the character stepped over.
pub proof fn lemma_rx_of_step(chars: Seq<char>, cx: int)
    requires
        0 <= cx,
    ensures
        spec_rx_of(chars, cx + 1) == spec_rx_of(chars, cx) + char_width(
            chars[cx],
            spec_rx_of(chars, cx),
        ),
{
    lemma_rx_from_split(chars, 0, 0, cx, cx + 1);
    let col = spec_rx_of(chars, cx);
    assert(rx_from(chars, cx, col, cx + 1) == rx_from(
        chars,
        cx + 1,
        col + char_width(chars[cx], col),
        cx + 1,
    ));
}

/// Rendered columns of logical columns grow monotonically, and stay within
/// the rendered length of the whole row.
pub proof fn lemma_rx_of_le(chars: Seq<char>, cx1: int, cx2: int)
    requires
        0 <= cx1 <= cx2,
    ensures
        spec_rx_of(chars, cx1) <= spec_rx_of(chars, cx2),
        spec_rx_of(chars, cx1) >= cx1,
    decreases cx2 - cx1,
{
    lemma_rx_from_bounds(chars, 0, 0, cx1);
    if cx1 < cx2 {
        lemma_rx_of_step(chars, cx1);
        if chars[cx1] == '\t' {
            lemma_tab_width(spec_rx_of(chars, cx1));
        }
        lemma_rx_of_le(chars, cx1 + 1, cx2);
    }
}

/// Scanning for a rendered column from logical column `j` finds `cx` when
/// the target is exactly where `cx` begins.
proof fn lemma_cx_from_inverse(chars: Seq<char>, j: int, cx: int)
    requires
        0 <= j <= cx <= chars.len(),
    ensures
        cx_from(chars, j, spec_rx_of(chars, j), spec_rx_of(chars, cx)) == cx,
    decreases cx - j,
{
    lemma_rx_from_bounds(chars, 0, 0, j);
    if j == cx {
        if j < chars.len() {
            lemma_rx_of_step(chars, j);
            if chars[j] == '\t' {
                lemma_tab_width(spec_rx_of(chars, j));
            }
        }
    } else {
        lemma_rx_of_step(chars, j);
        if chars[j] == '\t' {
            lemma_tab_width(spec_rx_of(chars, j));
        }
        lemma_rx_of_le(chars, j + 1, cx);
        lemma_cx_from_inverse(chars, j + 1, cx);
    }
}

/// The column mappings are mutual inverses: mapping a logical column to its
/// rendered column and back returns the same logical column.
pub proof fn lemma_mapping_inverse(chars: Seq<char>, cx: int)
    requires
        0 <= cx <= chars.len(),
    ensures
        spec_cx_of(chars, spec_rx_of(chars, cx)) == cx,
{
    lemma_cx_from_inverse(chars, 0, cx);
}

/// The rendered suffix from logical column `j` on is the rendered form of
/// the remaining characters, starting at the column where `j` begins.
proof fn lemma_render_from_concat(chars: Seq<char>, i: int, j: int, col: int)
    requires
        0 <= i <= j <= chars.len(),
        col >= 0,
    ensures
        render_from(chars, i, col).skip(rx_from(chars, i, col, j) - col) =~= render_from(
            chars,
            j,
            rx_from(chars, i, col, j),
        ),
        rx_from(chars, i, col, j) >= col,
    decreases j - i,
{
    lemma_rx_from_bounds(chars, i, col, j);
    if i < j {
        let w = char_width(chars[i], col);
        if chars[i] == '\t' {
            lemma_tab_width(col);
        }
        lemma_render_from_concat(chars, i + 1, j, col + w);
        lemma_render_from_len(chars, i, col);
        lemma_render_from_len(chars, i + 1, col + w);
        let r = rx_from(chars, i, col, j);
        assert(rx_from(chars, i, col, j) == rx_from(chars, i + 1, col + w, j));
        lemma_rx_from_bounds(chars, i + 1, col + w, j);
        assert(r - col >= w);
        assert(render_from(chars, i, col).skip(w) =~= render_from(chars, i + 1, col + w));
        lemma_rx_from_split(chars, i, col, j, chars.len() as int);
        lemma_rx_from_bounds(chars, j, r, chars.len() as int);
        assert(render_from(chars, i, col).len() >= r - col);
        vstd::seq_lib::lemma_seq_skip_of_skip(render_from(chars, i, col), w, r - col - w);
        assert(render_from(chars, i, col).skip(r - col) =~= render_from(chars, i + 1, col + w).skip(
            r - col - w,
        ));
    }
}

/// Where a row's text holds a tab, the rendered form holds a run of one to
/// `TAB_STOP` spaces whose end falls exactly on a tab stop.
pub proof fn lemma_render_tab(chars: Seq<char>, j: int)
    requires
        0 <= j < chars.len(),
        chars[j] == '\t',
    ensures
        1 <= spec_tab_width(spec_rx_of(chars, j)) <= TAB_STOP,
        (spec_rx_of(chars, j) + spec_tab_width(spec_rx_of(chars, j))) % (TAB_STOP as int) == 0,
        spec_render(chars).subrange(
            spec_rx_of(chars, j),
            spec_rx_of(chars, j) + spec_tab_width(spec_rx_of(chars, j)),
        ) =~= spaces(spec_tab_width(spec_rx_of(chars, j))),
{
    let s = spec_rx_of(chars, j);
    lemma_rx_from_bounds(chars, 0, 0, j);
    lemma_tab_width(s);
    lemma_render_from_concat(chars, 0, j, 0);
    lemma_render_from_len(chars, 0, 0);
    lemma_render_from_len(chars, j, s);
    lemma_rx_from_split(chars, 0, 0, j, chars.len() as int);
    lemma_rx_from_bounds(chars, j, s, chars.len() as int);
    let w = spec_tab_width(s);
    assert(render_from(chars, j, s) == spaces(w) + render_from(chars, j + 1, s + w));
    assert forall|k: int| 0 <= k < w implies #[trigger] spec_render(chars)[s + k] == ' ' by {
        assert(spec_render(chars).skip(s)[k] == spec_render(chars)[s + k]);
        assert(render_from(chars, j, s)[k] == ' ');
    }
}

/// The rendered form of a row holding one single tab is a full run of
/// spaces out to the first tab stop.
pub proof fn lemma_single_tab_render()
    ensures
        spec_render(seq!['\t']) =~= spaces(TAB_STOP as int),
        spec_render(seq!['\t']).len() == TAB_STOP,
        (spec_render(seq!['\t']).len() as int) % (TAB_STOP as int) == 0,
{
    let chars = seq!['\t'];
    assert(spec_render(chars) == spaces(spec_tab_width(0)) + render_from(chars, 1, spec_tab_width(0)));
    assert(spec_tab_width(0) == TAB_STOP as int);
    assert(spec_render(chars) =~= spaces(TAB_STOP as int));
}

/// Computes the rendered column where logical column `cx` begins; columns
/// past the end of the text map to the end of the rendered form.
pub fn cx_to_rx(chars: &Vec<char>, cx: usize) -> (r: usize)
    requires
        spec_rx_of(chars@, chars@.len() as int) <= usize::MAX,
    ensures
        r == spec_rx_of(chars@, vstd::math::min(cx as int, chars@.len() as int)),
{
    let mut rx: usize = 0;
    let mut j: usize = 0;
    while j < chars.len() && j < cx
        invariant
            j <= chars@.len(),
            j <= cx,
            rx == spec_rx_of(chars@, j as int),
            spec_rx_of(chars@, chars@.len() as int) <= usize::MAX,
        decreases chars@.len() - j,
    {
        proof {
            lemma_rx_of_step(chars@, j as int);
            if chars@[j as int] == '\t' {
                lemma_tab_width(rx as int);
            }
            lemma_rx_of_le(chars@, j as int + 1, chars@.len() as int);
            lemma_rx_of_le(chars@, 0, j as int);
        }
        let c = chars[j];
        if c == '\t' {
            rx = rx + ((TAB_STOP - 1) - (rx % TAB_STOP));
            rx = rx + 1;
        } else {
            rx = rx + 1;
        }
        j = j + 1;
    }
    rx
}

/// Computes the logical column containing rendered column `rx`, or the
/// text's length when `rx` lies past the end of the rendered form.
pub fn rx_to_cx(chars: &Vec<char>, rx: usize) -> (r: usize)
    requires
        spec_rx_of(chars@, chars@.len() as int) <= usize::MAX,
    ensures
        r == spec_cx_of(chars@, rx as int),
{
    let mut cur_rx: usize = 0;
    let mut cx: usize = 0;
    while cx < chars.len()
        invariant
            cx <= chars@.len(),
            cur_rx == spec_rx_of(chars@, cx as int),
            spec_rx_of(chars@, chars@.len() as int) <= usize::MAX,
            spec_cx_of(chars@, rx as int) == cx_from(chars@, cx as int, cur_rx as int, rx as int),
        decreases chars@.len() - cx,
    {
        proof {
            lemma_rx_of_step(chars@, cx as int);
            if chars@[cx as int] == '\t' {
                lemma_tab_width(cur_rx as int);
            }
            lemma_rx_of_le(chars@, cx as int + 1, chars@.len() as int);
            lemma_rx_of_le(chars@, 0, cx as int);
        }
        let c = chars[cx];
        let next: usize = if c == '\t' {
            cur_rx + ((TAB_STOP - 1) - (cur_rx % TAB_STOP)) + 1
        } else {
            cur_rx + 1
        };
        if next > rx {
            return cx;
        }
        cur_rx = next;
        cx = cx + 1;
    }
    cx
}

/// One logical line of text together with its derived rendered form and
/// per-column highlighting.
pub struct EditorRow {
    pub size: usize,
    pub chars: Vec<char>,
    pub render: Vec<char>,
    pub r_size: usize,
    pub hl: Option<Vec<EditorHighlight>>,
    pub idx: usize,
    pub hl_open_comment: bool,
}

impl EditorRow {
    /// The row's text, its length fields and its rendered form agree.
    pub open spec fn wf(&self) -> bool {
        &&& self.size == self.chars@.len()
        &&& self.r_size == self.render@.len()
        &&& self.render@ == spec_render(self.chars@)
    }

    /// Builds a row holding the given text, with its rendered form derived
    /// and no highlighting yet.
    pub fn new_row(chars: Vec<char>, idx: usize) -> (r: EditorRow)
        ensures
            r.wf(),
            r.chars@ == chars@,
            r.hl == Option::<Vec<EditorHighlight>>::None,
            r.idx == idx,
            r.hl_open_comment == false,
    {
        let size = chars.len();
        let mut row = EditorRow {
            size,
            chars,
            render: Vec::new(),
            r_size: 0,
            hl: None,
            idx,
            hl_open_comment: false,
        };
        row.update_row();
        row
    }

    /// Recomputes the rendered form from the text, expanding each tab with
    /// spaces to the next tab stop.
    pub fn update_row(&mut self)
        ensures
            final(self).chars == old(self).chars,
            final(self).size == old(self).size,
            final(self).hl == old(self).hl,
            final(self).idx == old(self).idx,
            final(self).hl_open_comment == old(self).hl_open_comment,
            final(self).render@ == spec_render(old(self).chars@),
            final(self).r_size == final(self).render@.len(),
    {
        let mut render: Vec<char> = Vec::new();
        let mut idx: usize = 0;
        let mut j: usize = 0;
        while j < self.chars.len()
            invariant
                j <= self.chars@.len(),
                idx == render@.len(),
                spec_render(self.chars@) == render@ + render_from(self.chars@, j as int, idx as int),
            decreases self.chars@.len() - j,
        {
            let c = self.chars[j];
            let ghost render0 = render@;
            let ghost col0 = idx as int;
            if c == '\t' {
                proof {
                    lemma_tab_width(col0);
                }
                render.push(' ');
                idx = render.len();
                while idx % TAB_STOP != 0
                    invariant
                        idx == render@.len(),
                        render@ == render0 + spaces(idx - col0),
                        col0 < idx <= col0 + spec_tab_width(col0),
                        1 <= spec_tab_width(col0) <= TAB_STOP,
                        (col0 + spec_tab_width(col0)) % (TAB_STOP as int) == 0,
                        forall|w: int|
                            col0 < w < col0 + spec_tab_width(col0) ==> #[trigger] (w % (
                            TAB_STOP as int)) != 0,
                    decreases col0 + spec_tab_width(col0) - idx,
                {
                    proof {
                        if idx == col0 + spec_tab_width(col0) {
                            assert(idx % TAB_STOP == 0);
                        }
                    }
                    render.push(' ');
                    idx = render.len();
                    proof {
                        assert(render@ =~= render0 + spaces(idx - col0));
                    }
                }
                proof {
                    assert(idx == col0 + spec_tab_width(col0));
                    assert(render@ =~= render0 + spaces(spec_tab_width(col0)));
                    assert(spec_render(self.chars@) == render0 + render_from(
                        self.chars@,
                        j as int,
                        col0,
                    ));
                    assert(render_from(self.chars@, j as int, col0) == spaces(
                        spec_tab_width(col0),
                    ) + render_from(self.chars@, j as int + 1, col0 + spec_tab_width(col0)));
                    assert(spec_render(self.chars@) =~= render@ + render_from(
                        self.chars@,
                        j as int + 1,
                        idx as int,
                    ));
                }
            } else {
                render.push(c);
                idx = render.len();
                proof {
                    assert(render_from(self.chars@, j as int, col0) == seq![c] + render_from(
                        self.chars@,
                        j as int + 1,
                        col0 + 1,
                    ));
                    assert(spec_render(self.chars@) =~= render@ + render_from(
                        self.chars@,
                        j as int + 1,
                        idx as int,
                    ));
                }
            }
            j = j + 1;
        }
        self.r_size = render.len();
        self.render = render;
    }

    /// Inserts a character at logical column `at` (clamped to the text's
    /// length) and re-renders.
    pub fn insert_char(&mut self, at: usize, c: char)
        requires
            old(self).wf(),
        ensures
            final(self).wf(),
            final(self).chars@ == old(self).chars@.insert(
                vstd::math::min(at as int, old(self).chars@.len() as int),
                c,
            ),
            final(self).size == old(self).size + 1,
            final(self).hl == old(self).hl,
            final(self).idx == old(self).idx,
            final(self).hl_open_comment == old(self).hl_open_comment,
    {
        let at = if at < self.chars.len() {
            at
        } else {
            self.chars.len()
        };
        self.chars.insert(at, c);
        self.size = self.chars.len();
        self.update_row();
    }

    /// Deletes the character at logical column `at`; out-of-range columns
    /// are a no-op.
    pub fn delete_char(&mut self, at: usize)
        requires
            old(self).wf(),
        ensures
            final(self).wf(),
            at < old(self).chars@.len() ==> final(self).chars@ == old(self).chars@.remove(at as int),
            at >= old(self).chars@.len() ==> *final(self) == *old(self),
            final(self).hl == old(self).hl,
            final(self).idx == old(self).idx,
            final(self).hl_open_comment == old(self).hl_open_comment,
    {
        if at >= self.chars.len() {
            return ;
        }
        self.chars.remove(at);
        self.size = self.chars.len();
        self.update_row();
    }

    /// Appends text to the end of the row and re-renders.
    pub fn append_string(&mut self, s: &Vec<char>)
        requires
            old(self).wf(),
        ensures
            final(self).wf(),
            final(self).chars@ == old(self).chars@ + s@,
            final(self).hl == old(self).hl,
            final(self).idx == old(self).idx,
            final(self).hl_open_comment == old(self).hl_open_comment,
    {
        let mut k: usize = 0;
        while k < s.len()
            invariant
                k <= s@.len(),
                self.chars@ == old(self).chars@ + s@.take(k as int),
                self.size == old(self).size,
                self.render == old(self).render,
                self.r_size == old(self).r_size,
                self.hl == old(self).hl,
                self.idx == old(self).idx,
                self.hl_open_comment == old(self).hl_open_comment,
            decreases s@.len() - k,
        {
            self.chars.push(s[k]);
            proof {
                assert(self.chars@ =~= old(self).chars@ + s@.take(k as int + 1));
            }
            k = k + 1;
        }
        proof {
            assert(s@.take(s@.len() as int) =~= s@);
        }
        self.size = self.chars.len();
        self.update_row();
    }

    /// Overlays the search-match class on the rendered columns where the
    /// query matched, starting at `match_index`; rows without highlighting,
    /// or an out-of-range region, are left unchanged.
    pub fn highlight_match(&mut self, match_index: usize, query: &Vec<char>)
        ensures
            final(self).chars == old(self).chars,
            final(self).size == old(self).size,
            final(self).render == old(self).render,
            final(self).r_size == old(self).r_size,
            final(self).idx == old(self).idx,
            final(self).hl_open_comment == old(self).hl_open_comment,
            match old(self).hl {
                Some(h) => {
                    &&& final(self).hl is Some
                    &&& if query@.len() <= h@.len() && match_index <= h@.len() - query@.len() {
                        final(self).hl->Some_0@ == Seq::new(
                            h@.len(),
                            |i: int|
                                if match_index <= i < match_index + query@.len() {
                                    EditorHighlight::Match
                                } else {
                                    h@[i]
                                },
                        )
                    } else {
                        final(self).hl->Some_0@ == h@
                    }
                },
                None => final(self).hl is None,
            },
    {
        let query_len = query.len();
        if let Some(hl) = &mut self.hl {
            let n = hl.len();
            if query_len <= n && match_index <= n - query_len {
                let ghost h0 = hl@;
                let mut i: usize = match_index;
                while i < match_index + query_len
                    invariant
                        match_index <= i <= match_index + query_len,
                        match_index + query_len <= n,
                        n == hl@.len(),
                        hl@.len() == h0.len(),
                        forall|k: int|
                            0 <= k < h0.len() && !(match_index <= k < i) ==> hl@[k] == h0[k],
                        forall|k: int| match_index <= k < i ==> hl@[k] == EditorHighlight::Match,
                    decreases match_index + query_len - i,
                {
                    hl.set(i, EditorHighlight::Match);
                    i = i + 1;
                }
                proof {
                    assert(hl@ =~= Seq::new(
                        h0.len(),
                        |i: int|
                            if match_index <= i < match_index + query_len {
                                EditorHighlight::Match
                            } else {
                                h0[i]
                            },
                    ));
                }
            }
        }
    }

    /// The terminal color code displaying a highlight class.
    pub open spec fn spec_syntax_color(hl: EditorHighlight) -> u8 {
        match hl {
            EditorHighlight::Number => 31,
            EditorHighlight::Match => 34,
            EditorHighlight::HlString => 35,
            EditorHighlight::HlComment => 36,
            EditorHighlight::HlMComment => 36,
            EditorHighlight::HlKeyword1 => 33,
            EditorHighlight::HlKeyword2 => 32,
            _ => 37,
        }
    }

    /// Maps a highlight class to its terminal color code.
    pub fn editor_syntax_to_color(hl: EditorHighlight) -> (r: u8)
        ensures
            r == Self::spec_syntax_color(hl),
    {
        match hl {
            EditorHighlight::Number => 31,
            EditorHighlight::Match => 34,
            EditorHighlight::HlString => 35,
            EditorHighlight::HlComment | EditorHighlight::HlMComment => 36,
            EditorHighlight::HlKeyword1 => 33,
            EditorHighlight::HlKeyword2 => 32,
            _ => 37,
        }
    }
}

} // verus!

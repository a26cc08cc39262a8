use vstd::prelude::*;
use vstd::string::StrSliceExecFns;

verus! {

/// The semantic color category assigned to one rendered column.
#[derive(Debug, Clone, Copy, PartialEq, Eq, Structural)]
pub enum EditorHighlight {
    Normal,
    Number,
    Match,
    HlString,
    HlComment,
    HlMComment,
    HlKeyword1,
    HlKeyword2,
}

/// An immutable per-file-type highlighting configuration: name, filename
/// patterns, keyword tables and comment delimiters. A keyword ending in a
/// vertical bar belongs to the second (declaration) class; the bar is not
/// part of the matched text.
pub struct EditorSyntax {
    pub filetype: Vec<char>,
    pub filematch: Vec<Vec<char>>,
    pub keywords: Vec<Vec<char>>,
    pub types: Vec<Vec<char>>,
    pub single_line_comment_start: Vec<char>,
    pub multiline_comment_start: Vec<char>,
    pub multiline_comment_end: Vec<char>,
    pub highlight_numbers: bool,
    pub highlight_strings: bool,
}

/// The text a keyword table entry matches: the entry itself, or the entry
/// without its class-marking trailing bar.
pub open spec fn kw_text(k: Seq<char>) -> Seq<char> {
    if k.len() > 0 && k[k.len() - 1] == '|' {
        k.drop_last()
    } else {
        k
    }
}

/// Whether a keyword table entry is marked (by a trailing bar) as belonging
/// to the second keyword class.
pub open spec fn kw_is_class2(k: Seq<char>) -> bool {
    k.len() > 0 && k[k.len() - 1] == '|'
}

impl EditorSyntax {
    /// Every keyword and type entry matches at least one character, so a
    /// keyword match always advances the highlighter's scan.
    pub open spec fn wf(&self) -> bool {
        &&& forall|i: int|
            0 <= i < self.keywords@.len() ==> kw_text(#[trigger] self.keywords@[i]@).len() > 0
        &&& forall|i: int| 0 <= i < self.types@.len() ==> (#[trigger] self.types@[i]@).len() > 0
    }

    /// The keyword table as a sequence of character sequences.
    pub open spec fn kws_view(&self) -> Seq<Seq<char>> {
        Seq::new(self.keywords@.len(), |i: int| self.keywords@[i]@)
    }

    /// The type table as a sequence of character sequences.
    pub open spec fn types_view(&self) -> Seq<Seq<char>> {
        Seq::new(self.types@.len(), |i: int| self.types@[i]@)
    }
}

/// Whether a character bounds keywords and numbers: whitespace, NUL, or one
/// of a fixed punctuation set.
pub open spec fn spec_is_separator(c: char) -> bool {
    ||| c == ' '
    ||| c == '\t'
    ||| c == '\n'
    ||| c == '\r'
    ||| c == '\0'
    ||| c == ','
    ||| c == '.'
    ||| c == '('
    ||| c == ')'
    ||| c == '+'
    ||| c == '-'
    ||| c == '/'
    ||| c == '*'
    ||| c == '='
    ||| c == '~'
    ||| c == '%'
    ||| c == '<'
    ||| c == '>'
    ||| c == '['
    ||| c == ']'
    ||| c == ';'
}

/// Decides whether a character separates keyword and number runs.
pub fn is_separator(c: char) -> (r: bool)
    ensures
        r == spec_is_separator(c),
{
    c == ' ' || c == '\t' || c == '\n' || c == '\r' || c == '\0' || c == ',' || c == '.' || c == '('
        || c == ')' || c == '+' || c == '-' || c == '/' || c == '*' || c == '=' || c == '~'
        || c == '%' || c == '<' || c == '>' || c == '[' || c == ']' || c == ';'
}

/// A decimal digit.
pub open spec fn spec_is_digit(c: char) -> bool {
    48 <= (c as u32) <= 57
}

/// The delimiter `d` occurs in `render` at position `i`.
pub open spec fn delim_matches(render: Seq<char>, i: int, d: Seq<char>) -> bool {
    &&& i + d.len() <= render.len()
    &&& render.subrange(i, i + d.len()) == d
}

/// The keyword text `kw` occurs in `render` at position `i` and is followed
/// by a separator or the end of the row.
pub open spec fn kw_matches(render: Seq<char>, i: int, kw: Seq<char>) -> bool {
    &&& delim_matches(render, i, kw)
    &&& (i + kw.len() == render.len() || spec_is_separator(render[i + kw.len()]))
}

/// The first entry of a keyword table whose (bar-stripped) text matches at
/// position `i`, separator-bounded.
pub open spec fn find_kw(kws: Seq<Seq<char>>, render: Seq<char>, i: int) -> Option<Seq<char>>
    decreases kws.len(),
{
    if kws.len() == 0 {
        None
    } else if kw_matches(render, i, kw_text(kws[0])) {
        Some(kws[0])
    } else {
        find_kw(kws.skip(1), render, i)
    }
}

/// The first entry of a type table that matches at position `i`,
/// separator-bounded; type entries carry no class-marking bar.
pub open spec fn find_type(ts: Seq<Seq<char>>, render: Seq<char>, i: int) -> Option<Seq<char>>
    decreases ts.len(),
{
    if ts.len() == 0 {
        None
    } else if kw_matches(render, i, ts[0]) {
        Some(ts[0])
    } else {
        find_type(ts.skip(1), render, i)
    }
}

/// A run of `n` copies of one highlight class.
pub open spec fn hl_run(cls: EditorHighlight, n: int) -> Seq<EditorHighlight> {
    Seq::new(n as nat, |k: int| cls)
}

/// The highlighter's single left-to-right scan over a row's rendered text,
/// from position `i` on. `prev_sep` records whether the previous column
/// held a separator, `in_comment` whether an unterminated block comment is
/// open, and `prev_hl` the class assigned to the previous column. Yields
/// the classes of the remaining columns and the trailing block-comment
/// state.
pub open spec fn scan_from(
    syn: EditorSyntax,
    render: Seq<char>,
    i: int,
    prev_sep: bool,
    in_comment: bool,
    prev_hl: EditorHighlight,
) -> (Seq<EditorHighlight>, bool)
    decreases render.len() - i,
{
    if i < 0 || i >= render.len() {
        (Seq::empty(), in_comment)
    } else {
        let c = render[i];
        let scs = syn.single_line_comment_start@;
        let mcs = syn.multiline_comment_start@;
        let mce = syn.multiline_comment_end@;
        if scs.len() > 0 && !in_comment && delim_matches(render, i, scs) {
            (hl_run(EditorHighlight::HlComment, render.len() - i), false)
        } else if mcs.len() > 0 && mce.len() > 0 && in_comment {
            if delim_matches(render, i, mce) {
                let adv = mce.len() as int;
                let rest = scan_from(syn, render, i + adv, true, false, EditorHighlight::HlMComment);
                (hl_run(EditorHighlight::HlMComment, adv) + rest.0, rest.1)
            } else {
                let rest = scan_from(
                    syn,
                    render,
                    i + 1,
                    prev_sep,
                    true,
                    EditorHighlight::HlMComment,
                );
                (hl_run(EditorHighlight::HlMComment, 1) + rest.0, rest.1)
            }
        } else if mcs.len() > 0 && mce.len() > 0 && delim_matches(render, i, mcs) {
            let adv = mcs.len() as int;
            let rest = scan_from(syn, render, i + adv, prev_sep, true, EditorHighlight::HlMComment);
            (hl_run(EditorHighlight::HlMComment, adv) + rest.0, rest.1)
        } else if syn.highlight_numbers && ((spec_is_digit(c) && (prev_sep || prev_hl
            == EditorHighlight::Number)) || (c == '.' && prev_hl == EditorHighlight::Number)) {
            let rest = scan_from(syn, render, i + 1, false, in_comment, EditorHighlight::Number);
            (hl_run(EditorHighlight::Number, 1) + rest.0, rest.1)
        } else if prev_sep && find_kw(syn.kws_view(), render, i) is Some {
            let k = find_kw(syn.kws_view(), render, i)->Some_0;
            let cls = if kw_is_class2(k) {
                EditorHighlight::HlKeyword2
            } else {
                EditorHighlight::HlKeyword1
            };
            let klen = kw_text(k).len() as int;
            let adv = if klen < 1 {
                1
            } else if klen > render.len() - i {
                render.len() - i
            } else {
                klen
            };
            let rest = scan_from(syn, render, i + adv, false, in_comment, cls);
            (hl_run(cls, adv) + rest.0, rest.1)
        } else if prev_sep && find_type(syn.types_view(), render, i) is Some {
            let t = find_type(syn.types_view(), render, i)->Some_0;
            let tlen = t.len() as int;
            let adv = if tlen < 1 {
                1
            } else if tlen > render.len() - i {
                render.len() - i
            } else {
                tlen
            };
            let rest = scan_from(syn, render, i + adv, false, in_comment, EditorHighlight::HlKeyword2);
            (hl_run(EditorHighlight::HlKeyword2, adv) + rest.0, rest.1)
        } else {
            let rest = scan_from(
                syn,
                render,
                i + 1,
                spec_is_separator(c),
                in_comment,
                EditorHighlight::Normal,
            );
            (hl_run(EditorHighlight::Normal, 1) + rest.0, rest.1)
        }
    }
}

/// What the highlighter assigns to a whole row, given the trailing
/// block-comment state of the row above: the per-column classes and this
/// row's trailing block-comment state.
pub open spec fn spec_scan(syn: EditorSyntax, render: Seq<char>, start_in_comment: bool) -> (
    Seq<EditorHighlight>,
    bool,
) {
    scan_from(syn, render, 0, true, start_in_comment, EditorHighlight::Normal)
}

/// The scan assigns one class to every rendered column.
pub proof fn lemma_scan_from_len(
    syn: EditorSyntax,
    render: Seq<char>,
    i: int,
    prev_sep: bool,
    in_comment: bool,
    prev_hl: EditorHighlight,
)
    requires
        0 <= i <= render.len(),
    ensures
        scan_from(syn, render, i, prev_sep, in_comment, prev_hl).0.len() == render.len() - i,
    decreases render.len() - i,
{
    if i < render.len() {
        let c = render[i];
        let scs = syn.single_line_comment_start@;
        let mcs = syn.multiline_comment_start@;
        let mce = syn.multiline_comment_end@;
        if scs.len() > 0 && !in_comment && delim_matches(render, i, scs) {
        } else if mcs.len() > 0 && mce.len() > 0 && in_comment {
            if delim_matches(render, i, mce) {
                lemma_scan_from_len(
                    syn,
                    render,
                    i + mce.len(),
                    true,
                    false,
                    EditorHighlight::HlMComment,
                );
            } else {
                lemma_scan_from_len(syn, render, i + 1, prev_sep, true, EditorHighlight::HlMComment);
            }
        } else if mcs.len() > 0 && mce.len() > 0 && delim_matches(render, i, mcs) {
            lemma_scan_from_len(
                syn,
                render,
                i + mcs.len(),
                prev_sep,
                true,
                EditorHighlight::HlMComment,
            );
        } else if syn.highlight_numbers && ((spec_is_digit(c) && (prev_sep || prev_hl
            == EditorHighlight::Number)) || (c == '.' && prev_hl == EditorHighlight::Number)) {
            lemma_scan_from_len(syn, render, i + 1, false, in_comment, EditorHighlight::Number);
        } else if prev_sep && find_kw(syn.kws_view(), render, i) is Some {
            let k = find_kw(syn.kws_view(), render, i)->Some_0;
            let cls = if kw_is_class2(k) {
                EditorHighlight::HlKeyword2
            } else {
                EditorHighlight::HlKeyword1
            };
            let klen = kw_text(k).len() as int;
            let adv = if klen < 1 {
                1
            } else if klen > render.len() - i {
                render.len() - i
            } else {
                klen
            };
            lemma_find_kw_in_range(syn.kws_view(), render, i);
            lemma_scan_from_len(syn, render, i + adv, false, in_comment, cls);
        } else if prev_sep && find_type(syn.types_view(), render, i) is Some {
            let t = find_type(syn.types_view(), render, i)->Some_0;
            let tlen = t.len() as int;
            let adv = if tlen < 1 {
                1
            } else if tlen > render.len() - i {
                render.len() - i
            } else {
                tlen
            };
            lemma_find_type_in_range(syn.types_view(), render, i);
            lemma_scan_from_len(
                syn,
                render,
                i + adv,
                false,
                in_comment,
                EditorHighlight::HlKeyword2,
            );
        } else {
            lemma_scan_from_len(
                syn,
                render,
                i + 1,
                spec_is_separator(c),
                in_comment,
                EditorHighlight::Normal,
            );
        }
    }
}

/// A keyword the scan finds fits within the row.
pub proof fn lemma_find_kw_in_range(kws: Seq<Seq<char>>, render: Seq<char>, i: int)
    requires
        find_kw(kws, render, i) is Some,
    ensures
        kw_matches(render, i, kw_text(find_kw(kws, render, i)->Some_0)),
    decreases kws.len(),
{
    if kws.len() > 0 && !kw_matches(render, i, kw_text(kws[0])) {
        lemma_find_kw_in_range(kws.skip(1), render, i);
    }
}

/// A type name the scan finds fits within the row.
pub proof fn lemma_find_type_in_range(ts: Seq<Seq<char>>, render: Seq<char>, i: int)
    requires
        find_type(ts, render, i) is Some,
    ensures
        kw_matches(render, i, find_type(ts, render, i)->Some_0),
    decreases ts.len(),
{
    if ts.len() > 0 && !kw_matches(render, i, ts[0]) {
        lemma_find_type_in_range(ts.skip(1), render, i);
    }
}

/// A table of character vectors, seen as a sequence of character sequences.
pub open spec fn vecs_view(v: Seq<Vec<char>>) -> Seq<Seq<char>> {
    Seq::new(v.len(), |i: int| v[i]@)
}

/// Decides whether a character is a decimal digit.
fn is_digit(c: char) -> (r: bool)
    ensures
        r == spec_is_digit(c),
{
    let u = c as u32;
    48 <= u && u <= 57
}

/// Decides whether the delimiter occurs in the rendered text at position
/// `i`.
pub(crate) fn delim_match(render: &Vec<char>, i: usize, d: &Vec<char>) -> (r: bool)
    requires
        i <= render@.len(),
    ensures
        r == delim_matches(render@, i as int, d@),
{
    let dl = d.len();
    let n = render.len();
    if n - i < dl {
        return false;
    }
    let mut k: usize = 0;
    while k < dl
        invariant
            k <= dl,
            dl == d@.len(),
            n == render@.len(),
            i + dl <= n,
            forall|m: int| 0 <= m < k ==> render@[i + m] == d@[m],
        decreases dl - k,
    {
        if render[i + k] != d[k] {
            proof {
                assert(render@.subrange(i as int, i + dl)[k as int] == render@[i + k]);
            }
            return false;
        }
        k = k + 1;
    }
    proof {
        assert(render@.subrange(i as int, i + dl) =~= d@);
    }
    true
}

/// Decides whether the first `text_len` characters of a keyword entry occur
/// in the rendered text at position `i`, bounded by a separator or the end
/// of the row.
fn kw_match(render: &Vec<char>, i: usize, kw: &Vec<char>, text_len: usize) -> (r: bool)
    requires
        i <= render@.len(),
        text_len <= kw@.len(),
    ensures
        r == kw_matches(render@, i as int, kw@.take(text_len as int)),
{
    let n = render.len();
    if n - i < text_len {
        return false;
    }
    let mut k: usize = 0;
    while k < text_len
        invariant
            k <= text_len,
            text_len <= kw@.len(),
            n == render@.len(),
            i + text_len <= n,
            forall|m: int| 0 <= m < k ==> render@[i + m] == kw@[m],
        decreases text_len - k,
    {
        if render[i + k] != kw[k] {
            proof {
                assert(render@.subrange(i as int, i + text_len)[k as int] == render@[i + k]);
                assert(kw@.take(text_len as int)[k as int] == kw@[k as int]);
            }
            return false;
        }
        k = k + 1;
    }
    proof {
        assert(render@.subrange(i as int, i + text_len) =~= kw@.take(text_len as int));
    }
    if i + text_len == render.len() {
        true
    } else {
        is_separator(render[i + text_len])
    }
}

/// Finds the first keyword table entry whose bar-stripped text matches at
/// position `i`, returning its index.
fn find_keyword(render: &Vec<char>, i: usize, keywords: &Vec<Vec<char>>) -> (r: Option<usize>)
    requires
        i <= render@.len(),
    ensures
        match r {
            Some(j) => 0 <= j < keywords@.len() && find_kw(vecs_view(keywords@), render@, i as int)
                == Some(keywords@[j as int]@),
            None => find_kw(vecs_view(keywords@), render@, i as int) is None,
        },
{
    let ghost kws = vecs_view(keywords@);
    proof {
        assert(kws.skip(0) =~= kws);
    }
    let mut j: usize = 0;
    while j < keywords.len()
        invariant
            j <= keywords@.len(),
            i <= render@.len(),
            kws == vecs_view(keywords@),
            find_kw(kws, render@, i as int) == find_kw(kws.skip(j as int), render@, i as int),
        decreases keywords@.len() - j,
    {
        let kw = &keywords[j];
        let klen = kw.len();
        let kw2 = klen > 0 && kw[klen - 1] == '|';
        let text_len = if kw2 {
            klen - 1
        } else {
            klen
        };
        proof {
            assert(kws.skip(j as int)[0] == keywords@[j as int]@);
            assert(kw_text(kw@) =~= kw@.take(text_len as int));
        }
        if kw_match(render, i, kw, text_len) {
            proof {
                assert(kw_matches(render@, i as int, kw_text(kws.skip(j as int)[0])));
            }
            return Some(j);
        }
        proof {
            assert(kws.skip(j as int).skip(1) =~= kws.skip(j as int + 1));
        }
        j = j + 1;
    }
    proof {
        assert(kws.skip(keywords@.len() as int).len() == 0);
    }
    None
}

/// Finds the first type table entry that matches at position `i`, returning
/// its index.
fn find_type_entry(render: &Vec<char>, i: usize, types: &Vec<Vec<char>>) -> (r: Option<usize>)
    requires
        i <= render@.len(),
    ensures
        match r {
            Some(j) => 0 <= j < types@.len() && find_type(vecs_view(types@), render@, i as int)
                == Some(types@[j as int]@),
            None => find_type(vecs_view(types@), render@, i as int) is None,
        },
{
    let ghost ts = vecs_view(types@);
    proof {
        assert(ts.skip(0) =~= ts);
    }
    let mut j: usize = 0;
    while j < types.len()
        invariant
            j <= types@.len(),
            i <= render@.len(),
            ts == vecs_view(types@),
            find_type(ts, render@, i as int) == find_type(ts.skip(j as int), render@, i as int),
        decreases types@.len() - j,
    {
        let kw = &types[j];
        proof {
            assert(ts.skip(j as int)[0] == types@[j as int]@);
            assert(kw@.take(kw@.len() as int) =~= kw@);
        }
        if kw_match(render, i, kw, kw.len()) {
            return Some(j);
        }
        proof {
            assert(ts.skip(j as int).skip(1) =~= ts.skip(j as int + 1));
        }
        j = j + 1;
    }
    proof {
        assert(ts.skip(types@.len() as int).len() == 0);
    }
    None
}

/// Appends `count` copies of one highlight class.
fn push_n(hl: &mut Vec<EditorHighlight>, cls: EditorHighlight, count: usize)
    ensures
        final(hl)@ == old(hl)@ + hl_run(cls, count as int),
{
    let mut k: usize = 0;
    while k < count
        invariant
            k <= count,
            hl@ == old(hl)@ + hl_run(cls, k as int),
        decreases count - k,
    {
        hl.push(cls);
        proof {
            assert(hl@ =~= old(hl)@ + hl_run(cls, k as int + 1));
        }
        k = k + 1;
    }
}

/// Recolors one row: a single scan over its rendered text, seeded with the
/// trailing block-comment state of the row above, yielding the per-column
/// classes and this row's trailing block-comment state.
#[verifier::rlimit(100)]
pub fn update_syntax_row(render: &Vec<char>, syn: &EditorSyntax, start_in_comment: bool) -> (out: (
    Vec<EditorHighlight>,
    bool,
))
    requires
        syn.wf(),
    ensures
        (out.0@, out.1) == spec_scan(*syn, render@, start_in_comment),
        out.0@.len() == render@.len(),
{
    let ghost full = spec_scan(*syn, render@, start_in_comment);
    let mut hl: Vec<EditorHighlight> = Vec::new();
    let mut prev_sep: bool = true;
    let mut in_comment: bool = start_in_comment;
    let mut prev_hl: EditorHighlight = EditorHighlight::Normal;
    let n = render.len();
    while hl.len() < n
        invariant
            syn.wf(),
            n == render@.len(),
            hl@.len() <= n,
            full == spec_scan(*syn, render@, start_in_comment),
            full.0 == hl@ + scan_from(
                *syn,
                render@,
                hl@.len() as int,
                prev_sep,
                in_comment,
                prev_hl,
            ).0,
            full.1 == scan_from(*syn, render@, hl@.len() as int, prev_sep, in_comment, prev_hl).1,
        decreases n - hl@.len(),
    {
        let i = hl.len();
        let ghost st = scan_from(*syn, render@, i as int, prev_sep, in_comment, prev_hl);
        let ghost hl0 = hl@;
        let c = render[i];
        let scs_len = syn.single_line_comment_start.len();
        let mcs_len = syn.multiline_comment_start.len();
        let mce_len = syn.multiline_comment_end.len();
        if scs_len > 0 && !in_comment && delim_match(render, i, &syn.single_line_comment_start) {
            while hl.len() < n
                invariant
                    n == render@.len(),
                    hl0.len() <= hl@.len() <= n,
                    hl@ == hl0 + hl_run(EditorHighlight::HlComment, hl@.len() - hl0.len()),
                decreases n - hl@.len(),
            {
                hl.push(EditorHighlight::HlComment);
                proof {
                    assert(hl@ =~= hl0 + hl_run(EditorHighlight::HlComment, hl@.len() - hl0.len()));
                }
            }
            in_comment = false;
            proof {
                assert(st == (hl_run(EditorHighlight::HlComment, n - i), false));
                assert(full.0 =~= hl@ + scan_from(
                    *syn,
                    render@,
                    hl@.len() as int,
                    prev_sep,
                    in_comment,
                    prev_hl,
                ).0);
            }
        } else if mcs_len > 0 && mce_len > 0 && in_comment {
            if delim_match(render, i, &syn.multiline_comment_end) {
                push_n(&mut hl, EditorHighlight::HlMComment, mce_len);
                in_comment = false;
                prev_sep = true;
                prev_hl = EditorHighlight::HlMComment;
                proof {
                    let rest = scan_from(
                        *syn,
                        render@,
                        i + mce_len,
                        prev_sep,
                        in_comment,
                        prev_hl,
                    );
                    assert(st == (hl_run(EditorHighlight::HlMComment, mce_len as int) + rest.0, rest.1));
                    assert(full.0 =~= hl@ + rest.0);
                }
            } else {
                hl.push(EditorHighlight::HlMComment);
                prev_hl = EditorHighlight::HlMComment;
                proof {
                    let rest = scan_from(*syn, render@, i + 1, prev_sep, in_comment, prev_hl);
                    assert(st == (hl_run(EditorHighlight::HlMComment, 1) + rest.0, rest.1));
                    assert(hl@ =~= hl0 + hl_run(EditorHighlight::HlMComment, 1));
                    assert(full.0 =~= hl@ + rest.0);
                }
            }
        } else if mcs_len > 0 && mce_len > 0 && delim_match(render, i, &syn.multiline_comment_start) {
            push_n(&mut hl, EditorHighlight::HlMComment, mcs_len);
            in_comment = true;
            prev_hl = EditorHighlight::HlMComment;
            proof {
                let rest = scan_from(*syn, render@, i + mcs_len, prev_sep, in_comment, prev_hl);
                assert(st == (hl_run(EditorHighlight::HlMComment, mcs_len as int) + rest.0, rest.1));
                assert(full.0 =~= hl@ + rest.0);
            }
        } else if syn.highlight_numbers && ((is_digit(c) && (prev_sep || prev_hl
            == EditorHighlight::Number)) || (c == '.' && prev_hl == EditorHighlight::Number)) {
            hl.push(EditorHighlight::Number);
            prev_sep = false;
            prev_hl = EditorHighlight::Number;
            proof {
                let rest = scan_from(*syn, render@, i + 1, prev_sep, in_comment, prev_hl);
                assert(st == (hl_run(EditorHighlight::Number, 1) + rest.0, rest.1));
                assert(hl@ =~= hl0 + hl_run(EditorHighlight::Number, 1));
                assert(full.0 =~= hl@ + rest.0);
            }
        } else {
            let mut handled = false;
            if prev_sep {
                if let Some(j) = find_keyword(render, i, &syn.keywords) {
                    let kw = &syn.keywords[j];
                    let klen = kw.len();
                    let kw2 = klen > 0 && kw[klen - 1] == '|';
                    let text_len = if kw2 {
                        klen - 1
                    } else {
                        klen
                    };
                    let cls = if kw2 {
                        EditorHighlight::HlKeyword2
                    } else {
                        EditorHighlight::HlKeyword1
                    };
                    proof {
                        let k_spec = find_kw(syn.kws_view(), render@, i as int)->Some_0;
                        assert(syn.kws_view() =~= vecs_view(syn.keywords@));
                        assert(k_spec == kw@);
                        assert(kw_is_class2(k_spec) == kw2);
                        assert(kw_text(k_spec) =~= kw@.take(text_len as int));
                        assert(kw_text(k_spec).len() > 0);
                        lemma_find_kw_in_range(syn.kws_view(), render@, i as int);
                        assert(i + text_len <= render@.len());
                    }
                    push_n(&mut hl, cls, text_len);
                    prev_sep = false;
                    prev_hl = cls;
                    handled = true;
                    proof {
                        let rest = scan_from(*syn, render@, i + text_len, prev_sep, in_comment, prev_hl);
                        assert(st == (hl_run(cls, text_len as int) + rest.0, rest.1));
                        assert(full.0 =~= hl@ + rest.0);
                    }
                } else {
                    if let Some(j) = find_type_entry(render, i, &syn.types) {
                        let t = &syn.types[j];
                        let tlen = t.len();
                        proof {
                            let t_spec = find_type(syn.types_view(), render@, i as int)->Some_0;
                            assert(syn.types_view() =~= vecs_view(syn.types@));
                            assert(t_spec == t@);
                            assert(t_spec.len() > 0);
                            lemma_find_type_in_range(syn.types_view(), render@, i as int);
                            assert(i + tlen <= render@.len());
                            assert(find_kw(syn.kws_view(), render@, i as int) is None);
                        }
                        push_n(&mut hl, EditorHighlight::HlKeyword2, tlen);
                        prev_sep = false;
                        prev_hl = EditorHighlight::HlKeyword2;
                        handled = true;
                        proof {
                            let rest = scan_from(*syn, render@, i + tlen, prev_sep, in_comment, prev_hl);
                            assert(st == (hl_run(EditorHighlight::HlKeyword2, tlen as int) + rest.0, rest.1));
                            assert(full.0 =~= hl@ + rest.0);
                        }
                    }
                }
            }
            if !handled {
                let sep = is_separator(c);
                hl.push(EditorHighlight::Normal);
                prev_sep = sep;
                prev_hl = EditorHighlight::Normal;
                proof {
                    let rest = scan_from(*syn, render@, i + 1, prev_sep, in_comment, prev_hl);
                    assert(st == (hl_run(EditorHighlight::Normal, 1) + rest.0, rest.1));
                    assert(hl@ =~= hl0 + hl_run(EditorHighlight::Normal, 1));
                    assert(full.0 =~= hl@ + rest.0);
                }
            }
        }
    }
    proof {
        assert(full.0 =~= hl@);
    }
    (hl, in_comment)
}

/// The keyword table of the built-in Rust profile; entries marked with a
/// trailing bar belong to the declaration class.
pub open spec fn rust_keywords_view() -> Seq<Seq<char>> {
    seq!["if"@, "else"@, "while"@, "for"@, "loop"@, "break"@, "continue"@, "return"@, "match"@, "struct|"@, "enum|"@, "impl|"@, "trait|"@, "fn|"@, "let|"@, "mut|"@, "const|"@, "static|"@, "pub|"@, "mod|"@, "use|"@, "crate|"@, "super|"@, "self|"@]
}

/// The type-name table of the built-in Rust profile.
pub open spec fn rust_types_view() -> Seq<Seq<char>> {
    seq!["i8"@, "i16"@, "i32"@, "i64"@, "i128"@, "isize"@, "u8"@, "u16"@, "u32"@, "u64"@, "u128"@, "usize"@, "f32"@, "f64"@, "bool"@, "char"@, "str"@, "String"@, "Vec"@, "Option"@, "Result"@]
}

/// Copies a text fragment into a character vector.
fn chars_of(s: &str) -> (r: Vec<char>)
    ensures
        r@ == s@,
{
    let n = s.unicode_len();
    let mut r: Vec<char> = Vec::new();
    let mut i: usize = 0;
    while i < n
        invariant
            n == s@.len(),
            i <= n,
            r@ == s@.take(i as int),
        decreases n - i,
    {
        let c = s.get_char(i);
        r.push(c);
        proof {
            assert(r@ =~= s@.take(i as int + 1));
        }
        i = i + 1;
    }
    proof {
        assert(s@.take(s@.len() as int) =~= s@);
    }
    r
}

/// Appends one table entry.
fn push_entry(table: &mut Vec<Vec<char>>, s: &str)
    ensures
        final(table)@.len() == old(table)@.len() + 1,
        forall|i: int| 0 <= i < old(table)@.len() ==> final(table)@[i] == old(table)@[i],
        final(table)@[old(table)@.len() as int]@ == s@,
{
    let e = chars_of(s);
    table.push(e);
}

/// Builds the built-in syntax profile for Rust sources: dot-rs and dot-toml
/// filenames, double-slash line comments, slash-star block comments, and
/// number and string highlighting.
#[verifier::rlimit(100)]
pub fn rust_syntax() -> (r: EditorSyntax)
    ensures
        r.wf(),
        r.filetype@ == "Rust"@,
        r.filematch@.len() == 2,
        r.filematch@[0]@ == ".rs"@,
        r.filematch@[1]@ == ".toml"@,
        r.single_line_comment_start@ == "//"@,
        r.multiline_comment_start@ == "/*"@,
        r.multiline_comment_end@ == "*/"@,
        r.highlight_numbers,
        r.highlight_strings,
        r.kws_view() == rust_keywords_view(),
        r.types_view() == rust_types_view(),
{
    let mut filematch: Vec<Vec<char>> = Vec::new();
    push_entry(&mut filematch, ".rs");
    push_entry(&mut filematch, ".toml");
    let mut keywords: Vec<Vec<char>> = Vec::new();
    push_entry(&mut keywords, "if");
    push_entry(&mut keywords, "else");
    push_entry(&mut keywords, "while");
    push_entry(&mut keywords, "for");
    push_entry(&mut keywords, "loop");
    push_entry(&mut keywords, "break");
    push_entry(&mut keywords, "continue");
    push_entry(&mut keywords, "return");
    push_entry(&mut keywords, "match");
    push_entry(&mut keywords, "struct|");
    push_entry(&mut keywords, "enum|");
    push_entry(&mut keywords, "impl|");
    push_entry(&mut keywords, "trait|");
    push_entry(&mut keywords, "fn|");
    push_entry(&mut keywords, "let|");
    push_entry(&mut keywords, "mut|");
    push_entry(&mut keywords, "const|");
    push_entry(&mut keywords, "static|");
    push_entry(&mut keywords, "pub|");
    push_entry(&mut keywords, "mod|");
    push_entry(&mut keywords, "use|");
    push_entry(&mut keywords, "crate|");
    push_entry(&mut keywords, "super|");
    push_entry(&mut keywords, "self|");
    let mut types: Vec<Vec<char>> = Vec::new();
    push_entry(&mut types, "i8");
    push_entry(&mut types, "i16");
    push_entry(&mut types, "i32");
    push_entry(&mut types, "i64");
    push_entry(&mut types, "i128");
    push_entry(&mut types, "isize");
    push_entry(&mut types, "u8");
    push_entry(&mut types, "u16");
    push_entry(&mut types, "u32");
    push_entry(&mut types, "u64");
    push_entry(&mut types, "u128");
    push_entry(&mut types, "usize");
    push_entry(&mut types, "f32");
    push_entry(&mut types, "f64");
    push_entry(&mut types, "bool");
    push_entry(&mut types, "char");
    push_entry(&mut types, "str");
    push_entry(&mut types, "String");
    push_entry(&mut types, "Vec");
    push_entry(&mut types, "Option");
    push_entry(&mut types, "Result");
    let r = EditorSyntax {
        filetype: chars_of("Rust"),
        filematch,
        keywords,
        types,
        single_line_comment_start: chars_of("//"),
        multiline_comment_start: chars_of("/*"),
        multiline_comment_end: chars_of("*/"),
        highlight_numbers: true,
        highlight_strings: true,
    };
    proof {
        reveal_strlit("if");
        reveal_strlit("else");
        reveal_strlit("while");
        reveal_strlit("for");
        reveal_strlit("loop");
        reveal_strlit("break");
        reveal_strlit("continue");
        reveal_strlit("return");
        reveal_strlit("match");
        reveal_strlit("struct|");
        reveal_strlit("enum|");
        reveal_strlit("impl|");
        reveal_strlit("trait|");
        reveal_strlit("fn|");
        reveal_strlit("let|");
        reveal_strlit("mut|");
        reveal_strlit("const|");
        reveal_strlit("static|");
        reveal_strlit("pub|");
        reveal_strlit("mod|");
        reveal_strlit("use|");
        reveal_strlit("crate|");
        reveal_strlit("super|");
        reveal_strlit("self|");
        reveal_strlit("i8");
        reveal_strlit("i16");
        reveal_strlit("i32");
        reveal_strlit("i64");
        reveal_strlit("i128");
        reveal_strlit("isize");
        reveal_strlit("u8");
        reveal_strlit("u16");
        reveal_strlit("u32");
        reveal_strlit("u64");
        reveal_strlit("u128");
        reveal_strlit("usize");
        reveal_strlit("f32");
        reveal_strlit("f64");
        reveal_strlit("bool");
        reveal_strlit("char");
        reveal_strlit("str");
        reveal_strlit("String");
        reveal_strlit("Vec");
        reveal_strlit("Option");
        reveal_strlit("Result");
        assert(r.kws_view() =~= rust_keywords_view());
        assert(r.types_view() =~= rust_types_view());
        assert forall|i: int|
            0 <= i < r.keywords@.len() implies kw_text(#[trigger] r.keywords@[i]@).len() > 0 by {
            assert(r.kws_view()[i] == r.keywords@[i]@);
            assert(rust_keywords_view()[i] == r.keywords@[i]@);
        }
        assert forall|i: int| 0 <= i < r.types@.len() implies (#[trigger] r.types@[i]@).len()
            > 0 by {
            assert(r.types_view()[i] == r.types@[i]@);
            assert(rust_types_view()[i] == r.types@[i]@);
        }
    }
    r
}

/// The syntax table the editor ships with: the Rust profile alone.
pub fn default_syntax_db() -> (db: Vec<EditorSyntax>)
    ensures
        db@.len() == 1,
        forall|d: int| 0 <= d < db@.len() ==> (#[trigger] db@[d]).wf(),
        db@[0].filematch@.len() == 2,
        db@[0].filematch@[0]@ == ".rs"@,
        db@[0].filematch@[1]@ == ".toml"@,
        db@[0].kws_view() == rust_keywords_view(),
        db@[0].types_view() == rust_types_view(),
        db@[0].single_line_comment_start@ == "//"@,
        db@[0].multiline_comment_start@ == "/*"@,
        db@[0].multiline_comment_end@ == "*/"@,
        db@[0].highlight_numbers,
{
    let mut db: Vec<EditorSyntax> = Vec::new();
    db.push(rust_syntax());
    db
}

} // verus!

use vstd::prelude::*;

verus! {

/// The save serialization: every row's text followed by one newline, in row
/// order.
pub open spec fn join_rows(rows: Seq<Seq<char>>) -> Seq<char>
    decreases rows.len(),
{
    if rows.len() == 0 {
        Seq::empty()
    } else {
        rows[0] + seq!['\n'] + join_rows(rows.skip(1))
    }
}

/// A line with its trailing carriage returns removed.
pub open spec fn strip_cr(line: Seq<char>) -> Seq<char>
    decreases line.len(),
{
    if line.len() > 0 && line[line.len() - 1] == '\r' {
        strip_cr(line.drop_last())
    } else {
        line
    }
}

/// The first position at or after `from` holding `c`, or the text's length
/// when there is none.
pub open spec fn find_char_from(t: Seq<char>, from: int, c: char) -> int
    decreases t.len() - from,
{
    if from < 0 || from >= t.len() {
        t.len() as int
    } else if t[from] == c {
        from
    } else {
        find_char_from(t, from + 1, c)
    }
}

/// Where the found position lies, and that nothing before it matches.
pub proof fn lemma_find_char(t: Seq<char>, from: int, c: char)
    requires
        0 <= from <= t.len(),
    ensures
        from <= find_char_from(t, from, c) <= t.len(),
        find_char_from(t, from, c) < t.len() ==> t[find_char_from(t, from, c)] == c,
        forall|j: int| from <= j < find_char_from(t, from, c) ==> t[j] != c,
    decreases t.len() - from,
{
    if from < t.len() && t[from] != c {
        lemma_find_char(t, from + 1, c);
    }
}

/// The document that loading a text yields, reading from position `from`:
/// each segment up to a newline (or the end) becomes one line, trailing
/// carriage returns stripped.
pub open spec fn split_lines_from(t: Seq<char>, from: int) -> Seq<Seq<char>>
    decreases t.len() - from,
    via split_lines_from_dec
{
    if from < 0 || from >= t.len() {
        Seq::empty()
    } else {
        let e = find_char_from(t, from, '\n');
        seq![strip_cr(t.subrange(from, e))] + split_lines_from(
            t,
            if e < t.len() {
                e + 1
            } else {
                e
            },
        )
    }
}

#[via_fn]
proof fn split_lines_from_dec(t: Seq<char>, from: int) {
    if 0 <= from && from < t.len() {
        lemma_find_char(t, from, '\n');
    }
}

/// The document that loading a text yields.
pub open spec fn split_lines(t: Seq<char>) -> Seq<Seq<char>> {
    split_lines_from(t, 0)
}

/// Stripping does nothing to a range with no trailing carriage return, and
/// removes exactly the trailing run of them otherwise.
pub proof fn lemma_strip_cr_range(t: Seq<char>, from: int, end: int, e: int)
    requires
        0 <= from <= end <= e <= t.len(),
        forall|j: int| end <= j < e ==> t[j] == '\r',
        end > from ==> t[end - 1] != '\r',
    ensures
        strip_cr(t.subrange(from, e)) == t.subrange(from, end),
    decreases e - end,
{
    if end == e {
        let s = t.subrange(from, e);
        assert(s.len() > 0 ==> s[s.len() - 1] == t[e - 1]);
    } else {
        let s = t.subrange(from, e);
        assert(s[s.len() - 1] == t[e - 1]);
        assert(s.drop_last() =~= t.subrange(from, e - 1));
        lemma_strip_cr_range(t, from, end, e - 1);
    }
}

/// Saving a freshly loaded text reproduces it exactly, provided the text is
/// newline-terminated (or empty) and no line ends in a carriage return.
pub proof fn lemma_load_save_round_trip(t: Seq<char>)
    requires
        t.len() == 0 || t[t.len() - 1] == '\n',
        forall|i: int| 0 <= i < t.len() - 1 ==> !(t[i] == '\r' && #[trigger] t[i + 1] == '\n'),
    ensures
        join_rows(split_lines(t)) == t,
{
    lemma_round_trip_from(t, 0);
    assert(t.skip(0) =~= t);
}

/// The round trip, generalized over the suffix of the text still to load.
proof fn lemma_round_trip_from(t: Seq<char>, from: int)
    requires
        0 <= from <= t.len(),
        t.len() == 0 || t[t.len() - 1] == '\n',
        forall|i: int| 0 <= i < t.len() - 1 ==> !(t[i] == '\r' && #[trigger] t[i + 1] == '\n'),
    ensures
        join_rows(split_lines_from(t, from)) == t.skip(from),
    decreases t.len() - from,
{
    if from >= t.len() {
        assert(t.skip(from) =~= Seq::<char>::empty());
    } else {
        let e = find_char_from(t, from, '\n');
        lemma_find_char(t, from, '\n');
        assert(e < t.len()) by {
            if e == t.len() {
                assert(t[t.len() - 1] != '\n');
            }
        }
        let line = t.subrange(from, e);
        assert(strip_cr(line) == line) by {
            if line.len() > 0 && line[line.len() - 1] == '\r' {
                assert(line[line.len() - 1] == t[e - 1]);
                assert(t[e] == '\n');
                assert(!(t[e - 1] == '\r' && t[(e - 1) + 1] == '\n'));
                assert(false);
            }
        }
        lemma_round_trip_from(t, e + 1);
        let parts = split_lines_from(t, from);
        assert(parts == seq![line] + split_lines_from(t, e + 1));
        assert(parts.skip(1) =~= split_lines_from(t, e + 1));
        assert(parts[0] == line);
        assert(join_rows(parts) == line + seq!['\n'] + join_rows(split_lines_from(t, e + 1)));
        assert(line + seq!['\n'] + t.skip(e + 1) =~= t.skip(from));
    }
}

} // verus!

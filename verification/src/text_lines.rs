//! Caret arithmetic over the lines of a text field.
//!
//! A caret index counts grapheme clusters from the start of the text, with
//! each line break counting as one position.  These functions move between a
//! caret index and a (line, column) pair, and work out which columns of which
//! lines a selection covers; pixel geometry is left to the renderer.
use vstd::prelude::*;
use vstd::string::StrSliceExecFns;

verus! {

/// Number of extended grapheme clusters of `s`, as
/// `unicode_segmentation::UnicodeSegmentation::graphemes(s, true)` counts them.
pub uninterp spec fn grapheme_count_of(s: Seq<char>) -> nat;

/// Counts the extended grapheme clusters of `s` with
/// `UnicodeSegmentation::graphemes(s, true).count()`.  Besides naming the
/// result, the contract states that clusters are non-empty and cover the
/// text: there are no more clusters than characters, and none exactly when
/// the text is empty.
#[verifier::external_body]
pub(crate) fn grapheme_count(s: &str) -> (res: usize)
    ensures
        res as nat == grapheme_count_of(s@),
        res <= s@.len(),
        (res == 0) == (s@.len() == 0),
{
    unicode_segmentation::UnicodeSegmentation::graphemes(s, true).count()
}

/// The lines of `t`: the maximal runs of characters between line breaks.
/// There is always at least one line; a text ending in a line break ends with
/// an empty line.
pub open spec fn split_newlines(t: Seq<char>) -> Seq<Seq<char>>
    decreases t.len(),
{
    if t.len() == 0 {
        seq![Seq::<char>::empty()]
    } else {
        let rest = split_newlines(t.drop_last());
        if t.last() == '\n' {
            rest.push(Seq::<char>::empty())
        } else {
            rest.update(rest.len() - 1, rest.last().push(t.last()))
        }
    }
}

/// The views of a sequence of string slices.
pub open spec fn str_views(lines: Seq<&str>) -> Seq<Seq<char>> {
    lines.map_values(|l: &str| l@)
}

/// Splits `text` at each `'\n'`, keeping empty pieces: the pieces that
/// `str::split('\n')` gives.
pub(crate) fn split_lines<'a>(text: &'a str) -> (res: Vec<&'a str>)
    ensures
        str_views(res@) == split_newlines(text@),
{
    let n: usize = text.unicode_len();
    let mut res: Vec<&'a str> = Vec::new();
    let mut start: usize = 0;
    let mut i: usize = 0;
    proof {
        assert(text@.subrange(0, 0) =~= Seq::<char>::empty());
        assert(str_views(res@).push(text@.subrange(0, 0)) =~= seq![Seq::<char>::empty()]);
    }
    for ch in it: text.chars()
        invariant
            it.seq() == text@,
            n == text@.len(),
            i == it.index(),
            start <= i <= n,
            str_views(res@).push(text@.subrange(start as int, i as int)) == split_newlines(
                text@.subrange(0, i as int),
            ),
    {
        let ghost done = str_views(res@);
        let ghost cur = text@.subrange(start as int, i as int);
        proof {
            assert(text@.subrange(0, i + 1).drop_last() =~= text@.subrange(0, i as int));
            assert(text@.subrange(0, i + 1).last() == ch);
        }
        if ch == '\n' {
            let piece = text.substring_char(start, i);
            let ghost before = res@;
            res.push(piece);
            start = i + 1;
            proof {
                assert(str_views(res@) =~= str_views(before).push(piece@));
                assert(text@.subrange(start as int, start as int) =~= Seq::<char>::empty());
                assert(str_views(res@).push(text@.subrange(start as int, start as int)) =~= done.push(cur).push(
                    Seq::<char>::empty(),
                ));
            }
        } else {
            proof {
                let rest = done.push(cur);
                assert(text@.subrange(start as int, i + 1) =~= cur.push(ch));
                assert(rest.update(rest.len() - 1, rest.last().push(ch)) =~= done.push(cur.push(ch)));
            }
        }
        i = i + 1;
    }
    let last = text.substring_char(start, n);
    let ghost before = res@;
    res.push(last);
    proof {
        assert(str_views(res@) =~= str_views(before).push(last@));
        assert(text@.subrange(0, n as int) =~= text@);
    }
    res
}

/// Grapheme counts of each line.
pub open spec fn line_counts(lines: Seq<Seq<char>>) -> Seq<int> {
    lines.map_values(|l: Seq<char>| grapheme_count_of(l) as int)
}

/// Walks the lines from line `i` on: the (line, column) of caret index
/// `index` counted from the start of line `i`, or `None` when the index lies
/// past the last line.
pub open spec fn locate(counts: Seq<int>, index: int, i: int) -> Option<(int, int)>
    decreases counts.len() - i,
{
    if i >= counts.len() || i < 0 {
        None
    } else if index <= counts[i] {
        Some((i, index))
    } else {
        locate(counts, index - counts[i] - 1, i + 1)
    }
}

/// Caret index of the start of line `line`: the counts of the earlier lines,
/// plus one per line break.
pub open spec fn line_start(counts: Seq<int>, line: int) -> int
    decreases line,
{
    if line <= 0 {
        0
    } else {
        line_start(counts, line - 1) + counts[line - 1] + 1
    }
}

/// The (line, column) of caret index `index` among `lines`, or `None` when the
/// index lies past the last line.
pub fn locate_in_lines(lines: &[&str], index: usize) -> (res: Option<(usize, usize)>)
    ensures
        match locate(line_counts(str_views(lines@)), index as int, 0) {
            Some((l, c)) => res == Some((l as usize, c as usize)) && 0 <= l < lines@.len() && 0 <= c <= index,
            None => res is None,
        },
{
    let ghost counts = line_counts(str_views(lines@));
    let mut remaining = index;
    let mut i: usize = 0;
    while i < lines.len()
        invariant
            i <= lines@.len(),
            counts == line_counts(str_views(lines@)),
            counts.len() == lines@.len(),
            locate(counts, index as int, 0) == locate(counts, remaining as int, i as int),
            remaining <= index,
        decreases lines@.len() - i,
    {
        let count = grapheme_count(lines[i]);
        assert(counts[i as int] == count);
        if remaining <= count {
            return Some((i, remaining));
        }
        remaining = remaining - (count + 1);
        i = i + 1;
    }
    None
}

/// The (line, column) of a caret index among the given lines; an index past
/// the last line maps to column 0 of the last line.
pub fn index_to_line_col(lines: &[&str], index: usize) -> (res: (usize, usize))
    ensures
        res == match locate(line_counts(str_views(lines@)), index as int, 0) {
            Some((l, c)) => (l as usize, c as usize),
            None => ((if lines@.len() > 0 { lines@.len() - 1 } else { 0 }) as usize, 0usize),
        },
        lines@.len() > 0 ==> res.0 < lines@.len(),
        locate(line_counts(str_views(lines@)), index as int, 0) matches Some((l, c)) ==> 0 <= l < lines@.len() && 0
            <= c <= index,
{
    match locate_in_lines(lines, index) {
        Some(p) => p,
        None => {
            let last = if lines.len() > 0 { lines.len() - 1 } else { 0 };
            (last, 0)
        },
    }
}

/// The (line, column) at which the caret with grapheme index `index` is
/// drawn in `text`; an index past the end of the text is drawn at the start
/// of the first line.
pub fn caret_line_col(text: &str, index: usize) -> (res: (usize, usize))
    ensures
        res == match locate(line_counts(split_newlines(text@)), index as int, 0) {
            Some((l, c)) => (l as usize, c as usize),
            None => (0usize, 0usize),
        },
{
    let lines = split_lines(text);
    match locate_in_lines(lines.as_slice(), index) {
        Some(p) => p,
        None => (0, 0),
    }
}

/// The caret index under the pointer when it is over line `line`, column
/// `col` of `text`: the start of that line plus the column, clamped to the
/// line's length; below the last line, the end of the text.
pub fn line_col_to_index(text: &str, line: usize, col: usize) -> (res: usize)
    ensures
        ({
            let counts = line_counts(split_newlines(text@));
            res == if line < counts.len() {
                line_start(counts, line as int) + if col <= counts[line as int] { col as int } else { counts[line as int] }
            } else {
                grapheme_count_of(text@) as int
            }
        }),
{
    let total_chars = text.unicode_len();
    let lines = split_lines(text);
    let ghost views = split_newlines(text@);
    let ghost counts = line_counts(views);
    proof {
        lemma_split_lengths(text@);
    }
    let mut index: usize = 0;
    let mut i: usize = 0;
    while i < lines.len()
        invariant
            i <= lines@.len(),
            views == str_views(lines@),
            views == split_newlines(text@),
            counts == line_counts(views),
            counts.len() == lines@.len(),
            views.len() == lines@.len(),
            views.len() >= 1,
            chars_before(views, views.len() - 1) + views.last().len() == text@.len(),
            total_chars == text@.len(),
            i < lines@.len() ==> index == line_start(counts, i as int),
            i < lines@.len() ==> index <= chars_before(views, i as int),
            i <= line,
        decreases lines@.len() - i,
    {
        let count = grapheme_count(lines[i]);
        assert(counts[i as int] == count);
        assert(views[i as int] == lines@[i as int]@);
        if i == line {
            let clamped = if col <= count { col } else { count };
            proof {
                lemma_chars_before_bound(views, i as int);
            }
            return index + clamped;
        }
        if i + 1 < lines.len() {
            proof {
                lemma_chars_before_monotone(views, i as int + 1, views.len() - 1);
            }
            index = index + count + 1;
        }
        i = i + 1;
    }
    grapheme_count(text)
}

/// Characters before line `i`: the lengths of the earlier lines plus one line
/// break after each.
pub open spec fn chars_before(lines: Seq<Seq<char>>, i: int) -> int
    decreases i,
{
    if i <= 0 {
        0
    } else {
        chars_before(lines, i - 1) + lines[i - 1].len() + 1
    }
}

proof fn lemma_chars_before_prefix(a: Seq<Seq<char>>, b: Seq<Seq<char>>, k: int)
    requires
        0 <= k <= a.len(),
        k <= b.len(),
        forall|j: int| 0 <= j < k ==> a[j] == b[j],
    ensures
        chars_before(a, k) == chars_before(b, k),
    decreases k,
{
    if k > 0 {
        lemma_chars_before_prefix(a, b, k - 1);
    }
}

proof fn lemma_chars_before_monotone(lines: Seq<Seq<char>>, a: int, b: int)
    requires
        0 <= a <= b,
    ensures
        chars_before(lines, a) <= chars_before(lines, b),
    decreases b - a,
{
    if a < b {
        lemma_chars_before_monotone(lines, a, b - 1);
    }
}

/// Line `i` ends within the text.
proof fn lemma_chars_before_bound(lines: Seq<Seq<char>>, i: int)
    requires
        0 <= i < lines.len(),
    ensures
        chars_before(lines, i) + lines[i].len() <= chars_before(lines, lines.len() - 1) + lines.last().len(),
{
    if i < lines.len() - 1 {
        lemma_chars_before_monotone(lines, i + 1, lines.len() - 1);
    }
}

/// The lines of a text, with a break after each but the last, add up to the
/// text's length.
pub proof fn lemma_split_lengths(t: Seq<char>)
    ensures
        split_newlines(t).len() >= 1,
        chars_before(split_newlines(t), split_newlines(t).len() - 1) + split_newlines(t).last().len() == t.len(),
    decreases t.len(),
{
    if t.len() > 0 {
        let rest = split_newlines(t.drop_last());
        lemma_split_lengths(t.drop_last());
        let lines = split_newlines(t);
        let n = rest.len() as int;
        lemma_chars_before_prefix(lines, rest, n - 1);
    }
}

/// Line starts grow with the line number.
proof fn lemma_line_start_monotone(counts: Seq<int>, a: int, b: int)
    requires
        0 <= a <= b <= counts.len(),
        forall|i: int| 0 <= i < counts.len() ==> counts[i] >= 0,
    ensures
        line_start(counts, a) <= line_start(counts, b),
    decreases b - a,
{
    if a < b {
        lemma_line_start_monotone(counts, a, b - 1);
    }
}

/// The columns of line `line` that a selection from (`sl`, `sc`) to
/// (`el`, `ec`) covers, on a line of `len` graphemes.
pub open spec fn span_cols(line: int, sl: int, sc: int, el: int, ec: int, len: int) -> (int, int) {
    if line == sl && line == el {
        (sc, ec)
    } else if line == sl {
        (sc, len)
    } else if line == el {
        (0, ec)
    } else {
        (0, len)
    }
}

/// The (line, first column, end column) spans of a selection on lines
/// `from..=el`, skipping lines whose span is empty.  Lines past the text
/// count as empty.
pub open spec fn spans_between(counts: Seq<int>, sl: int, sc: int, el: int, ec: int, from: int) -> Seq<(int, int, int)>
    decreases el + 1 - from,
{
    if from > el {
        Seq::empty()
    } else {
        let len = if 0 <= from < counts.len() { counts[from] } else { 0 };
        let cols = span_cols(from, sl, sc, el, ec, len);
        let rest = spans_between(counts, sl, sc, el, ec, from + 1);
        if cols.0 == cols.1 { rest } else { seq![(from, cols.0, cols.1)] + rest }
    }
}

/// The selection spans of the selection `start..end` (grapheme indices, start
/// first) of `text`, as `spans_between` lists them for the (line, column)
/// positions `index_to_line_col` gives its two ends.
pub open spec fn spec_selection_spans(text: Seq<char>, start: int, end: int) -> Seq<(int, int, int)> {
    let lines = split_newlines(text);
    let counts = line_counts(lines);
    let last = if lines.len() > 0 { lines.len() - 1 } else { 0 };
    let s = match locate(counts, start, 0) {
        Some(p) => p,
        None => (last as int, 0int),
    };
    let e = match locate(counts, end, 0) {
        Some(p) => p,
        None => (last as int, 0int),
    };
    spans_between(counts, s.0, s.1, e.0, e.1, s.0)
}

/// The view of a list of spans.
pub open spec fn spans_view(spans: Seq<(usize, usize, usize)>) -> Seq<(int, int, int)> {
    spans.map_values(|t: (usize, usize, usize)| (t.0 as int, t.1 as int, t.2 as int))
}

/// Which columns of which lines the selection `start..end` of `text` covers,
/// line by line from the selection's first line to its last: a
/// `(line, first column, end column)` triple per line whose span is not
/// empty.  The renderer turns each triple into a highlight rectangle.
pub fn selection_spans(text: &str, start: usize, end: usize) -> (res: Vec<(usize, usize, usize)>)
    ensures
        spans_view(res@) == spec_selection_spans(text@, start as int, end as int),
{
    let lines = split_lines(text);
    let (start_line, start_col) = index_to_line_col(lines.as_slice(), start);
    let (end_line, end_col) = index_to_line_col(lines.as_slice(), end);
    let ghost counts = line_counts(split_newlines(text@));
    let line_total = lines.len();
    proof {
        lemma_split_lengths(text@);
        assert(line_total == lines@.len());
        let last = split_newlines(text@).len() - 1;
        assert(str_views(lines@).len() == lines@.len());
        assert(counts == line_counts(str_views(lines@)));
        assert(lines@.len() == split_newlines(text@).len());
        match locate(counts, start as int, 0) {
            Some(p) => {
                assert(start_line as int == p.0 && start_col as int == p.1);
            },
            None => {
                assert(start_line as int == last && start_col == 0);
            },
        }
        match locate(counts, end as int, 0) {
            Some(p) => {
                assert(end_line as int == p.0 && end_col as int == p.1);
            },
            None => {
                assert(end_line as int == last && end_col == 0);
            },
        }
        assert((start_line as int, start_col as int) == match locate(counts, start as int, 0) {
            Some(p) => p,
            None => (last as int, 0int),
        });
        assert((end_line as int, end_col as int) == match locate(counts, end as int, 0) {
            Some(p) => p,
            None => (last as int, 0int),
        });
    }
    let ghost sl = start_line as int;
    let ghost sc = start_col as int;
    let ghost el = end_line as int;
    let ghost ec = end_col as int;
    let mut out: Vec<(usize, usize, usize)> = Vec::new();
    let mut line = start_line;
    proof {
        assert(spans_view(out@) =~= Seq::empty());
    }
    while line <= end_line
        invariant
            sl == start_line,
            sc == start_col,
            el == end_line,
            ec == end_col,
            counts == line_counts(str_views(lines@)),
            counts.len() == lines@.len(),
            end_line < lines@.len(),
            start_line <= line,
            line == start_line || line <= end_line + 1,
            spans_between(counts, sl, sc, el, ec, sl) == spans_view(out@) + spans_between(
                counts,
                sl,
                sc,
                el,
                ec,
                line as int,
            ),
        decreases end_line + 1 - line,
    {
        let line_len = if line < lines.len() { grapheme_count(lines[line]) } else { 0 };
        let (col_start, col_end) = if line == start_line && line == end_line {
            (start_col, end_col)
        } else if line == start_line {
            (start_col, line_len)
        } else if line == end_line {
            (0, end_col)
        } else {
            (0, line_len)
        };
        let ghost prev = out@;
        if col_start != col_end {
            out.push((line, col_start, col_end));
            proof {
                assert(spans_view(out@) =~= spans_view(prev) + seq![(line as int, col_start as int, col_end as int)]);
            }
        }
        proof {
            let rest = spans_between(counts, sl, sc, el, ec, line + 1);
            assert(spans_view(prev) + (seq![(line as int, col_start as int, col_end as int)] + rest) =~= spans_view(prev)
                + seq![(line as int, col_start as int, col_end as int)] + rest);
        }
        line = line + 1;
    }
    proof {
        assert(spans_view(out@) + spans_between(counts, sl, sc, el, ec, line as int) =~= spans_view(out@));
    }
    out
}

// ---------------------------------------------------------------------------
// Laws
// ---------------------------------------------------------------------------

/// All counts are non-negative.
pub open spec fn counts_nonneg(counts: Seq<int>) -> bool {
    forall|i: int| 0 <= i < counts.len() ==> counts[i] >= 0
}

proof fn lemma_locate_from(counts: Seq<int>, r: int, i: int)
    requires
        counts_nonneg(counts),
        0 <= i,
        0 <= r,
    ensures
        locate(counts, r, i) matches Some((l, c)) ==> i <= l < counts.len() && 0 <= c <= counts[l]
            && line_start(counts, l) + c == line_start(counts, i) + r,
    decreases counts.len() - i,
{
    if i < counts.len() && r > counts[i] {
        lemma_locate_from(counts, r - counts[i] - 1, i + 1);
    }
}

proof fn lemma_locate_to(counts: Seq<int>, l: int, c: int, i: int)
    requires
        counts_nonneg(counts),
        0 <= i <= l < counts.len(),
        0 <= c <= counts[l],
    ensures
        locate(counts, line_start(counts, l) + c - line_start(counts, i), i) == Some((l, c)),
    decreases l - i,
{
    if i < l {
        lemma_line_start_monotone(counts, i + 1, l);
        lemma_locate_to(counts, l, c, i + 1);
    }
}

/// Caret indices inside the text and (line, column) pairs inside its lines
/// correspond one to one: the line and column `caret_line_col` finds for an
/// index lie inside the text and `line_col_to_index` maps them back to the
/// same index; conversely every (line, column) pair inside the text is where
/// `caret_line_col` puts the index that `line_col_to_index` gives it.
pub proof fn lemma_caret_position_round_trip(text: Seq<char>, index: int, l: int, c: int)
    requires
        0 <= index,
    ensures
        ({
            let counts = line_counts(split_newlines(text));
            &&& locate(counts, index, 0) matches Some((l1, c1)) ==> 0 <= l1 < counts.len() && 0 <= c1 <= counts[l1]
                && line_start(counts, l1) + c1 == index
            &&& 0 <= l < counts.len() && 0 <= c <= counts[l] ==> locate(counts, line_start(counts, l) + c, 0) == Some(
                (l, c),
            )
        }),
{
    let counts = line_counts(split_newlines(text));
    assert(counts_nonneg(counts));
    lemma_locate_from(counts, index, 0);
    if 0 <= l < counts.len() && 0 <= c <= counts[l] {
        lemma_locate_to(counts, l, c, 0);
    }
}

} // verus!

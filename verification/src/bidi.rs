//! Bidirectional text support.
//!
//! Runs the Unicode BiDi algorithm on text and returns each of its paragraphs
//! in visual order, tagged with its resolved embedding level, plus a quick
//! check that tells whether a string holds right-to-left characters.
use vstd::prelude::*;

verus! {

/// A contiguous run of text with a resolved BiDi level.
#[derive(Clone, Debug)]
pub struct BidiRun {
    /// The substring of the source paragraph for this run.
    pub text: String,
    /// True if this run should be rendered right-to-left.
    pub is_rtl: bool,
    /// The resolved BiDi embedding level (even = LTR, odd = RTL).
    pub level: u8,
}

/// `c` lies in the Hebrew, Arabic, Syriac, Thaana, NKo, Samaritan, Mandaic or
/// Arabic Extended blocks (U+0590..=U+08FF), or in the Hebrew/Arabic
/// presentation forms (U+FB1D..=U+FDFF, U+FE70..=U+FEFF).
pub open spec fn is_rtl_char(c: char) -> bool {
    let u = c as u32;
    (0x0590 <= u && u <= 0x08FF) || (0xFB1D <= u && u <= 0xFDFF) || (0xFE70 <= u && u <= 0xFEFF)
}

/// The number of the Unicode `Bidi_Class` of `c`, as unicode-bidi's table
/// gives it (`unicode_bidi::bidi_class`), with the classes numbered in the
/// order `unicode_bidi::BidiClass` declares them: `AL` is 0, `AN` 1, `B` 2,
/// `BN` 3, `CS` 4, `EN` 5, `ES` 6, `ET` 7, `FSI` 8, `L` 9, `LRE` 10, `LRI` 11,
/// `LRO` 12, `NSM` 13, `ON` 14, `PDF` 15, `PDI` 16, `R` 17, `RLE` 18,
/// `RLI` 19, `RLO` 20, `S` 21, `WS` 22.
pub uninterp spec fn bidi_class_number(c: char) -> u8;

/// Looks up the `Bidi_Class` of `c` with `unicode_bidi::bidi_class` and
/// returns its number (the enum's declaration order, through `as u8`).  The
/// contract claims only that the result is `bidi_class_number(c)`.
#[verifier::external_body]
fn bidi_class_of(c: char) -> (res: u8)
    ensures
        res == bidi_class_number(c),
{
    unicode_bidi::bidi_class(c) as u8
}

/// The class numbered `class` is strongly right-to-left: `AL` (0) or `R` (17).
pub open spec fn is_strong_rtl_class(class: u8) -> bool {
    class == 0 || class == 17
}

/// `c` is taken as right-to-left: it lies in one of the blocks of
/// `is_rtl_char`, or its `Bidi_Class` is `R` or `AL`.
pub open spec fn counts_as_rtl(c: char) -> bool {
    is_rtl_char(c) || is_strong_rtl_class(bidi_class_number(c))
}

/// Some character of `s` is taken as right-to-left.
pub open spec fn spec_has_rtl(s: Seq<char>) -> bool {
    exists|i: int| 0 <= i < s.len() && #[trigger] counts_as_rtl(s[i])
}

/// Returns `true` if `text` contains any strongly right-to-left characters
/// (`Bidi_Class` `R` or `AL`).  Characters of the Hebrew, Arabic and related
/// blocks that `is_rtl_char` lists are taken as right-to-left without a
/// lookup (so Arabic digits and marks there count too); any other character
/// is looked up in unicode-bidi's class table.  This is a quick check to
/// decide whether to run the full BiDi algorithm.
pub fn has_rtl(text: &str) -> (res: bool)
    ensures
        res == spec_has_rtl(text@),
{
    for ch in it: text.chars()
        invariant
            it.seq() == text@,
            forall|j: int| 0 <= j < it.index() ==> !counts_as_rtl(#[trigger] text@[j]),
    {
        let u = ch as u32;
        if (0x0590 <= u && u <= 0x08FF) || (0xFB1D <= u && u <= 0xFDFF) || (0xFE70 <= u && u <= 0xFEFF) {
            assert(counts_as_rtl(text@[it.index()]));
            return true;
        }
        let class = bidi_class_of(ch);
        if class == 0 || class == 17 {
            assert(counts_as_rtl(text@[it.index()]));
            return true;
        }
    }
    false
}

/// What the Unicode BiDi algorithm (`unicode_bidi::BidiInfo::new` with no
/// default paragraph level) makes of `text`: for each paragraph it finds, in
/// order, the paragraph's text, its line in visual order and its embedding
/// level; and whether it resolved any character to a right-to-left level.
pub uninterp spec fn bidi_paragraphs(text: Seq<char>) -> (Seq<(Seq<char>, Seq<char>, u8)>, bool);

/// A paragraph as (text, visual-order text, level).
pub open spec fn paragraph_view(p: (String, String, u8)) -> (Seq<char>, Seq<char>, u8) {
    (p.0@, p.1@, p.2)
}

/// The paragraphs' own texts, one after another.
pub open spec fn logical_text(paras: Seq<(Seq<char>, Seq<char>, u8)>) -> Seq<char>
    decreases paras.len(),
{
    if paras.len() == 0 {
        Seq::empty()
    } else {
        logical_text(paras.drop_last()) + paras.last().0
    }
}

/// Every paragraph's visual-order text is its own text.
pub open spec fn keeps_logical_order(paras: Seq<(Seq<char>, Seq<char>, u8)>) -> bool {
    forall|i: int| 0 <= i < paras.len() ==> (#[trigger] paras[i]).1 == paras[i].0
}

/// Runs `unicode_bidi::BidiInfo::new(text, None)` and, for each of its
/// paragraphs, returns the paragraph's slice of `text`, the paragraph's whole
/// range reordered with `BidiInfo::reorder_line`, and `Level::number()` of its
/// level; beside them, `BidiInfo::has_rtl()`.
///
/// Claimed, besides naming the result `bidi_paragraphs(text)`: the paragraphs
/// cut `text` into consecutive pieces (`compute_initial_info` closes one after
/// each paragraph separator and one at the end of the text), and when no
/// level is right-to-left, `reorder_line` hands back each paragraph's slice
/// unchanged.
#[verifier::external_body]
fn bidi_paragraph_lines(text: &str) -> (res: (Vec<(String, String, u8)>, bool))
    ensures
        (res.0@.map_values(|p: (String, String, u8)| paragraph_view(p)), res.1) == bidi_paragraphs(text@),
        logical_text(res.0@.map_values(|p: (String, String, u8)| paragraph_view(p))) == text@,
        !res.1 ==> keeps_logical_order(res.0@.map_values(|p: (String, String, u8)| paragraph_view(p))),
{
    let info = unicode_bidi::BidiInfo::new(text, None);
    let paras = info.paragraphs.iter().map(|para| (
        text[para.range.clone()].to_string(),
        info.reorder_line(para, para.range.clone()).into_owned(),
        para.level.number(),
    )).collect();
    (paras, info.has_rtl())
}

/// The run a paragraph becomes: its visual-order text, right-to-left exactly
/// when its level is odd.
pub open spec fn paragraph_run(p: (Seq<char>, Seq<char>, u8)) -> (Seq<char>, bool, u8) {
    (p.1, p.2 % 2 == 1, p.2)
}

/// The runs that a text resolves to, given the paragraphs the BiDi algorithm
/// found in it: nothing for empty text; the text itself, left-to-right at
/// level 0, when no paragraph was found; otherwise one run per paragraph, in
/// order.
pub open spec fn spec_runs(text: Seq<char>, paras: Seq<(Seq<char>, Seq<char>, u8)>) -> Seq<(Seq<char>, bool, u8)> {
    if text.len() == 0 {
        Seq::empty()
    } else if paras.len() == 0 {
        seq![(text, false, 0u8)]
    } else {
        paras.map_values(|p: (Seq<char>, Seq<char>, u8)| paragraph_run(p))
    }
}

/// The runs' texts, one after another.
pub open spec fn run_texts(runs: Seq<(Seq<char>, bool, u8)>) -> Seq<char>
    decreases runs.len(),
{
    if runs.len() == 0 {
        Seq::empty()
    } else {
        run_texts(runs.drop_last()) + runs.last().0
    }
}

/// The view of a run as (text, is_rtl, level).
pub open spec fn run_view(run: BidiRun) -> (Seq<char>, bool, u8) {
    (run.text@, run.is_rtl, run.level)
}

/// When every paragraph keeps its logical order, the runs built from the
/// paragraphs spell out the paragraphs' texts.
pub proof fn lemma_runs_spell_paragraphs(paras: Seq<(Seq<char>, Seq<char>, u8)>)
    requires
        keeps_logical_order(paras),
    ensures
        run_texts(paras.map_values(|p: (Seq<char>, Seq<char>, u8)| paragraph_run(p))) == logical_text(paras),
    decreases paras.len(),
{
    if paras.len() > 0 {
        let rest = paras.drop_last();
        assert(keeps_logical_order(rest)) by {
            assert forall|i: int| 0 <= i < rest.len() implies (#[trigger] rest[i]).1 == rest[i].0 by {
                assert(rest[i] == paras[i]);
            }
        }
        lemma_runs_spell_paragraphs(rest);
        let runs = paras.map_values(|p: (Seq<char>, Seq<char>, u8)| paragraph_run(p));
        assert(runs.drop_last() =~= rest.map_values(|p: (Seq<char>, Seq<char>, u8)| paragraph_run(p)));
        assert(paras[paras.len() - 1].1 == paras[paras.len() - 1].0);
    }
}

/// Builds the visual-order runs of `text` from the paragraphs that the BiDi
/// algorithm found in it.  When the paragraphs cut `text` into consecutive
/// pieces and each keeps its logical order, the runs spell out `text`.
pub fn runs_from_paragraphs(text: &str, paras: Vec<(String, String, u8)>) -> (res: Vec<BidiRun>)
    ensures
        res@.map_values(|r: BidiRun| run_view(r)) == spec_runs(
            text@,
            paras@.map_values(|p: (String, String, u8)| paragraph_view(p)),
        ),
        ({
            let pv = paras@.map_values(|p: (String, String, u8)| paragraph_view(p));
            logical_text(pv) == text@ && keeps_logical_order(pv)
        }) ==> run_texts(res@.map_values(|r: BidiRun| run_view(r))) == text@,
{
    let ghost pv = paras@.map_values(|p: (String, String, u8)| paragraph_view(p));
    let mut res: Vec<BidiRun> = Vec::new();
    if text.is_empty() {
        assert(res@.map_values(|r: BidiRun| run_view(r)) =~= Seq::empty());
        return res;
    }
    if paras.len() == 0 {
        res.push(BidiRun { text: text.to_owned(), is_rtl: false, level: 0 });
        proof {
            let rv = res@.map_values(|r: BidiRun| run_view(r));
            assert(rv =~= seq![(text@, false, 0u8)]);
            assert(rv.drop_last() =~= Seq::<(Seq<char>, bool, u8)>::empty());
            assert(run_texts(rv.drop_last()) =~= Seq::<char>::empty());
            assert(run_texts(rv) =~= text@);
        }
        return res;
    }
    let mut i: usize = 0;
    while i < paras.len()
        invariant
            i <= paras.len(),
            pv == paras@.map_values(|p: (String, String, u8)| paragraph_view(p)),
            res@.map_values(|r: BidiRun| run_view(r)) =~= pv.subrange(0, i as int).map_values(
                |p: (Seq<char>, Seq<char>, u8)| paragraph_run(p),
            ),
        decreases paras.len() - i,
    {
        let level = paras[i].2;
        let run = BidiRun { text: paras[i].1.clone(), is_rtl: level % 2 == 1, level };
        let ghost before = res@;
        res.push(run);
        proof {
            assert(pv[i as int] == paragraph_view(paras@[i as int]));
            assert(run_view(run) == paragraph_run(pv[i as int]));
            assert(res@ == before.push(run));
            assert(res@.map_values(|r: BidiRun| run_view(r)) =~= before.map_values(|r: BidiRun| run_view(r)).push(
                run_view(run),
            ));
            assert(pv.subrange(0, i + 1) =~= pv.subrange(0, i as int).push(pv[i as int]));
            assert(pv.subrange(0, i + 1).map_values(|p: (Seq<char>, Seq<char>, u8)| paragraph_run(p))
                =~= pv.subrange(0, i as int).map_values(|p: (Seq<char>, Seq<char>, u8)| paragraph_run(p)).push(
                paragraph_run(pv[i as int]),
            ));
        }
        i = i + 1;
    }
    proof {
        assert(pv.subrange(0, i as int) =~= pv);
        if logical_text(pv) == text@ && keeps_logical_order(pv) {
            lemma_runs_spell_paragraphs(pv);
        }
    }
    res
}

/// Resolve the visual order of `paragraph` using the Unicode BiDi algorithm.
///
/// Returns the runs in *visual* (left-to-right display) order: one run per
/// paragraph that the algorithm finds, in order, holding that paragraph
/// reordered for display and tagged right-to-left exactly when the
/// paragraph's level is odd.  When the algorithm resolves no character to a
/// right-to-left level, the runs spell out `paragraph` in its logical order.
pub fn reorder_paragraph(paragraph: &str) -> (res: Vec<BidiRun>)
    ensures
        res@.map_values(|r: BidiRun| run_view(r)) == spec_runs(paragraph@, bidi_paragraphs(paragraph@).0),
        !bidi_paragraphs(paragraph@).1 ==> run_texts(res@.map_values(|r: BidiRun| run_view(r))) == paragraph@,
        paragraph@.len() == 0 <==> res@.len() == 0,
{
    if paragraph.is_empty() {
        let res: Vec<BidiRun> = Vec::new();
        assert(res@.map_values(|r: BidiRun| run_view(r)) =~= Seq::empty());
        return res;
    }
    let (paras, _) = bidi_paragraph_lines(paragraph);
    let res = runs_from_paragraphs(paragraph, paras);
    proof {
        assert(res@.map_values(|r: BidiRun| run_view(r)).len() == res@.len());
    }
    res
}

} // verus!

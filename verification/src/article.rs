//! Laying out a Wikipedia article for the detail pane: section headings
//! picked out by level, the reference sections at the end dropped, and a
//! blank line between paragraphs.

use vstd::prelude::*;
use vstd::string::StringSliceAdditionalSpecFns;
use vstd::utf8::encode_utf8;

use crate::text::{
    chars_of, contains_chars, lowercase, same_chars, string_of, strip_chars, stripped, to_lowercase,
    trimmed, Strip,
};

verus! {

broadcast use vstd::string::group_string_axioms;

/// One line of a laid-out article.
#[derive(Clone, Debug, PartialEq, Eq)]
pub enum Line {
    /// A section heading, with its level (the number of `=` that open it).
    Heading(usize, String),
    /// A line of text, shown as it is.
    Text(String),
}

/// A laid-out line, as the contracts speak of it.
pub enum LineView {
    Heading(int, Seq<char>),
    Text(Seq<char>),
}

impl vstd::view::View for Line {
    type V = LineView;

    open spec fn view(&self) -> LineView {
        match self {
            Line::Heading(level, title) => LineView::Heading(*level as int, title@),
            Line::Text(t) => LineView::Text(t@),
        }
    }
}

pub open spec fn lines_view(v: Seq<Line>) -> Seq<LineView> {
    v.map_values(|l: Line| l@)
}

// ───────────────────────────── lines ─────────────────────────────

pub open spec fn strip_cr(l: Seq<char>) -> Seq<char> {
    if l.len() > 0 && l.last() == '\r' {
        l.drop_last()
    } else {
        l
    }
}

/// Splitting text at newlines: the lines finished so far and the one
/// being read.
pub open spec fn split_run(s: Seq<char>) -> (Seq<Seq<char>>, Seq<char>)
    decreases s.len(),
{
    if s.len() == 0 {
        (Seq::empty(), Seq::empty())
    } else {
        let st = split_run(s.drop_last());
        if s.last() == '\n' {
            (st.0.push(strip_cr(st.1)), Seq::empty())
        } else {
            (st.0, st.1.push(s.last()))
        }
    }
}

/// The lines of a text, as `str::lines` gives them: split at `\n` (a `\r`
/// before it is dropped too), with no empty line after a final newline.
pub open spec fn text_lines(s: Seq<char>) -> Seq<Seq<char>> {
    let st = split_run(s);
    if st.1.len() > 0 {
        st.0.push(st.1)
    } else {
        st.0
    }
}

// ─────────────────────────── the layout ───────────────────────────

/// A heading line, once trimmed: more than four bytes long (as `str::len`
/// counts them), opening and closing with `==`.
pub open spec fn is_heading(t: Seq<char>) -> bool {
    &&& (encode_utf8(t).len() as usize) > 4
    &&& t.len() >= 2
    &&& t[0] == '=' && t[1] == '='
    &&& t[t.len() - 2] == '=' && t[t.len() - 1] == '='
}

/// How many `=` open a text.
pub open spec fn leading_rules(t: Seq<char>) -> int
    decreases t.len(),
{
    if t.len() > 0 && t[0] == '=' {
        1 + leading_rules(t.drop_first())
    } else {
        0
    }
}

/// The sections at the end of an article that the pane leaves out.
pub open spec fn is_tail_section(title: Seq<char>) -> bool {
    let l = lowercase(title);
    ||| l == "see also"@
    ||| l == "references"@
    ||| l == "notes"@
    ||| l == "citations"@
    ||| l == "sources"@
    ||| l == "further reading"@
    ||| l == "external links"@
    ||| l == "bibliography"@
    ||| l == "explanatory notes"@
}

/// A paragraph break goes in before a text line that follows a nonblank
/// text line (one without escape codes).
pub open spec fn follows_text(out: Seq<LineView>) -> bool {
    out.len() > 0 && match out.last() {
        LineView::Text(l) => trimmed(l).len() > 0 && !l.contains('\u{1b}'),
        LineView::Heading(_, _) => false,
    }
}

/// Taking in one more line: the laid-out lines so far, and whether a tail
/// section has been reached.
pub open spec fn gather_step(st: (Seq<LineView>, bool), line: Seq<char>) -> (Seq<LineView>, bool) {
    if st.1 {
        st
    } else {
        let t = trimmed(line);
        if is_heading(t) {
            let title = stripped(t, Strip::Rules);
            if is_tail_section(title) {
                (st.0, true)
            } else {
                (st.0.push(LineView::Heading(leading_rules(t), title)), false)
            }
        } else {
            let out = if t.len() > 0 && follows_text(st.0) {
                st.0.push(LineView::Text(Seq::empty()))
            } else {
                st.0
            };
            (out.push(LineView::Text(line)), false)
        }
    }
}

pub open spec fn gather(lines: Seq<Seq<char>>) -> (Seq<LineView>, bool)
    decreases lines.len(),
{
    if lines.len() == 0 {
        (Seq::empty(), false)
    } else {
        gather_step(gather(lines.drop_last()), lines.last())
    }
}

pub open spec fn is_blank(l: LineView) -> bool {
    match l {
        LineView::Text(t) => trimmed(t).len() == 0,
        LineView::Heading(_, _) => false,
    }
}

/// Dropping every blank line that follows a blank line: the lines kept so
/// far, and whether the last one kept is blank.
pub open spec fn collapse(ls: Seq<LineView>) -> (Seq<LineView>, bool)
    decreases ls.len(),
{
    if ls.len() == 0 {
        (Seq::empty(), false)
    } else {
        let st = collapse(ls.drop_last());
        let l = ls.last();
        if is_blank(l) && st.1 {
            st
        } else {
            (st.0.push(l), is_blank(l))
        }
    }
}

/// The article as the pane lays it out.
pub open spec fn layout_of(article: Seq<char>) -> Seq<LineView> {
    collapse(gather(text_lines(article)).0).0
}

/// Splits a text into lines, as `str::lines` does.
pub fn text_lines_exec(s: &[char]) -> (lines: Vec<Vec<char>>)
    ensures
        lines@.map_values(|l: Vec<char>| l@) == text_lines(s@),
{
    let mut done: Vec<Vec<char>> = Vec::new();
    let mut cur: Vec<char> = Vec::new();
    let n = s.len();
    let mut i: usize = 0;
    while i < n
        invariant
            i <= n,
            n == s@.len(),
            split_run(s@.take(i as int)) == (done@.map_values(|l: Vec<char>| l@), cur@),
        decreases n - i,
    {
        let c = s[i];
        assert(s@.take(i + 1).drop_last() =~= s@.take(i as int));
        assert(s@.take(i + 1).last() == c);
        if c == '\n' {
            let ghost before = done@.map_values(|l: Vec<char>| l@);
            let ghost cv = cur@;
            let l = cur.len();
            let line = if l > 0 && cur[l - 1] == '\r' {
                let mut t = cur.clone();
                t.pop();
                t
            } else {
                cur.clone()
            };
            assert(line@ == strip_cr(cv));
            done.push(line);
            assert(done@.map_values(|l: Vec<char>| l@) =~= before.push(strip_cr(cv)));
            cur = Vec::new();
        } else {
            cur.push(c);
        }
        i = i + 1;
    }
    assert(s@.take(n as int) =~= s@);
    if cur.len() > 0 {
        let ghost before = done@.map_values(|l: Vec<char>| l@);
        let ghost cv = cur@;
        done.push(cur);
        assert(done@.map_values(|l: Vec<char>| l@) =~= before.push(cv));
    }
    done
}

fn is_tail_section_exec(title: &[char]) -> (b: bool)
    ensures
        b == is_tail_section(title@),
{
    let t = string_of(title);
    let l = to_lowercase(t.as_str());
    let lc = chars_of(l.as_str());
    let c = lc.as_slice();
    same_chars(c, chars_of("see also").as_slice()) || same_chars(c, chars_of("references").as_slice())
        || same_chars(c, chars_of("notes").as_slice()) || same_chars(c, chars_of("citations").as_slice())
        || same_chars(c, chars_of("sources").as_slice()) || same_chars(
        c,
        chars_of("further reading").as_slice(),
    ) || same_chars(c, chars_of("external links").as_slice()) || same_chars(
        c,
        chars_of("bibliography").as_slice(),
    ) || same_chars(c, chars_of("explanatory notes").as_slice())
}

fn leading_rules_exec(t: &[char]) -> (k: usize)
    ensures
        k as int == leading_rules(t@),
{
    let n = t.len();
    let mut k: usize = 0;
    assert(t@.skip(0) =~= t@);
    while k < n && t[k] == '='
        invariant
            k <= n,
            n == t@.len(),
            leading_rules(t@) == k + leading_rules(t@.skip(k as int)),
        decreases n - k,
    {
        assert(t@.skip(k as int).drop_first() =~= t@.skip(k + 1));
        k = k + 1;
    }
    k
}

/// Whether a paragraph break goes in before the next text line.
fn follows_text_exec(out: &Vec<Line>) -> (b: bool)
    ensures
        b == follows_text(lines_view(out@)),
{
    let n = out.len();
    if n == 0 {
        return false;
    }
    assert(lines_view(out@).last() == out@[n - 1]@);
    match &out[n - 1] {
        Line::Text(l) => {
            let lc = chars_of(l.as_str());
            let t = strip_chars(lc.as_slice(), Strip::Whitespace);
            let esc: Vec<char> = vec!['\u{1b}'];
            let has_esc = contains_chars(lc.as_slice(), esc.as_slice());
            proof {
                assert(esc@ == seq!['\u{1b}']);
                lemma_contains_one(lc@, '\u{1b}');
            }
            t.len() > 0 && !has_esc
        },
        Line::Heading(_, _) => false,
    }
}

proof fn lemma_contains_one(s: Seq<char>, c: char)
    ensures
        crate::text::contains_seq(s, seq![c]) == s.contains(c),
{
    if s.contains(c) {
        let i = choose|i: int| 0 <= i < s.len() && s[i] == c;
        assert(s.subrange(i, i + 1) =~= seq![c]);
        assert(crate::text::occurs_at(s, seq![c], i));
    }
    if crate::text::contains_seq(s, seq![c]) {
        let i = choose|i: int| crate::text::occurs_at(s, seq![c], i);
        assert(s.subrange(i, i + 1)[0] == s[i]);
    }
}

/// Lays out an article (already cleaned of markup debris) for the pane:
/// lines that read `== Title ==` become headings of their level, the
/// reference sections that close an article ("See also", "References",
/// "Notes" …) are dropped with everything after them, a blank line goes
/// in between paragraphs, and runs of blank lines shrink to one.
pub fn style_article(article: &str) -> (lines: Vec<Line>)
    ensures
        lines_view(lines@) == layout_of(article@),
{
    let chars = chars_of(article);
    let raw = text_lines_exec(chars.as_slice());
    let ghost lv = raw@.map_values(|l: Vec<char>| l@);
    assert(lv == text_lines(article@));
    let mut out: Vec<Line> = Vec::new();
    let n = raw.len();
    let mut i: usize = 0;
    assert(lv.take(n as int) =~= lv);
    assert(lv.take(0) =~= Seq::<Seq<char>>::empty());
    assert(lines_view(out@) =~= Seq::<LineView>::empty());
    while i < n
        invariant
            i <= n,
            n == raw@.len(),
            lv == raw@.map_values(|l: Vec<char>| l@),
            gather(lv.take(i as int)) == (lines_view(out@), false),
            gather(lv) == gather(lv.take(n as int)),
        ensures
            gather(lv) == (lines_view(out@), gather(lv).1),
        decreases n - i,
    {
        assert(lv.take(i + 1).drop_last() =~= lv.take(i as int));
        assert(lv.take(i + 1).last() == raw@[i as int]@);
        let line = &raw[i];
        let t = strip_chars(line.as_slice(), Strip::Whitespace);
        let tl = t.len();
        let ts = string_of(t.as_slice());
        let tstr = ts.as_str();
        let bytes = tstr.len();
        let heading = bytes > 4 && tl >= 2 && t[0] == '=' && t[1] == '=' && t[tl - 2] == '=' && t[tl
            - 1] == '=';
        let ghost before = lines_view(out@);
        assert(t@ == trimmed(lv[i as int]));
        assert(tstr@ == t@);
        assert(bytes == encode_utf8(t@).len() as usize);
        assert(heading == is_heading(t@));
        if heading {
            let title = strip_chars(t.as_slice(), Strip::Rules);
            if is_tail_section_exec(title.as_slice()) {
                proof {
                    lemma_gather_stopped(lv, i as int + 1);
                }
                break;
            }
            let level = leading_rules_exec(t.as_slice());
            out.push(Line::Heading(level, string_of(title.as_slice())));
            assert(lines_view(out@) =~= before.push(LineView::Heading(level as int, title@)));
        } else {
            let gap = tl > 0 && follows_text_exec(&out);
            if gap {
                out.push(Line::Text(String::new()));
            }
            let ghost mid = lines_view(out@);
            assert(mid =~= (if gap {
                before.push(LineView::Text(Seq::empty()))
            } else {
                before
            }));
            out.push(Line::Text(string_of(line.as_slice())));
            assert(lines_view(out@) =~= mid.push(LineView::Text(line@)));
        }
        i = i + 1;
    }
    assert(lv.take(n as int) =~= lv);
    let gathered = out;
    let mut kept: Vec<Line> = Vec::new();
    let mut blank = false;
    let ghost gv = lines_view(gathered@);
    let m = gathered.len();
    let mut j: usize = 0;
    let mut rest = gathered;
    let mut rev: Vec<Line> = Vec::new();
    // Take the lines in order: move them out of `rest` back to front first.
    while rest.len() > 0
        invariant
            rest@.len() + rev@.len() == m,
            forall|k: int| 0 <= k < rest@.len() ==> rest@[k]@ == gv[k],
            forall|k: int| 0 <= k < rev@.len() ==> (#[trigger] rev@[k])@ == gv[m - 1 - k],
            gv.len() == m,
        decreases rest@.len(),
    {
        let l = rest.pop().unwrap();
        rev.push(l);
    }
    while j < m
        invariant
            j <= m,
            gv.len() == m,
            rev@.len() == m - j,
            forall|k: int| 0 <= k < rev@.len() ==> (#[trigger] rev@[k])@ == gv[m - 1 - k],
            collapse(gv.take(j as int)) == (lines_view(kept@), blank),
        decreases m - j,
    {
        let l = rev.pop().unwrap();
        assert(l@ == gv[j as int]);
        assert(gv.take(j + 1).drop_last() =~= gv.take(j as int));
        assert(gv.take(j + 1).last() == gv[j as int]);
        let is_blank_line = match &l {
            Line::Text(t) => {
                let tc = chars_of(t.as_str());
                strip_chars(tc.as_slice(), Strip::Whitespace).len() == 0
            },
            Line::Heading(_, _) => false,
        };
        assert(is_blank_line == is_blank(l@));
        if !(is_blank_line && blank) {
            let ghost before = lines_view(kept@);
            kept.push(l);
            assert(lines_view(kept@) =~= before.push(gv[j as int]));
            blank = is_blank_line;
        }
        j = j + 1;
    }
    assert(gv.take(m as int) =~= gv);
    kept
}

/// Once a tail section is reached, the rest of the article is left out.
proof fn lemma_gather_stopped(lines: Seq<Seq<char>>, k: int)
    requires
        0 <= k <= lines.len(),
        gather(lines.take(k)).1,
    ensures
        gather(lines) == gather(lines.take(k)),
    decreases lines.len() - k,
{
    if k < lines.len() {
        assert(lines.take(k + 1).drop_last() =~= lines.take(k));
        lemma_gather_stopped(lines, k + 1);
    } else {
        assert(lines.take(k) =~= lines);
    }
}

proof fn lemma_collapse(ls: Seq<LineView>)
    ensures
        collapse(ls).1 == (collapse(ls).0.len() > 0 && is_blank(collapse(ls).0.last())),
        forall|i: int| 0 <= i < collapse(ls).0.len() - 1 ==> !(is_blank(#[trigger] collapse(ls).0[i]) && is_blank(collapse(ls).0[i + 1])),
        forall|i: int| 0 <= i < collapse(ls).0.len() ==> #[trigger] ls.contains(collapse(ls).0[i]),
    decreases ls.len(),
{
    if ls.len() > 0 {
        let init = ls.drop_last();
        lemma_collapse(init);
        let st = collapse(init);
        let l = ls.last();
        assert forall|i: int| 0 <= i < st.0.len() implies #[trigger] ls.contains(st.0[i]) by {
            assert(init.contains(st.0[i]));
            let k = choose|k: int| 0 <= k < init.len() && init[k] == st.0[i];
            assert(ls[k] == init[k]);
        }
        if !(is_blank(l) && st.1) {
            let out = st.0.push(l);
            assert(collapse(ls).0 == out);
            assert forall|i: int| 0 <= i < out.len() - 1 implies !(is_blank(#[trigger] out[i]) && is_blank(out[i + 1])) by {
                if i < st.0.len() - 1 {
                    assert(out[i] == st.0[i] && out[i + 1] == st.0[i + 1]);
                } else {
                    assert(out[i] == st.0.last());
                    assert(out[i + 1] == l);
                }
            }
            assert forall|i: int| 0 <= i < out.len() implies #[trigger] ls.contains(out[i]) by {
                if i < st.0.len() {
                    assert(out[i] == st.0[i]);
                } else {
                    assert(ls[ls.len() - 1] == l);
                }
            }
        }
    }
}

proof fn lemma_gather_headings(lines: Seq<Seq<char>>)
    ensures
        forall|i: int| 0 <= i < gather(lines).0.len() ==> match #[trigger] gather(lines).0[i] {
            LineView::Heading(_, t) => !is_tail_section(t),
            LineView::Text(_) => true,
        },
    decreases lines.len(),
{
    if lines.len() > 0 {
        lemma_gather_headings(lines.drop_last());
    }
}

/// The laid-out article never holds two blank lines in a row.
pub proof fn law_no_double_blank(article: Seq<char>)
    ensures
        forall|i: int| 0 <= i < layout_of(article).len() - 1 ==> !(is_blank(#[trigger] layout_of(article)[i]) && is_blank(
            layout_of(article)[i + 1],
        )),
{
    lemma_collapse(gather(text_lines(article)).0);
}

/// The reference sections are left out: no heading of the laid-out
/// article is "See also", "References" or another tail section.
pub proof fn law_no_tail_heading(article: Seq<char>)
    ensures
        forall|i: int| 0 <= i < layout_of(article).len() ==> match #[trigger] layout_of(article)[i] {
            LineView::Heading(_, t) => !is_tail_section(t),
            LineView::Text(_) => true,
        },
{
    let g = gather(text_lines(article)).0;
    lemma_collapse(g);
    lemma_gather_headings(text_lines(article));
    assert forall|i: int| 0 <= i < layout_of(article).len() implies match #[trigger] layout_of(article)[i] {
        LineView::Heading(_, t) => !is_tail_section(t),
        LineView::Text(_) => true,
    } by {
        assert(g.contains(layout_of(article)[i]));
        let k = choose|k: int| 0 <= k < g.len() && g[k] == layout_of(article)[i];
    }
}

/// The reference tail is cut off: no heading of the laid-out article is
/// titled, whatever its case, see also, references, notes, citations,
/// sources, further reading, external links, bibliography or explanatory
/// notes; and once a line of the article is such a heading, the layout is
/// that of the lines before it, so the section and all that follows it are
/// left out.
pub proof fn law_tail_sections_dropped(article: Seq<char>)
    ensures
        forall|i: int| 0 <= i < layout_of(article).len() ==> match #[trigger] layout_of(article)[i] {
            LineView::Heading(_, t) => lowercase(t) != "see also"@ && lowercase(t) != "references"@ && lowercase(t)
                != "notes"@ && lowercase(t) != "citations"@ && lowercase(t) != "sources"@ && lowercase(t)
                != "further reading"@ && lowercase(t) != "external links"@ && lowercase(t) != "bibliography"@
                && lowercase(t) != "explanatory notes"@,
            LineView::Text(_) => true,
        },
        forall|k: int|
            0 <= k < text_lines(article).len() && is_heading(trimmed(#[trigger] text_lines(article)[k])) && (
            lowercase(stripped(trimmed(text_lines(article)[k]), Strip::Rules)) == "see also"@ || lowercase(
                stripped(trimmed(text_lines(article)[k]), Strip::Rules),
            ) == "references"@ || lowercase(stripped(trimmed(text_lines(article)[k]), Strip::Rules)) == "notes"@
                || lowercase(stripped(trimmed(text_lines(article)[k]), Strip::Rules)) == "citations"@ || lowercase(
                stripped(trimmed(text_lines(article)[k]), Strip::Rules),
            ) == "sources"@ || lowercase(stripped(trimmed(text_lines(article)[k]), Strip::Rules))
                == "further reading"@ || lowercase(stripped(trimmed(text_lines(article)[k]), Strip::Rules))
                == "external links"@ || lowercase(stripped(trimmed(text_lines(article)[k]), Strip::Rules))
                == "bibliography"@ || lowercase(stripped(trimmed(text_lines(article)[k]), Strip::Rules))
                == "explanatory notes"@) ==> layout_of(article) == collapse(
                gather(text_lines(article).take(k)).0,
            ).0,
{
    law_no_tail_heading(article);
    let lines = text_lines(article);
    assert forall|k: int|
        0 <= k < lines.len() && is_heading(trimmed(#[trigger] lines[k])) && is_tail_section(
            stripped(trimmed(lines[k]), Strip::Rules),
        ) implies layout_of(article) == collapse(gather(lines.take(k)).0).0 by {
        assert(lines.take(k + 1).drop_last() =~= lines.take(k));
        assert(lines.take(k + 1).last() == lines[k]);
        assert(gather(lines.take(k + 1)).0 == gather(lines.take(k)).0);
        assert(gather(lines.take(k + 1)).1);
        lemma_gather_stopped(lines, k + 1);
    }
}

proof fn lemma_leading_rules(t: Seq<char>)
    ensures
        0 <= leading_rules(t) <= t.len(),
        forall|j: int| 0 <= j < leading_rules(t) ==> #[trigger] t[j] == '=',
        leading_rules(t) < t.len() ==> t[leading_rules(t)] != '=',
    decreases t.len(),
{
    if t.len() > 0 && t[0] == '=' {
        lemma_leading_rules(t.drop_first());
        assert forall|j: int| 0 <= j < leading_rules(t) implies #[trigger] t[j] == '=' by {
            if j > 0 {
                assert(t[j] == t.drop_first()[j - 1]);
            }
        }
        if leading_rules(t) < t.len() {
            assert(t[leading_rules(t)] == t.drop_first()[leading_rules(t) - 1]);
        }
    }
}

proof fn lemma_gather_sources(lines: Seq<Seq<char>>)
    ensures
        forall|i: int| 0 <= i < gather(lines).0.len() ==> match #[trigger] gather(lines).0[i] {
            LineView::Heading(l, title) => exists|k: int|
                0 <= k < lines.len() && is_heading(trimmed(#[trigger] lines[k])) && title == stripped(
                    trimmed(lines[k]),
                    Strip::Rules,
                ) && l == leading_rules(trimmed(lines[k])),
            LineView::Text(x) => x.len() == 0 || exists|k: int| 0 <= k < lines.len() && #[trigger] lines[k] == x,
        },
    decreases lines.len(),
{
    if lines.len() > 0 {
        let init = lines.drop_last();
        lemma_gather_sources(init);
        let g0 = gather(init).0;
        let g = gather(lines).0;
        let n = lines.len() - 1;
        assert(lines[n] == lines.last());
        assert forall|i: int| 0 <= i < g.len() implies match #[trigger] g[i] {
            LineView::Heading(l, title) => exists|k: int|
                0 <= k < lines.len() && is_heading(trimmed(#[trigger] lines[k])) && title == stripped(
                    trimmed(lines[k]),
                    Strip::Rules,
                ) && l == leading_rules(trimmed(lines[k])),
            LineView::Text(x) => x.len() == 0 || exists|k: int| 0 <= k < lines.len() && #[trigger] lines[k] == x,
        } by {
            if i < g0.len() {
                assert(g[i] == g0[i]);
                match g0[i] {
                    LineView::Heading(l, title) => {
                        let k = choose|k: int|
                            0 <= k < init.len() && is_heading(trimmed(#[trigger] init[k])) && title == stripped(
                                trimmed(init[k]),
                                Strip::Rules,
                            ) && l == leading_rules(trimmed(init[k]));
                        assert(lines[k] == init[k]);
                    },
                    LineView::Text(x) => {
                        if x.len() > 0 {
                            let k = choose|k: int| 0 <= k < init.len() && #[trigger] init[k] == x;
                            assert(lines[k] == init[k]);
                        }
                    },
                }
            }
        }
    }
}

/// Every heading of the laid-out article is a heading line of the article
/// (once trimmed, more than four bytes opening and closing with `==`): its
/// title is that line without the `=` and spaces around it, and its level
/// is the number of `=` the line opens with. Every text line of the
/// layout is a line of the article, or the empty line put between two
/// paragraphs.
pub proof fn law_layout_sources(article: Seq<char>)
    ensures
        forall|i: int| 0 <= i < layout_of(article).len() ==> match #[trigger] layout_of(article)[i] {
            LineView::Heading(l, title) => exists|k: int|
                0 <= k < text_lines(article).len() && is_heading(trimmed(#[trigger] text_lines(article)[k]))
                    && title == stripped(trimmed(text_lines(article)[k]), Strip::Rules) && 0 <= l <= trimmed(
                    text_lines(article)[k],
                ).len() && (forall|j: int| 0 <= j < l ==> trimmed(text_lines(article)[k])[j] == '=') && (l
                    < trimmed(text_lines(article)[k]).len() ==> trimmed(text_lines(article)[k])[l] != '='),
            LineView::Text(x) => x.len() == 0 || exists|k: int|
                0 <= k < text_lines(article).len() && #[trigger] text_lines(article)[k] == x,
        },
{
    let lines = text_lines(article);
    let g = gather(lines).0;
    lemma_gather_sources(lines);
    lemma_collapse(g);
    assert forall|i: int| 0 <= i < layout_of(article).len() implies match #[trigger] layout_of(article)[i] {
        LineView::Heading(l, title) => exists|k: int|
            0 <= k < lines.len() && is_heading(trimmed(#[trigger] lines[k])) && title == stripped(
                trimmed(lines[k]),
                Strip::Rules,
            ) && 0 <= l <= trimmed(lines[k]).len() && (forall|j: int| 0 <= j < l ==> trimmed(lines[k])[j] == '=')
                && (l < trimmed(lines[k]).len() ==> trimmed(lines[k])[l] != '='),
        LineView::Text(x) => x.len() == 0 || exists|k: int| 0 <= k < lines.len() && #[trigger] lines[k] == x,
    } by {
        assert(g.contains(layout_of(article)[i]));
        let m = choose|m: int| 0 <= m < g.len() && g[m] == layout_of(article)[i];
        match g[m] {
            LineView::Heading(l, title) => {
                let k = choose|k: int|
                    0 <= k < lines.len() && is_heading(trimmed(#[trigger] lines[k])) && title == stripped(
                        trimmed(lines[k]),
                        Strip::Rules,
                    ) && l == leading_rules(trimmed(lines[k]));
                lemma_leading_rules(trimmed(lines[k]));
            },
            LineView::Text(_) => {},
        }
    }
}

/// Two text lines that would run together: a line with text and no escape
/// code, then another line with text.
pub open spec fn run_together(a: LineView, b: LineView) -> bool {
    &&& a matches LineView::Text(x) && trimmed(x).len() > 0 && !x.contains('\u{1b}')
    &&& b matches LineView::Text(y) && trimmed(y).len() > 0
}

proof fn lemma_gather_paragraphs(lines: Seq<Seq<char>>)
    ensures
        forall|i: int|
            0 <= i < gather(lines).0.len() - 1 ==> !run_together(#[trigger] gather(lines).0[i], gather(lines).0[i + 1]),
    decreases lines.len(),
{
    if lines.len() > 0 {
        let init = lines.drop_last();
        lemma_gather_paragraphs(init);
        let g0 = gather(init).0;
        let g = gather(lines).0;
        assert forall|i: int| 0 <= i < g.len() - 1 implies !run_together(#[trigger] g[i], g[i + 1]) by {
            if i + 1 < g0.len() {
                assert(g[i] == g0[i] && g[i + 1] == g0[i + 1]);
            } else if i < g0.len() {
                assert(g[i] == g0[i]);
                assert(g0.len() > 0 && g0.last() == g0[i]);
            }
        }
    }
}

proof fn lemma_collapse_last(ls: Seq<LineView>)
    requires
        ls.len() > 0,
    ensures
        collapse(ls).0.len() > 0,
        !is_blank(ls.last()) ==> collapse(ls).0.last() == ls.last(),
        is_blank(ls.last()) ==> is_blank(collapse(ls).0.last()),
    decreases ls.len(),
{
    let init = ls.drop_last();
    let st = collapse(init);
    let l = ls.last();
    lemma_collapse(init);
    if ls.len() > 1 {
        lemma_collapse_last(init);
    } else {
        assert(init.len() == 0);
        assert(st == (Seq::<LineView>::empty(), false));
    }
    if is_blank(l) && st.1 {
        assert(collapse(ls).0 == st.0);
    } else {
        assert(collapse(ls).0 == st.0.push(l));
    }
}

proof fn lemma_collapse_paragraphs(ls: Seq<LineView>)
    requires
        forall|i: int| 0 <= i < ls.len() - 1 ==> !run_together(#[trigger] ls[i], ls[i + 1]),
    ensures
        forall|i: int|
            0 <= i < collapse(ls).0.len() - 1 ==> !run_together(#[trigger] collapse(ls).0[i], collapse(ls).0[i + 1]),
    decreases ls.len(),
{
    if ls.len() > 0 {
        let init = ls.drop_last();
        assert forall|i: int| 0 <= i < init.len() - 1 implies !run_together(#[trigger] init[i], init[i + 1]) by {
            assert(init[i] == ls[i] && init[i + 1] == ls[i + 1]);
        }
        lemma_collapse_paragraphs(init);
        let st = collapse(init);
        let out = collapse(ls).0;
        let l = ls.last();
        if !(is_blank(l) && st.1) {
            assert(out == st.0.push(l));
            assert forall|i: int| 0 <= i < out.len() - 1 implies !run_together(#[trigger] out[i], out[i + 1]) by {
                if i + 1 < st.0.len() {
                    assert(out[i] == st.0[i] && out[i + 1] == st.0[i + 1]);
                } else {
                    assert(out[i] == st.0.last() && out[i + 1] == l);
                    if run_together(st.0.last(), l) {
                        lemma_collapse_last(init);
                        assert(!is_blank(st.0.last()));
                        assert(init.last() == ls[ls.len() - 2]);
                        assert(!is_blank(init.last()));
                        assert(st.0.last() == init.last());
                        assert(ls[ls.len() - 1] == l);
                    }
                }
            }
        }
    }
}

/// Paragraphs stay apart: no line with text (and no escape code) of the
/// laid-out article is directly followed by another line with text; a
/// blank line always stands between them.
pub proof fn law_paragraphs_apart(article: Seq<char>)
    ensures
        forall|i: int|
            0 <= i < layout_of(article).len() - 1 ==> match (#[trigger] layout_of(article)[i], layout_of(article)[i + 1]) {
                (LineView::Text(x), LineView::Text(y)) => !(trimmed(x).len() > 0 && !x.contains('\u{1b}') && trimmed(
                    y,
                ).len() > 0),
                _ => true,
            },
{
    let g = gather(text_lines(article)).0;
    lemma_gather_paragraphs(text_lines(article));
    lemma_collapse_paragraphs(g);
    assert forall|i: int| 0 <= i < layout_of(article).len() - 1 implies match (#[trigger] layout_of(article)[i], layout_of(article)[i + 1]) {
                (LineView::Text(x), LineView::Text(y)) => !(trimmed(x).len() > 0 && !x.contains('\u{1b}') && trimmed(
                    y,
                ).len() > 0),
                _ => true,
            } by {
        assert(!run_together(layout_of(article)[i], layout_of(article)[i + 1]));
    }
}

} // verus!

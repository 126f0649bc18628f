//! The line scanner: it numbers the lines of a file, finds the first match
//! on each, and renders one highlighted report line per matching line.
use vstd::prelude::*;
use crate::lines::split_lines;
use crate::lines::split_lines_exec;
use crate::pattern::Pattern;
use crate::seq_views;
use crate::text::dec_digits;
use crate::text::push_decimal;
use crate::text::push_range;
use crate::text::trim_bytes;
use crate::text::trim_spec;

verus! {

/// One match found in a file: the 1-based line number and the byte offsets
/// of the match within that line.
pub struct MatchReport {
    pub line_number: usize,
    pub start: usize,
    pub end: usize,
}

impl View for MatchReport {
    type V = (int, int, int);

    open spec fn view(&self) -> (int, int, int) {
        (self.line_number as int, self.start as int, self.end as int)
    }
}

/// The matches the scanner reports over `lines` when `base` lines came
/// before them: one entry per line whose `spec_find` is a span, carrying
/// the 1-based line number and the span, in line order.
pub open spec fn match_list(lines: Seq<Seq<u8>>, p: Pattern, base: int) -> Seq<(int, int, int)>
    decreases lines.len(),
{
    if lines.len() == 0 {
        Seq::empty()
    } else {
        let rest = match_list(lines.drop_first(), p, base + 1);
        match p.spec_find(lines[0]) {
            Some((s, e)) => seq![(base + 1, s, e)] + rest,
            None => rest,
        }
    }
}

/// Line numbers are 1-based counted from `base` and strictly increasing,
/// and at most one match is reported per line.
pub proof fn lemma_match_list_line_numbers(lines: Seq<Seq<u8>>, p: Pattern, base: int)
    ensures
        match_list(lines, p, base).len() <= lines.len(),
        forall|k: int| 0 <= k < match_list(lines, p, base).len() ==> base
            < (#[trigger] match_list(lines, p, base)[k]).0 <= base + lines.len(),
        forall|k1: int, k2: int|
            0 <= k1 < k2 < match_list(lines, p, base).len() ==> match_list(lines, p, base)[k1].0
                < match_list(lines, p, base)[k2].0,
    decreases lines.len(),
{
    if lines.len() > 0 {
        lemma_match_list_line_numbers(lines.drop_first(), p, base + 1);
    }
}

/// Every reported match lies on one of the lines, at the span `spec_find`
/// gives for it.
pub proof fn lemma_match_list_spans(lines: Seq<Seq<u8>>, p: Pattern, base: int)
    ensures
        forall|k: int| 0 <= k < match_list(lines, p, base).len() ==> {
            let t = #[trigger] match_list(lines, p, base)[k];
            &&& base < t.0 <= base + lines.len()
            &&& p.spec_find(lines[t.0 - base - 1]) == Some((t.1, t.2))
        },
    decreases lines.len(),
{
    lemma_match_list_line_numbers(lines, p, base);
    if lines.len() > 0 {
        lemma_match_list_spans(lines.drop_first(), p, base + 1);
        assert forall|k: int|
            #![trigger match_list(lines, p, base)[k]]
            0 <= k < match_list(lines, p, base).len() implies {
            let t = match_list(lines, p, base)[k];
            &&& base < t.0 <= base + lines.len()
            &&& p.spec_find(lines[t.0 - base - 1]) == Some((t.1, t.2))
        } by {
            let rest = match_list(lines.drop_first(), p, base + 1);
            let t = match_list(lines, p, base)[k];
            match p.spec_find(lines[0]) {
                Some(_) => {
                    if k > 0 {
                        assert(t == rest[k - 1]);
                        assert(lines.drop_first()[t.0 - base - 2] == lines[t.0 - base - 1]);
                    }
                },
                None => {
                    assert(t == rest[k]);
                    assert(lines.drop_first()[t.0 - base - 2] == lines[t.0 - base - 1]);
                },
            }
        }
    }
}

/// Finds the first match on each line, with 1-based line numbers.
pub fn find_matches(lines: &Vec<Vec<u8>>, p: &Pattern) -> (r: Vec<MatchReport>)
    ensures
        r@.map_values(|m: MatchReport| m@) == match_list(seq_views(lines@), *p, 0),
        forall|k: int| 0 <= k < r@.len() ==> {
            let m = #[trigger] r@[k];
            &&& 1 <= m.line_number <= lines@.len()
            &&& m.start <= m.end <= lines@[m.line_number - 1]@.len()
        },
{
    let ghost all = seq_views(lines@);
    let mut out: Vec<MatchReport> = Vec::new();
    let mut i: usize = 0;
    proof {
        assert(all.skip(0) =~= all);
        assert(out@.map_values(|m: MatchReport| m@) + match_list(all, *p, 0) =~= match_list(
            all,
            *p,
            0,
        ));
    }
    while i < lines.len()
        invariant
            i <= lines@.len(),
            all == seq_views(lines@),
            match_list(all, *p, 0) == out@.map_values(|m: MatchReport| m@) + match_list(
                all.skip(i as int),
                *p,
                i as int,
            ),
            forall|k: int| 0 <= k < out@.len() ==> {
                let m = #[trigger] out@[k];
                &&& 1 <= m.line_number <= lines@.len()
                &&& m.start <= m.end <= lines@[m.line_number - 1]@.len()
            },
        decreases lines@.len() - i,
    {
        let ghost rest = all.skip(i as int);
        proof {
            assert(rest[0] == all[i as int]);
            assert(rest.drop_first() =~= all.skip(i as int + 1));
        }
        let found = p.find(lines[i].as_slice());
        match found {
            Some((s, e)) => {
                let m = MatchReport { line_number: i + 1, start: s, end: e };
                proof {
                    assert(out@.push(m).map_values(|m: MatchReport| m@) =~= out@.map_values(
                        |m: MatchReport| m@,
                    ).push(m@));
                    assert(out@.map_values(|m: MatchReport| m@).push(m@) + match_list(
                        all.skip(i as int + 1),
                        *p,
                        i as int + 1,
                    ) =~= out@.map_values(|m: MatchReport| m@) + (seq![m@] + match_list(
                        all.skip(i as int + 1),
                        *p,
                        i as int + 1,
                    )));
                }
                out.push(m);
            },
            None => {},
        }
        i = i + 1;
    }
    proof {
        assert(all.skip(i as int).len() == 0);
        assert(out@.map_values(|m: MatchReport| m@) + match_list(all.skip(i as int), *p, i as int)
            =~= out@.map_values(|m: MatchReport| m@));
    }
    out
}

/// The escape bytes that open the locator of a report line: bold blue for a
/// literal match, plain blue for a regular-expression match, so a reader
/// can tell the matching mode at a glance.
pub open spec fn locator_prefix(is_regex: bool) -> Seq<u8> {
    if is_regex {
        seq![27u8, 91u8, 51u8, 52u8, 109u8]
    } else {
        seq![27u8, 91u8, 51u8, 52u8, 59u8, 49u8, 109u8]
    }
}

/// The escape bytes that open the green highlight of the matched span.
pub open spec fn highlight_open() -> Seq<u8> {
    seq![27u8, 91u8, 51u8, 50u8, 109u8]
}

/// The escape bytes that reset the terminal style.
pub open spec fn style_reset() -> Seq<u8> {
    seq![27u8, 91u8, 48u8, 109u8]
}

/// The line text with the matched span wrapped in the green highlight, and
/// ASCII whitespace trimmed from both ends of the whole.
pub open spec fn highlight_body(line: Seq<u8>, s: int, e: int) -> Seq<u8> {
    trim_spec(
        line.subrange(0, s) + highlight_open() + line.subrange(s, e) + style_reset()
            + line.subrange(e, line.len() as int),
    )
}

/// One report line: the highlighted `[label:line_number]:` locator, a
/// space, and the highlighted line body.
pub open spec fn report_line_spec(
    label: Seq<u8>,
    num: int,
    line: Seq<u8>,
    s: int,
    e: int,
    is_regex: bool,
) -> Seq<u8> {
    locator_prefix(is_regex) + seq![91u8] + label + seq![58u8] + dec_digits(num as nat) + seq![
        93u8,
        58u8,
    ] + style_reset() + seq![32u8] + highlight_body(line, s, e)
}

fn push_locator_prefix(out: &mut Vec<u8>, is_regex: bool)
    ensures
        final(out)@ == old(out)@ + locator_prefix(is_regex),
{
    out.push(27);
    out.push(91);
    out.push(51);
    out.push(52);
    if !is_regex {
        out.push(59);
        out.push(49);
    }
    out.push(109);
    proof {
        assert(out@ =~= old(out)@ + locator_prefix(is_regex));
    }
}

fn push_highlight_open(out: &mut Vec<u8>)
    ensures
        final(out)@ == old(out)@ + highlight_open(),
{
    out.push(27);
    out.push(91);
    out.push(51);
    out.push(50);
    out.push(109);
    proof {
        assert(out@ =~= old(out)@ + highlight_open());
    }
}

fn push_style_reset(out: &mut Vec<u8>)
    ensures
        final(out)@ == old(out)@ + style_reset(),
{
    out.push(27);
    out.push(91);
    out.push(48);
    out.push(109);
    proof {
        assert(out@ =~= old(out)@ + style_reset());
    }
}

/// Renders the report line for one match.
pub fn render_report(label: &[u8], line: &[u8], m: &MatchReport, is_regex: bool) -> (r: Vec<u8>)
    requires
        m.start <= m.end <= line@.len(),
    ensures
        r@ == report_line_spec(
            label@,
            m.line_number as int,
            line@,
            m.start as int,
            m.end as int,
            is_regex,
        ),
{
    let mut body: Vec<u8> = Vec::new();
    push_range(&mut body, line, 0, m.start);
    push_highlight_open(&mut body);
    push_range(&mut body, line, m.start, m.end);
    push_style_reset(&mut body);
    push_range(&mut body, line, m.end, line.len());
    proof {
        assert(body@ =~= line@.subrange(0, m.start as int) + highlight_open() + line@.subrange(
            m.start as int,
            m.end as int,
        ) + style_reset() + line@.subrange(m.end as int, line@.len() as int));
    }
    let trimmed = trim_bytes(&body);
    let mut out: Vec<u8> = Vec::new();
    push_locator_prefix(&mut out, is_regex);
    out.push(91);
    push_range(&mut out, label, 0, label.len());
    out.push(58);
    push_decimal(&mut out, m.line_number);
    out.push(93);
    out.push(58);
    push_style_reset(&mut out);
    out.push(32);
    push_range(&mut out, trimmed.as_slice(), 0, trimmed.len());
    proof {
        assert(label@.subrange(0, label@.len() as int) =~= label@);
        assert(trimmed@.subrange(0, trimmed@.len() as int) =~= trimmed@);
        assert(out@ =~= report_line_spec(
            label@,
            m.line_number as int,
            line@,
            m.start as int,
            m.end as int,
            is_regex,
        ));
    }
    out
}

/// The report lines a scan of `text` emits under `label` with pattern `p`.
pub open spec fn search_spec(label: Seq<u8>, text: Seq<u8>, p: Pattern) -> Seq<Seq<u8>> {
    let ls = split_lines(text);
    match_list(ls, p, 0).map_values(
        |t: (int, int, int)| report_line_spec(label, t.0, ls[t.0 - 1], t.1, t.2, p.is_regex()),
    )
}

/// Scans `text` line by line and returns one rendered report line for each
/// line on which `pattern` matches, in line order. A file of `n` lines
/// yields at most `n` report lines.
pub fn search(label: &[u8], text: &[u8], pattern: &Pattern) -> (r: Vec<Vec<u8>>)
    ensures
        seq_views(r@) == search_spec(label@, text@, *pattern),
        r@.len() <= split_lines(text@).len(),
{
    let lines_vec = split_lines_exec(text);
    let ghost ls = split_lines(text@);
    let ms = find_matches(&lines_vec, pattern);
    let is_regex = pattern.is_regex_exec();
    let ghost target = search_spec(label@, text@, *pattern);
    proof {
        lemma_match_list_line_numbers(ls, *pattern, 0);
        lemma_match_list_spans(ls, *pattern, 0);
    }
    let mut out: Vec<Vec<u8>> = Vec::new();
    let mut k: usize = 0;
    while k < ms.len()
        invariant
            k <= ms@.len(),
            ms@.map_values(|m: MatchReport| m@) == match_list(ls, *pattern, 0),
            ls == split_lines(text@),
            ls == seq_views(lines_vec@),
            is_regex == pattern.is_regex(),
            target == search_spec(label@, text@, *pattern),
            forall|j: int| 0 <= j < ms@.len() ==> {
                let m = #[trigger] ms@[j];
                &&& 1 <= m.line_number <= lines_vec@.len()
                &&& m.start <= m.end <= lines_vec@[m.line_number - 1]@.len()
            },
            seq_views(out@) == target.take(k as int),
        decreases ms@.len() - k,
    {
        let m = &ms[k];
        proof {
            assert(match_list(ls, *pattern, 0)[k as int] == ms@[k as int]@);
        }
        let line = &lines_vec[m.line_number - 1];
        let rendered = render_report(label, line.as_slice(), m, is_regex);
        proof {
            assert(seq_views(out@.push(rendered)) =~= seq_views(out@).push(rendered@));
            assert(target.take(k as int).push(target[k as int]) =~= target.take(k as int + 1));
        }
        out.push(rendered);
        k = k + 1;
    }
    proof {
        assert(target.take(ms@.len() as int) =~= target);
    }
    out
}

} // verus!

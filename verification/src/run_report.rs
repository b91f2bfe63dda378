//! The program output of `sbt run`, without sbt's own chatter.

use vstd::prelude::*;
use crate::sbt_patterns::{SbtPatterns, caps, strip_error_mark, NOISE_PATTERN,
    COMPILE_COUNT_PATTERN, ERROR_PATTERN, ERROR_MARK};
use crate::text::{
    chars_from, chars_of, join_lines, lemma_join_lines_push, lines, line_ranges, pieces, push_range, starts_with, starts_with_at,
    string_from_chars, strip_or_keep, trim, trim_chars, trimmed_string,
};

verus! {

/// What one line of `sbt run` output becomes.
pub enum RunLine {
    /// A line of sbt's own, left out.
    Dropped,
    /// A line kept, with sbt's mark taken off.
    Kept(String),
}

/// The meaning of a `RunLine`, its text as a sequence.
pub enum RunLineView {
    Dropped,
    Kept(Seq<char>),
}

impl View for RunLine {
    type V = RunLineView;

    open spec fn view(&self) -> RunLineView {
        match self {
            RunLine::Dropped => RunLineView::Dropped,
            RunLine::Kept(l) => RunLineView::Kept(l@),
        }
    }
}

/// sbt's mark on an informational line.
pub const INFO_MARK: &'static str = "[info] ";

/// sbt's mark on a success line.
pub const SUCCESS_MARK: &'static str = "[success] ";

/// What the trimmed line `t` becomes: sbt's start-up chatter, its compile
/// announcements, its `running ...` preamble and its `Total time:` line are
/// dropped; `[info] `, `[success] ` and `[error] ` marks are taken off; any
/// other line is kept as it is.
pub open spec fn run_line_kind(t: Seq<char>) -> RunLineView {
    if caps(NOISE_PATTERN, t) is Some {
        RunLineView::Dropped
    } else if caps(COMPILE_COUNT_PATTERN, t) is Some {
        RunLineView::Dropped
    } else if starts_with(t, "[info] running "@) || starts_with(t, "[info] Running "@) {
        RunLineView::Dropped
    } else if starts_with(t, INFO_MARK@) {
        RunLineView::Kept(strip_or_keep(t, INFO_MARK@))
    } else if starts_with(t, SUCCESS_MARK@) {
        if starts_with(strip_or_keep(t, SUCCESS_MARK@), "Total time:"@) {
            RunLineView::Dropped
        } else {
            RunLineView::Kept(strip_or_keep(t, SUCCESS_MARK@))
        }
    } else if caps(ERROR_PATTERN, t) is Some {
        RunLineView::Kept(strip_or_keep(t, ERROR_MARK@))
    } else {
        RunLineView::Kept(t)
    }
}

/// The lines kept, in order; blank lines before the first kept line are left out.
pub open spec fn kept_lines(es: Seq<RunLineView>) -> Seq<Seq<char>>
    decreases es.len(),
{
    if es.len() == 0 {
        Seq::empty()
    } else {
        let acc = kept_lines(es.drop_last());
        match es.last() {
            RunLineView::Dropped => acc,
            RunLineView::Kept(c) => if c.len() == 0 && acc.len() == 0 {
                acc
            } else {
                acc.push(c)
            },
        }
    }
}

/// `ls` joined with newlines between them.
pub open spec fn joined(ls: Seq<Seq<char>>) -> Seq<char>
    decreases ls.len(),
{
    if ls.len() == 0 {
        Seq::empty()
    } else if ls.len() == 1 {
        ls[0]
    } else {
        joined(ls.drop_last()) + seq!['\n'] + ls.last()
    }
}

/// The kept program output of lines that tell `es`, without leading and
/// trailing whitespace.
pub open spec fn run_report(es: Seq<RunLineView>) -> Seq<char> {
    trim(joined(kept_lines(es)))
}

/// The meanings of some run lines.
pub open spec fn run_line_views(es: Seq<RunLine>) -> Seq<RunLineView> {
    es.map_values(|e: RunLine| e@)
}

/// The program output within the `sbt run` output `output`.
pub open spec fn sbt_run_output(output: Seq<char>) -> Seq<char> {
    run_report(lines(output).map_values(|l: Seq<char>| run_line_kind(trim(l))))
}

/// Whether `t` begins with the literal `lit`.
fn starts_with_str(t: &Vec<char>, lit: &str) -> (res: bool)
    ensures
        res == starts_with(t@, lit@),
{
    let p = chars_of(lit);
    assert(t@.skip(0) =~= t@);
    starts_with_at(t.as_slice(), 0, p.as_slice())
}

/// What the trimmed line `t` (whose characters are `tc`) becomes.
fn classify_trimmed_run_line(patterns: &SbtPatterns, t: String, tc: Vec<char>) -> (res: RunLine)
    requires
        t@ == tc@,
    ensures
        res@ == run_line_kind(t@),
{
    if patterns.is_noise(t.as_str()) {
        return RunLine::Dropped;
    }
    if patterns.compile_count(t.as_str()).is_some() {
        return RunLine::Dropped;
    }
    if starts_with_str(&tc, "[info] running ") || starts_with_str(&tc, "[info] Running ") {
        return RunLine::Dropped;
    }
    if starts_with_str(&tc, INFO_MARK) {
        let mark = chars_of(INFO_MARK);
        let rest = chars_from(&tc, mark.len());
        return RunLine::Kept(string_from_chars(rest.as_slice()));
    }
    if starts_with_str(&tc, SUCCESS_MARK) {
        let mark = chars_of(SUCCESS_MARK);
        let rest = chars_from(&tc, mark.len());
        if starts_with_str(&rest, "Total time:") {
            return RunLine::Dropped;
        }
        return RunLine::Kept(string_from_chars(rest.as_slice()));
    }
    if patterns.is_error(t.as_str()) {
        let rest = strip_error_mark(&tc);
        return RunLine::Kept(string_from_chars(rest.as_slice()));
    }
    RunLine::Kept(t)
}

/// What one line of `sbt run` output becomes, once trimmed.
pub fn classify_run_line(patterns: &SbtPatterns, line: &str) -> (res: RunLine)
    ensures
        res@ == run_line_kind(trim(line@)),
{
    let cs = chars_of(line);
    let tc = trim_chars(cs.as_slice(), 0, cs.len());
    assert(cs@.subrange(0, cs@.len() as int) =~= cs@);
    let t = string_from_chars(tc.as_slice());
    classify_trimmed_run_line(patterns, t, tc)
}

/// The kept program output of lines that tell `events`.
pub fn render_run_report(events: &Vec<RunLine>) -> (res: String)
    ensures
        res@ == run_report(run_line_views(events@)),
{
    let ghost views = run_line_views(events@);
    let mut out: Vec<char> = Vec::new();
    let mut kept: usize = 0;
    assert(views.take(0) =~= Seq::<RunLineView>::empty());
    for k in 0..events.len()
        invariant
            views == run_line_views(events@),
            kept == kept_lines(views.take(k as int)).len(),
            out@ == joined(kept_lines(views.take(k as int))),
            kept <= k,
    {
        let ghost acc = kept_lines(views.take(k as int));
        assert(views.take(k + 1).drop_last() =~= views.take(k as int));
        match &events[k] {
            RunLine::Dropped => {},
            RunLine::Kept(l) => {
                let cs = chars_of(l.as_str());
                if cs.len() == 0 && kept == 0 {
                } else {
                    if kept > 0 {
                        out.push('\n');
                    }
                    push_range(&mut out, cs.as_slice(), 0, cs.len());
                    assert(cs@.subrange(0, cs@.len() as int) =~= cs@);
                    let ghost next = acc.push(l@);
                    assert(next.drop_last() =~= acc);
                    assert(out@ =~= joined(next));
                    kept = kept + 1;
                }
            },
        }
    }
    assert(views.take(events@.len() as int) =~= views);
    trimmed_string(&out)
}

/// Filters `sbt run` output lightly: sbt's preamble and timing are dropped
/// and the program's own output kept.
pub fn filter_sbt_run(output: &str) -> (res: String)
    ensures
        res@ == sbt_run_output(output@),
{
    let patterns = SbtPatterns::new();
    filter_sbt_run_with(&patterns, output)
}

/// The same filter with patterns compiled beforehand, for callers that
/// filter many outputs.
pub fn filter_sbt_run_with(patterns: &SbtPatterns, output: &str) -> (res: String)
    ensures
        res@ == sbt_run_output(output@),
{
    let text = chars_of(output);
    let ranges = line_ranges(text.as_slice());
    let ghost ls = lines(text@);
    let mut events: Vec<RunLine> = Vec::new();
    for k in 0..ranges.len()
        invariant
            pieces(text@, ranges@) == ls,
            forall|j: int| 0 <= j < ranges@.len() ==> (#[trigger] ranges@[j]).0 <= ranges@[j].1 <= text@.len(),
            events@.len() == k,
            forall|i: int| 0 <= i < k ==> (#[trigger] events@[i])@ == run_line_kind(trim(ls[i])),
    {
        let (a, b) = ranges[k];
        assert(ls[k as int] == text@.subrange(a as int, b as int));
        let tc = trim_chars(text.as_slice(), a, b);
        let t = string_from_chars(tc.as_slice());
        let e = classify_trimmed_run_line(patterns, t, tc);
        events.push(e);
    }
    assert(run_line_views(events@) =~= ls.map_values(|l: Seq<char>| run_line_kind(trim(l))));
    render_run_report(&events)
}


/// The program output that `sbt run` leaves has no leading or trailing whitespace.
pub proof fn law_run_output_is_trimmed(es: Seq<RunLineView>)
    ensures
        trim(run_report(es)) == run_report(es),
{
    crate::text::lemma_trim_idempotent(joined(kept_lines(es)));
}


/// Program output is kept whole and in order: where every line is kept
/// with some text, the output is those texts joined by newlines, trimmed.
pub proof fn law_run_keeps_program_output(es: Seq<RunLineView>, texts: Seq<Seq<char>>)
    requires
        es.len() == texts.len(),
        forall|i: int| 0 <= i < es.len() ==> #[trigger] es[i] == RunLineView::Kept(texts[i]),
        forall|i: int| 0 <= i < texts.len() ==> (#[trigger] texts[i]).len() > 0,
    ensures
        kept_lines(es) == texts,
        run_report(es) == trim(joined(texts)),
    decreases es.len(),
{
    if es.len() > 0 {
        let n = es.len() - 1;
        assert(es[n] == RunLineView::Kept(texts[n]));
        assert(texts[n].len() > 0);
        assert forall|i: int| 0 <= i < es.drop_last().len() implies #[trigger] es.drop_last()[i]
            == RunLineView::Kept(texts.drop_last()[i]) by {
            assert(es[i] == RunLineView::Kept(texts[i]));
        }
        assert forall|i: int| 0 <= i < texts.drop_last().len() implies (
        #[trigger] texts.drop_last()[i]).len() > 0 by {
            assert(texts[i].len() > 0);
        }
        law_run_keeps_program_output(es.drop_last(), texts.drop_last());
        assert(texts.drop_last().push(texts[n]) =~= texts);
    } else {
        assert(texts =~= Seq::<Seq<char>>::empty());
    }
}


/// sbt's own lines are dropped: its start-up chatter, its compile
/// announcements, its `running ...` preamble and its `Total time:` line.
pub proof fn law_run_drops_sbt_lines(t: Seq<char>)
    ensures
        caps(NOISE_PATTERN, t) is Some ==> run_line_kind(t) == RunLineView::Dropped,
        caps(COMPILE_COUNT_PATTERN, t) is Some ==> run_line_kind(t) == RunLineView::Dropped,
        starts_with(t, "[info] running "@) ==> run_line_kind(t) == RunLineView::Dropped,
        starts_with(t, "[info] Running "@) ==> run_line_kind(t) == RunLineView::Dropped,
        starts_with(t, "[success] Total time:"@) ==> run_line_kind(t) == RunLineView::Dropped,
{
    reveal_strlit("[info] running ");
    reveal_strlit("[info] Running ");
    reveal_strlit("[info] ");
    reveal_strlit("[success] ");
    reveal_strlit("Total time:");
    reveal_strlit("[success] Total time:");
    if starts_with(t, "[success] Total time:"@) {
        let lit = "[success] Total time:"@;
        assert forall|j: int| 0 <= j < 21 implies t[j] == lit[j] by {
            assert(t.take(21)[j] == t[j]);
        }
        assert(t.take(10) =~= SUCCESS_MARK@);
        assert(starts_with(t, SUCCESS_MARK@));
        assert(!starts_with(t, INFO_MARK@)) by {
            assert(t[1] == 's');
        }
        assert(!starts_with(t, "[info] running "@)) by {
            assert(t[1] == 's');
        }
        assert(!starts_with(t, "[info] Running "@)) by {
            assert(t[1] == 's');
        }
        let c = strip_or_keep(t, SUCCESS_MARK@);
        assert(c.take(11) =~= t.subrange(10, 21));
        assert(t.subrange(10, 21) =~= "Total time:"@);
    }
}

/// Every kept line comes from some line kept with that text.
proof fn lemma_kept_origin(es: Seq<RunLineView>, k: int) -> (i: int)
    requires
        0 <= k < kept_lines(es).len(),
    ensures
        0 <= i < es.len(),
        es[i] == RunLineView::Kept(kept_lines(es)[k]),
    decreases es.len(),
{
    let acc = kept_lines(es.drop_last());
    if k < acc.len() {
        let i = lemma_kept_origin(es.drop_last(), k);
        assert(es.drop_last()[i] == es[i]);
        i
    } else {
        es.len() - 1
    }
}

/// Each line of the program output that `sbt run` leaves comes from a line
/// of the output that none of sbt's own patterns match: no start-up
/// chatter, no compile announcement, no `running ...` preamble.
pub proof fn law_run_output_comes_from_program_lines(output: Seq<char>, k: int) -> (i: int)
    requires
        0 <= k < kept_lines(lines(output).map_values(|l: Seq<char>| run_line_kind(trim(l)))).len(),
    ensures
        0 <= i < lines(output).len(),
        run_line_kind(trim(lines(output)[i])) == RunLineView::Kept(
            kept_lines(lines(output).map_values(|l: Seq<char>| run_line_kind(trim(l))))[k],
        ),
        caps(NOISE_PATTERN, trim(lines(output)[i])) is None,
        caps(COMPILE_COUNT_PATTERN, trim(lines(output)[i])) is None,
        !starts_with(trim(lines(output)[i]), "[info] running "@),
        !starts_with(trim(lines(output)[i]), "[info] Running "@),
        !starts_with(trim(lines(output)[i]), "[success] Total time:"@),
{
    let es = lines(output).map_values(|l: Seq<char>| run_line_kind(trim(l)));
    let i = lemma_kept_origin(es, k);
    law_run_drops_sbt_lines(trim(lines(output)[i]));
    i
}


/// How one more line changes the kept lines: a dropped line changes nothing;
/// a blank line is left out before any program output and kept after it;
/// any other kept line is added at the end.
pub proof fn law_run_kept_lines_grow(es: Seq<RunLineView>, e: RunLineView)
    ensures
        e == RunLineView::Dropped ==> kept_lines(es.push(e)) == kept_lines(es),
        e == RunLineView::Kept(Seq::<char>::empty()) && kept_lines(es).len() == 0 ==> kept_lines(
            es.push(e),
        ).len() == 0,
        e matches RunLineView::Kept(c) ==> ((c.len() > 0 || kept_lines(es).len() > 0) ==> kept_lines(
            es.push(e),
        ) == kept_lines(es).push(c)),
{
    assert(es.push(e).drop_last() =~= es);
}

/// A line that none of sbt's rules drops is kept: with its `[info] ` or
/// `[success] ` mark taken off where it has one, else whole.
pub proof fn law_run_keeps_other_lines(t: Seq<char>)
    requires
        caps(NOISE_PATTERN, t) is None,
        caps(COMPILE_COUNT_PATTERN, t) is None,
        !starts_with(t, "[info] running "@),
        !starts_with(t, "[info] Running "@),
    ensures
        starts_with(t, "[info] "@) ==> run_line_kind(t) == RunLineView::Kept(
            t.skip("[info] "@.len() as int),
        ),
        !starts_with(t, "[info] "@) && !starts_with(t, "[success] "@) && caps(ERROR_PATTERN, t) is None
            ==> run_line_kind(t) == RunLineView::Kept(t),
        !starts_with(t, "[info] "@) && !starts_with(t, "[success] "@) && caps(ERROR_PATTERN, t) is Some
            && starts_with(t, "[error] "@) ==> run_line_kind(t) == RunLineView::Kept(
            t.skip("[error] "@.len() as int),
        ),
{
}


/// The kept lines are joined with one newline between each two of them and
/// nothing else: `joined` agrees with `join_lines`, which puts each line
/// before a newline and the rest.
pub proof fn law_joined_puts_newlines_between(ls: Seq<Seq<char>>)
    ensures
        joined(ls) == join_lines(ls),
    decreases ls.len(),
{
    if ls.len() > 1 {
        law_joined_puts_newlines_between(ls.drop_last());
        lemma_join_lines_push(ls.drop_last(), ls.last());
        assert(ls.drop_last().push(ls.last()) =~= ls);
    }
}

} // verus!

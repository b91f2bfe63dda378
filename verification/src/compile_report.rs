//! The summary of `sbt compile` output.

use vstd::prelude::*;
use crate::layout::{lemma_numbered_entry, lemma_numbered_position, line_views, numbered, push_numbered, push_rule, rule_line};
use vstd::arithmetic::div_mod::{lemma_add_mod_noop, lemma_small_mod};
use crate::pattern::group_text;
use crate::sbt_patterns::{
    SbtPatterns, caps, count_or_zero, group_count, group_number, strip_error_mark,
    COMPILE_COUNT_PATTERN, SUCCESS_TIME_PATTERN, ERROR_PATTERN, ERROR_MARK,
};
use crate::text::{
    chars_of, contains, decimal, is_white_space, lemma_decimal_digits, lemma_single_line_concat,
    lemma_trim_keeps_occurrence, lemma_trim_last, lines, line_ranges, occurs_at, parse_u32, pieces,
    push_decimal, push_str, single_line, starts_with, string_from_chars, strip_or_keep, trim,
    trim_chars, trimmed_string, lemma_trim_keeps_prefix, law_decimal_reads_back,
};

verus! {

/// What one line of `sbt compile` output tells.
pub enum CompileLine {
    /// sbt announces that it compiles this many Scala sources.
    SourceCount(u32),
    /// sbt reports success, with the total time in seconds where the number parses.
    Success(Option<u32>),
    /// An error line: its text after the `[error] ` mark.
    Error(String),
    /// Anything else.
    Other,
}

/// The meaning of a `CompileLine`, its text as a sequence.
pub enum CompileLineView {
    SourceCount(u32),
    Success(Option<u32>),
    Error(Seq<char>),
    Other,
}

impl View for CompileLine {
    type V = CompileLineView;

    open spec fn view(&self) -> CompileLineView {
        match self {
            CompileLine::SourceCount(n) => CompileLineView::SourceCount(*n),
            CompileLine::Success(t) => CompileLineView::Success(*t),
            CompileLine::Error(l) => CompileLineView::Error(l@),
            CompileLine::Other => CompileLineView::Other,
        }
    }
}

/// What the trimmed line `t` tells, tried in this order: a compile
/// announcement, the success line, an error with some text.
pub open spec fn compile_line_kind(t: Seq<char>) -> CompileLineView {
    if let Some(g) = caps(COMPILE_COUNT_PATTERN, t) {
        CompileLineView::SourceCount(count_or_zero(g, 1))
    } else if let Some(g) = caps(SUCCESS_TIME_PATTERN, t) {
        CompileLineView::Success(parse_u32(group_text(g, 1)))
    } else if caps(ERROR_PATTERN, t) is Some && strip_or_keep(t, ERROR_MARK@).len() > 0 {
        CompileLineView::Error(strip_or_keep(t, ERROR_MARK@))
    } else {
        CompileLineView::Other
    }
}

/// What has been gathered from the lines read so far.
pub struct CompileTally {
    pub sources: u32,
    pub total_time: Option<u32>,
    pub has_success: bool,
    pub errors: Seq<Seq<char>>,
}

/// Nothing gathered yet.
pub open spec fn empty_compile_tally() -> CompileTally {
    CompileTally { sources: 0, total_time: None, has_success: false, errors: Seq::empty() }
}

/// `a + b` in a `u32` that wraps around on overflow.
pub open spec fn wrapping_sum(a: u32, b: u32) -> u32 {
    ((a + b) % 0x1_0000_0000) as u32
}

/// The tally after one more line: source counts add up, a later success
/// line replaces the time of an earlier one, errors are kept in order.
pub open spec fn compile_step(t: CompileTally, e: CompileLineView) -> CompileTally {
    match e {
        CompileLineView::SourceCount(n) => CompileTally { sources: wrapping_sum(t.sources, n), ..t },
        CompileLineView::Success(r) => CompileTally { total_time: r, has_success: true, ..t },
        CompileLineView::Error(l) => CompileTally { errors: t.errors.push(l), ..t },
        CompileLineView::Other => t,
    }
}

/// The tally of a sequence of lines.
pub open spec fn compile_tally(es: Seq<CompileLineView>) -> CompileTally
    decreases es.len(),
{
    if es.len() == 0 {
        empty_compile_tally()
    } else {
        compile_step(compile_tally(es.drop_last()), es.last())
    }
}

/// The error report, before it is trimmed: the count, then every error
/// line, whole and numbered.
pub open spec fn compile_error_report(errors: Seq<Seq<char>>) -> Seq<char> {
    compile_error_heading(errors.len()) + numbered(errors)
}

/// The heading of the error report and its rule.
pub open spec fn compile_error_heading(n: nat) -> Seq<char> {
    "sbt compile: "@ + decimal(n) + " errors\n"@ + rule_line()
}

/// The one-line report of a compilation without errors.
pub open spec fn compile_success_line(t: CompileTally) -> Seq<char> {
    "sbt compile: "@ + (if t.sources > 0 {
        decimal(t.sources as nat) + " sources"@
    } else {
        "Success"@
    }) + (match t.total_time {
        Some(s) => " ("@ + decimal(s as nat) + "s)"@,
        None => Seq::empty(),
    })
}

/// The summary of `sbt compile` output whose lines tally to `t`.
pub open spec fn compile_report(t: CompileTally) -> Seq<char> {
    if t.errors.len() > 0 {
        trim(compile_error_report(t.errors))
    } else if t.has_success || t.sources > 0 {
        compile_success_line(t)
    } else {
        "sbt compile: Success"@
    }
}

/// The meanings of some compile lines.
pub open spec fn compile_line_views(es: Seq<CompileLine>) -> Seq<CompileLineView> {
    es.map_values(|e: CompileLine| e@)
}

/// The summary of the `sbt compile` output `output`.
pub open spec fn sbt_compile_summary(output: Seq<char>) -> Seq<char> {
    compile_report(
        compile_tally(lines(output).map_values(|l: Seq<char>| compile_line_kind(trim(l)))),
    )
}

/// What the trimmed line `t` (whose characters are `tc`) tells.
fn classify_trimmed_compile_line(patterns: &SbtPatterns, t: String, tc: Vec<char>) -> (res:
    CompileLine)
    requires
        t@ == tc@,
    ensures
        res@ == compile_line_kind(t@),
{
    if let Some(g) = patterns.compile_count(t.as_str()) {
        return CompileLine::SourceCount(group_count(&g, 1));
    }
    if let Some(g) = patterns.success_time(t.as_str()) {
        return CompileLine::Success(group_number(&g, 1));
    }
    if patterns.is_error(t.as_str()) {
        let rest = strip_error_mark(&tc);
        if rest.len() > 0 {
            return CompileLine::Error(string_from_chars(rest.as_slice()));
        }
    }
    CompileLine::Other
}

/// What one line of `sbt compile` output tells, once trimmed.
pub fn classify_compile_line(patterns: &SbtPatterns, line: &str) -> (res: CompileLine)
    ensures
        res@ == compile_line_kind(trim(line@)),
{
    let cs = chars_of(line);
    let tc = trim_chars(cs.as_slice(), 0, cs.len());
    assert(cs@.subrange(0, cs@.len() as int) =~= cs@);
    let t = string_from_chars(tc.as_slice());
    classify_trimmed_compile_line(patterns, t, tc)
}

/// `a + b`, wrapping around on overflow.
fn add_wrapping(a: u32, b: u32) -> (res: u32)
    ensures
        res == wrapping_sum(a, b),
{
    let sum: u64 = a as u64 + b as u64;
    if sum > 0xFFFF_FFFF {
        (sum - 0x1_0000_0000) as u32
    } else {
        sum as u32
    }
}

/// The summary of `sbt compile` output whose lines tell `events`.
pub fn render_compile_report(events: &Vec<CompileLine>) -> (res: String)
    ensures
        res@ == compile_report(compile_tally(compile_line_views(events@))),
{
    let mut sources: u32 = 0;
    let mut total_time: Option<u32> = None;
    let mut has_success = false;
    let mut errors: Vec<Vec<char>> = Vec::new();
    let ghost views = compile_line_views(events@);
    assert(views.take(0) =~= Seq::<CompileLineView>::empty());
    assert(line_views(errors@) =~= Seq::<Seq<char>>::empty());
    for k in 0..events.len()
        invariant
            views == compile_line_views(events@),
            compile_tally(views.take(k as int)) == (CompileTally {
                sources,
                total_time,
                has_success,
                errors: line_views(errors@),
            }),
    {
        assert(views.take(k + 1).drop_last() =~= views.take(k as int));
        match &events[k] {
            CompileLine::SourceCount(n) => {
                sources = add_wrapping(sources, *n);
            },
            CompileLine::Success(r) => {
                total_time = *r;
                has_success = true;
            },
            CompileLine::Error(l) => {
                let ghost before = errors@;
                errors.push(chars_of(l.as_str()));
                assert(line_views(errors@) =~= line_views(before).push(l@));
            },
            CompileLine::Other => {},
        }
    }
    assert(views.take(events@.len() as int) =~= views);
    let ghost t = compile_tally(views);
    if errors.len() > 0 {
        let mut out: Vec<char> = Vec::new();
        push_str(&mut out, "sbt compile: ");
        push_decimal(&mut out, errors.len() as u64);
        push_str(&mut out, " errors\n");
        push_rule(&mut out);
        push_numbered(&mut out, &errors, errors.len());
        assert(line_views(errors@).take(errors@.len() as int) =~= t.errors);
        assert(out@ =~= compile_error_report(t.errors));
        return trimmed_string(&out);
    }
    if has_success || sources > 0 {
        let mut out: Vec<char> = Vec::new();
        push_str(&mut out, "sbt compile: ");
        let ghost head = out@;
        if sources > 0 {
            push_decimal(&mut out, sources as u64);
            push_str(&mut out, " sources");
        } else {
            push_str(&mut out, "Success");
        }
        let ghost mid = out@;
        if let Some(s) = total_time {
            push_str(&mut out, " (");
            push_decimal(&mut out, s as u64);
            push_str(&mut out, "s)");
            assert(out@ =~= mid + (" ("@ + decimal(s as nat) + "s)"@));
        } else {
            assert(out@ =~= mid + Seq::<char>::empty());
        }
        assert(out@ =~= compile_success_line(t));
        return string_from_chars(out.as_slice());
    }
    "sbt compile: Success".to_owned()
}

/// Filters `sbt compile` output down to a summary.
///
/// On success: the number of sources compiled and the time taken. On
/// failure: every error line, whole and numbered.
pub fn filter_sbt_compile(output: &str) -> (res: String)
    ensures
        res@ == sbt_compile_summary(output@),
{
    let patterns = SbtPatterns::new();
    filter_sbt_compile_with(&patterns, output)
}

/// The same filter with patterns compiled beforehand, for callers that
/// filter many outputs.
pub fn filter_sbt_compile_with(patterns: &SbtPatterns, output: &str) -> (res: String)
    ensures
        res@ == sbt_compile_summary(output@),
{
    let text = chars_of(output);
    let ranges = line_ranges(text.as_slice());
    let ghost ls = lines(text@);
    let mut events: Vec<CompileLine> = Vec::new();
    for k in 0..ranges.len()
        invariant
            pieces(text@, ranges@) == ls,
            forall|j: int| 0 <= j < ranges@.len() ==> (#[trigger] ranges@[j]).0 <= ranges@[j].1 <= text@.len(),
            events@.len() == k,
            forall|i: int| 0 <= i < k ==> (#[trigger] events@[i])@ == compile_line_kind(trim(ls[i])),
    {
        let (a, b) = ranges[k];
        assert(ls[k as int] == text@.subrange(a as int, b as int));
        let tc = trim_chars(text.as_slice(), a, b);
        let t = string_from_chars(tc.as_slice());
        let e = classify_trimmed_compile_line(patterns, t, tc);
        events.push(e);
    }
    assert(compile_line_views(events@) =~= ls.map_values(|l: Seq<char>| compile_line_kind(trim(l))));
    render_compile_report(&events)
}


/// The summary of `sbt compile` output always opens with `sbt compile:`.
pub proof fn law_compile_report_heading(t: CompileTally)
    ensures
        starts_with(compile_report(t), "sbt compile:"@),
{
    reveal_strlit("sbt compile:");
    reveal_strlit("sbt compile: ");
    reveal_strlit("sbt compile: Success");
    let heading = "sbt compile:"@;
    if t.errors.len() > 0 {
        let x = compile_error_report(t.errors);
        assert(x[0] == 's');
        assert(x[11] == ':');
        crate::text::lemma_trim_keeps_head(x, 11);
        assert(x.take(12) =~= heading);
    } else if t.has_success || t.sources > 0 {
        assert(compile_success_line(t).take(12) =~= heading);
    } else {
        assert("sbt compile: Success"@.take(12) =~= heading);
    }
}


/// Every error line of the tally stands in the report, whole, where it
/// ends with a non-whitespace character (as every error line read from
/// sbt's output does, see `law_compile_summary_shows_every_error`).
pub proof fn law_compile_report_lists_every_error(t: CompileTally, k: int)
    requires
        0 <= k < t.errors.len(),
        t.errors[k].len() > 0,
        !is_white_space(t.errors[k].last()),
    ensures
        contains(compile_report(t), t.errors[k]),
{
    reveal_strlit("sbt compile: ");
    let h = compile_error_heading(t.errors.len());
    let x = compile_error_report(t.errors);
    let p = lemma_numbered_position(t.errors, k);
    let e = t.errors[k];
    assert(x.subrange(h.len() + p, h.len() + p + e.len()) =~= numbered(t.errors).subrange(
        p,
        p + e.len(),
    ));
    assert(occurs_at(x, e, h.len() + p));
    assert(x[0] == 's');
    lemma_trim_keeps_occurrence(x, e, h.len() + p);
}

/// Where the `i`-th line is an error line, its text is in the tally's errors.
proof fn lemma_compile_error_collected(es: Seq<CompileLineView>, i: int, e: Seq<char>) -> (k: int)
    requires
        0 <= i < es.len(),
        es[i] == CompileLineView::Error(e),
    ensures
        0 <= k < compile_tally(es).errors.len(),
        compile_tally(es).errors[k] == e,
    decreases es.len(),
{
    let prev = compile_tally(es.drop_last());
    if i == es.len() - 1 {
        prev.errors.len() as int
    } else {
        assert(es.drop_last()[i] == es[i]);
        lemma_compile_error_collected(es.drop_last(), i, e)
    }
}

/// On failure every `[error]` line of `sbt compile` output is shown: the
/// text of each line read as an error stands whole in the summary.
pub proof fn law_compile_summary_shows_every_error(output: Seq<char>, i: int, e: Seq<char>)
    requires
        0 <= i < lines(output).len(),
        compile_line_kind(trim(lines(output)[i])) == CompileLineView::Error(e),
    ensures
        contains(sbt_compile_summary(output), e),
{
    let es = lines(output).map_values(|l: Seq<char>| compile_line_kind(trim(l)));
    let t = trim(lines(output)[i]);
    assert(es[i] == CompileLineView::Error(e));
    let k = lemma_compile_error_collected(es, i, e);
    lemma_trim_last(lines(output)[i]);
    assert(e == strip_or_keep(t, ERROR_MARK@));
    assert(e.len() > 0);
    if starts_with(t, ERROR_MARK@) {
        assert(e.last() == t.last());
    }
    law_compile_report_lists_every_error(compile_tally(es), k);
}

/// A report without errors is a single line.
pub proof fn law_compile_success_is_one_line(t: CompileTally)
    requires
        t.errors.len() == 0,
    ensures
        single_line(compile_report(t)),
{
    reveal_strlit("sbt compile: ");
    reveal_strlit(" sources");
    reveal_strlit("Success");
    reveal_strlit(" (");
    reveal_strlit("s)");
    reveal_strlit("sbt compile: Success");
    if t.has_success || t.sources > 0 {
        lemma_decimal_digits(t.sources as nat);
        lemma_single_line_concat(decimal(t.sources as nat), " sources"@);
        let middle = if t.sources > 0 {
            decimal(t.sources as nat) + " sources"@
        } else {
            "Success"@
        };
        lemma_single_line_concat("sbt compile: "@, middle);
        let time = match t.total_time {
            Some(s) => " ("@ + decimal(s as nat) + "s)"@,
            None => Seq::<char>::empty(),
        };
        if let Some(s) = t.total_time {
            lemma_decimal_digits(s as nat);
            lemma_single_line_concat(" ("@, decimal(s as nat));
            lemma_single_line_concat(" ("@ + decimal(s as nat), "s)"@);
        }
        lemma_single_line_concat("sbt compile: "@ + middle, time);
        assert(compile_report(t) == "sbt compile: "@ + middle + time);
    }
}

/// The total of the source counts announced by `es`.
pub open spec fn source_total(es: Seq<CompileLineView>) -> nat
    decreases es.len(),
{
    if es.len() == 0 {
        0
    } else {
        source_total(es.drop_last()) + match es.last() {
            CompileLineView::SourceCount(n) => n as nat,
            _ => 0nat,
        }
    }
}

/// The source counts add up: the reported number of sources is their total,
/// taken modulo 2^32 as a `u32` sum wraps around.
pub proof fn law_compile_sources_add_up(es: Seq<CompileLineView>)
    ensures
        compile_tally(es).sources == source_total(es) % 0x1_0000_0000,
        source_total(es) <= u32::MAX ==> compile_tally(es).sources == source_total(es),
    decreases es.len(),
{
    if es.len() > 0 {
        law_compile_sources_add_up(es.drop_last());
        let prev = source_total(es.drop_last());
        if let CompileLineView::SourceCount(n) = es.last() {
            lemma_add_mod_noop(prev as int, n as int, 0x1_0000_0000);
            lemma_small_mod(n as nat, 0x1_0000_0000);
        }
    }
    if source_total(es) <= u32::MAX {
        lemma_small_mod(source_total(es), 0x1_0000_0000);
    }
}


/// Every error line of the tally stands in the report after its number:
/// the `k`-th (from 0) as `k + 1`, `. ` and the line, whole.
pub proof fn law_compile_report_numbers_every_error(t: CompileTally, k: int)
    requires
        0 <= k < t.errors.len(),
        t.errors[k].len() > 0,
        !is_white_space(t.errors[k].last()),
    ensures
        contains(compile_report(t), decimal((k + 1) as nat) + ". "@ + t.errors[k]),
{
    reveal_strlit("sbt compile: ");
    reveal_strlit(". ");
    assert(". "@ =~= seq!['.', ' ']);
    let h = compile_error_heading(t.errors.len());
    let x = compile_error_report(t.errors);
    let p = lemma_numbered_entry(t.errors, k);
    let e = decimal((k + 1) as nat) + seq!['.', ' '] + t.errors[k];
    assert(x.subrange(h.len() + p, h.len() + p + e.len()) =~= numbered(t.errors).subrange(
        p,
        p + e.len(),
    ));
    assert(occurs_at(x, e, h.len() + p));
    assert(x[0] == 's');
    assert(e.last() == t.errors[k].last());
    lemma_trim_keeps_occurrence(x, e, h.len() + p);
}

/// The report opens with what happened: with errors, their number; else
/// the number of sources compiled, or `Success` where none were announced;
/// a success line's time closes the line.
pub proof fn law_compile_report_counts(t: CompileTally)
    ensures
        t.errors.len() > 0 ==> starts_with(
            compile_report(t),
            "sbt compile: "@ + decimal(t.errors.len()) + " errors"@,
        ),
        t.errors.len() == 0 && t.sources > 0 ==> starts_with(
            compile_report(t),
            "sbt compile: "@ + decimal(t.sources as nat) + " sources"@,
        ),
        t.errors.len() == 0 && t.sources == 0 ==> starts_with(compile_report(t), "sbt compile: Success"@),
        t.errors.len() == 0 && t.has_success && t.total_time is Some ==> ({
            let tail = " ("@ + decimal(t.total_time->0 as nat) + "s)"@;
            compile_report(t).len() >= tail.len() && compile_report(t).skip(
                compile_report(t).len() - tail.len(),
            ) == tail
        }),
{
    reveal_strlit("sbt compile: ");
    reveal_strlit(" errors");
    reveal_strlit(" errors\n");
    reveal_strlit("sbt compile: Success");
    reveal_strlit("Success");
    if t.errors.len() > 0 {
        let head = "sbt compile: "@ + decimal(t.errors.len()) + " errors"@;
        let x = compile_error_report(t.errors);
        let rest = x.skip(head.len() as int);
        assert(x =~= head + rest);
        assert(head[0] == 's');
        assert(head.last() == 's');
        lemma_trim_keeps_prefix(head, rest);
    } else if t.has_success || t.sources > 0 {
        let x = compile_success_line(t);
        if t.sources > 0 {
            let head = "sbt compile: "@ + decimal(t.sources as nat) + " sources"@;
            assert(x.take(head.len() as int) =~= head);
        } else {
            assert(x.take(20) =~= "sbt compile: Success"@);
        }
        if let Some(s) = t.total_time {
            let tail = " ("@ + decimal(s as nat) + "s)"@;
            assert(x.skip(x.len() - tail.len()) =~= tail);
        }
    } else {
        assert("sbt compile: Success"@.take(20) =~= "sbt compile: Success"@);
    }
}

/// The time of the tally is that of the last success line.
pub proof fn law_compile_time_is_last(es: Seq<CompileLineView>, i: int, r: Option<u32>)
    requires
        0 <= i < es.len(),
        es[i] == CompileLineView::Success(r),
        forall|j: int| i < j < es.len() ==> !(#[trigger] es[j] is Success),
    ensures
        compile_tally(es).total_time == r,
        compile_tally(es).has_success,
    decreases es.len(),
{
    if i < es.len() - 1 {
        assert(!(es[es.len() - 1] is Success));
        assert(es.drop_last()[i] == es[i]);
        assert forall|j: int| i < j < es.drop_last().len() implies !(
        #[trigger] es.drop_last()[j] is Success) by {
            assert(es.drop_last()[j] == es[j]);
        }
        law_compile_time_is_last(es.drop_last(), i, r);
    }
}

/// What a compile line says, read for its numbers: an announcement whose
/// group is the numeral of `n` counts `n` sources; a success line whose group
/// is the numeral of `n` took `n` seconds; an error line gives its text after
/// the mark.
pub proof fn law_compile_line_numbers(t: Seq<char>, g: Seq<Seq<char>>, n: u32)
    requires
        g.len() >= 2,
        g[1] == decimal(n as nat),
    ensures
        caps(COMPILE_COUNT_PATTERN, t) == Some(g) ==> compile_line_kind(t)
            == CompileLineView::SourceCount(n),
        caps(COMPILE_COUNT_PATTERN, t) is None && caps(SUCCESS_TIME_PATTERN, t) == Some(g)
            ==> compile_line_kind(t) == CompileLineView::Success(Some(n)),
        caps(COMPILE_COUNT_PATTERN, t) is None && caps(SUCCESS_TIME_PATTERN, t) is None && caps(
            ERROR_PATTERN,
            t,
        ) is Some && starts_with(t, "[error] "@) && t.len() > "[error] "@.len()
            ==> compile_line_kind(t) == CompileLineView::Error(t.skip("[error] "@.len() as int)),
        caps(COMPILE_COUNT_PATTERN, t) is None && caps(SUCCESS_TIME_PATTERN, t) is None && caps(
            ERROR_PATTERN,
            t,
        ) is None ==> compile_line_kind(t) == CompileLineView::Other,
{
    law_decimal_reads_back(n as nat);
}

} // verus!

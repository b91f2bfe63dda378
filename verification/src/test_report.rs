//! The summary of `sbt test` output (ScalaTest's format).

use vstd::prelude::*;
use crate::layout::{
    first_n, lemma_listed_position, line_views, listed, push_listed, push_rule, rule_line, LINE_WIDTH,
};
use crate::pattern::group_text;
use crate::sbt_patterns::{
    SbtPatterns, caps, count_or_zero, group_count, group_number, strip_error_mark,
    TEST_SUMMARY_PATTERN, SUITE_SUMMARY_PATTERN, RUN_TIME_PATTERN, ERROR_PATTERN, ERROR_MARK,
};
use crate::text::{
    chars_of, contains, contains_chars, decimal, lines, line_ranges, parse_u32, pieces, push_decimal,
    push_str, string_from_chars, strip_or_keep, trim, trim_chars, trimmed_string, single_line,
    lemma_single_line_concat, is_white_space, truncated, lemma_trim_keeps_occurrence, lemma_trim_last,
    occurs_at, starts_with, lemma_occurs_in_concat, lemma_decimal_digits, lemma_trim_keeps_prefix,
    law_decimal_reads_back,
};

verus! {

/// What one line of `sbt test` output tells.
pub enum TestLine {
    /// The summary: how many tests succeeded, failed, were canceled, ignored and pending.
    Summary { succeeded: u32, failed: u32, canceled: u32, ignored: u32, pending: u32 },
    /// How many suites completed.
    SuiteCount(u32),
    /// How many seconds the run took, where the number parses.
    RunTime(Option<u32>),
    /// A test reported as failed: the whole line.
    Failure(String),
    /// An error line: its text after the `[error] ` mark.
    Error(String),
    /// Anything else.
    Other,
}

/// The meaning of a `TestLine`, its texts as sequences.
pub enum TestLineView {
    Summary { succeeded: u32, failed: u32, canceled: u32, ignored: u32, pending: u32 },
    SuiteCount(u32),
    RunTime(Option<u32>),
    Failure(Seq<char>),
    Error(Seq<char>),
    Other,
}

impl View for TestLine {
    type V = TestLineView;

    open spec fn view(&self) -> TestLineView {
        match self {
            TestLine::Summary { succeeded, failed, canceled, ignored, pending } => TestLineView::Summary {
                succeeded: *succeeded,
                failed: *failed,
                canceled: *canceled,
                ignored: *ignored,
                pending: *pending,
            },
            TestLine::SuiteCount(n) => TestLineView::SuiteCount(*n),
            TestLine::RunTime(t) => TestLineView::RunTime(*t),
            TestLine::Failure(l) => TestLineView::Failure(l@),
            TestLine::Error(l) => TestLineView::Error(l@),
            TestLine::Other => TestLineView::Other,
        }
    }
}

/// The mark of a failed test in ScalaTest's output.
pub const FAILED_MARK: &'static str = "*** FAILED ***";

/// What the trimmed line `t` tells, tried in this order: the summary, the
/// suite count, the run time, a failed test, an error with some text.
pub open spec fn test_line_kind(t: Seq<char>) -> TestLineView {
    if let Some(g) = caps(TEST_SUMMARY_PATTERN, t) {
        TestLineView::Summary {
            succeeded: count_or_zero(g, 1),
            failed: count_or_zero(g, 2),
            canceled: count_or_zero(g, 3),
            ignored: count_or_zero(g, 4),
            pending: count_or_zero(g, 5),
        }
    } else if let Some(g) = caps(SUITE_SUMMARY_PATTERN, t) {
        TestLineView::SuiteCount(count_or_zero(g, 1))
    } else if let Some(g) = caps(RUN_TIME_PATTERN, t) {
        TestLineView::RunTime(parse_u32(group_text(g, 1)))
    } else if contains(t, FAILED_MARK@) {
        TestLineView::Failure(t)
    } else if caps(ERROR_PATTERN, t) is Some && strip_or_keep(t, ERROR_MARK@).len() > 0 {
        TestLineView::Error(strip_or_keep(t, ERROR_MARK@))
    } else {
        TestLineView::Other
    }
}

/// What has been gathered from the lines read so far.
pub struct TestTally {
    pub succeeded: u32,
    pub failed: u32,
    pub canceled: u32,
    pub ignored: u32,
    pub pending: u32,
    pub suites: u32,
    pub run_time: Option<u32>,
    pub has_summary: bool,
    pub failures: Seq<Seq<char>>,
    pub errors: Seq<Seq<char>>,
}

/// Nothing gathered yet.
pub open spec fn empty_test_tally() -> TestTally {
    TestTally {
        succeeded: 0,
        failed: 0,
        canceled: 0,
        ignored: 0,
        pending: 0,
        suites: 0,
        run_time: None,
        has_summary: false,
        failures: Seq::empty(),
        errors: Seq::empty(),
    }
}

/// The tally after one more line: a later summary, suite count or run time
/// replaces an earlier one; failures and errors are kept in order.
pub open spec fn test_step(t: TestTally, e: TestLineView) -> TestTally {
    match e {
        TestLineView::Summary { succeeded, failed, canceled, ignored, pending } => TestTally {
            succeeded,
            failed,
            canceled,
            ignored,
            pending,
            has_summary: true,
            ..t
        },
        TestLineView::SuiteCount(n) => TestTally { suites: n, ..t },
        TestLineView::RunTime(r) => TestTally { run_time: r, ..t },
        TestLineView::Failure(l) => TestTally { failures: t.failures.push(l), ..t },
        TestLineView::Error(l) => TestTally { errors: t.errors.push(l), ..t },
        TestLineView::Other => t,
    }
}

/// The tally of a sequence of lines.
pub open spec fn test_tally(es: Seq<TestLineView>) -> TestTally
    decreases es.len(),
{
    if es.len() == 0 {
        empty_test_tally()
    } else {
        test_step(test_tally(es.drop_last()), es.last())
    }
}

/// At most this many error lines are listed.
pub const MAX_TEST_ERRORS: usize = 20;

/// The run time as `Ns`, or nothing.
pub open spec fn time_text(t: TestTally) -> Seq<char> {
    match t.run_time {
        Some(s) => decimal(s as nat).push('s'),
        None => Seq::empty(),
    }
}

/// `, N word` where `n` is above zero, else nothing.
pub open spec fn optional_count(n: u32, word: Seq<char>) -> Seq<char> {
    if n > 0 {
        ", "@ + decimal(n as nat) + word
    } else {
        Seq::empty()
    }
}

/// The one-line report of a run in which nothing failed or was canceled.
pub open spec fn passed_line(t: TestTally) -> Seq<char> {
    let time = time_text(t);
    "sbt test: "@ + decimal(t.succeeded as nat) + " passed"@ + optional_count(
        t.ignored,
        " ignored"@,
    ) + optional_count(t.pending, " pending"@) + (if t.suites > 0 {
        " ("@ + decimal(t.suites as nat) + " suites"@
    } else {
        Seq::empty()
    }) + (if time.len() > 0 {
        if t.suites > 0 {
            ", "@ + time
        } else {
            " ("@ + time + seq![')']
        }
    } else {
        Seq::empty()
    }) + (if t.suites > 0 {
        seq![')']
    } else {
        Seq::empty()
    })
}

/// The report of a run with failures, before it is trimmed.
pub open spec fn failed_report(t: TestTally) -> Seq<char> {
    let time = time_text(t);
    "sbt test: "@ + decimal(t.succeeded as nat) + " passed, "@ + decimal(t.failed as nat)
        + " failed"@ + optional_count(t.ignored, " ignored"@) + (if time.len() > 0 {
        " ("@ + time + seq![')']
    } else {
        Seq::empty()
    }) + seq!['\n'] + rule_line() + listed(t.failures, "  [FAIL] "@) + (if t.errors.len() > 0 {
        seq!['\n'] + listed(first_n(t.errors, MAX_TEST_ERRORS as nat), "  "@)
    } else {
        Seq::empty()
    })
}

/// The report of output with error lines but no summary, before it is trimmed.
pub open spec fn parse_error_report(t: TestTally) -> Seq<char> {
    "sbt test: parse error\n"@ + rule_line() + listed(first_n(t.errors, MAX_TEST_ERRORS as nat), "  "@)
}

/// The summary of `sbt test` output whose lines tally to `t`.
pub open spec fn test_report(t: TestTally, output: Seq<char>) -> Seq<char> {
    if !t.has_summary {
        if t.errors.len() > 0 {
            trim(parse_error_report(t))
        } else if trim(output).len() == 0 {
            "sbt test: No test output"@
        } else {
            output
        }
    } else if t.failed == 0 && t.canceled == 0 {
        passed_line(t)
    } else {
        trim(failed_report(t))
    }
}

/// The meanings of some test lines.
pub open spec fn test_line_views(es: Seq<TestLine>) -> Seq<TestLineView> {
    es.map_values(|e: TestLine| e@)
}

/// The summary of the `sbt test` output `output`.
pub open spec fn sbt_test_summary(output: Seq<char>) -> Seq<char> {
    test_report(
        test_tally(lines(output).map_values(|l: Seq<char>| test_line_kind(trim(l)))),
        output,
    )
}


/// What the trimmed line `t` (whose characters are `tc`) tells.
fn classify_trimmed_test_line(patterns: &SbtPatterns, t: String, tc: Vec<char>) -> (res: TestLine)
    requires
        t@ == tc@,
    ensures
        res@ == test_line_kind(t@),
{
    if let Some(g) = patterns.test_summary(t.as_str()) {
        return TestLine::Summary {
            succeeded: group_count(&g, 1),
            failed: group_count(&g, 2),
            canceled: group_count(&g, 3),
            ignored: group_count(&g, 4),
            pending: group_count(&g, 5),
        };
    }
    if let Some(g) = patterns.suite_summary(t.as_str()) {
        return TestLine::SuiteCount(group_count(&g, 1));
    }
    if let Some(g) = patterns.run_time(t.as_str()) {
        return TestLine::RunTime(group_number(&g, 1));
    }
    let mark = chars_of(FAILED_MARK);
    if contains_chars(tc.as_slice(), mark.as_slice()) {
        return TestLine::Failure(t);
    }
    if patterns.is_error(t.as_str()) {
        let rest = strip_error_mark(&tc);
        if rest.len() > 0 {
            return TestLine::Error(string_from_chars(rest.as_slice()));
        }
    }
    TestLine::Other
}

/// What one line of `sbt test` output tells, once trimmed.
pub fn classify_test_line(patterns: &SbtPatterns, line: &str) -> (res: TestLine)
    ensures
        res@ == test_line_kind(trim(line@)),
{
    let cs = chars_of(line);
    let tc = trim_chars(cs.as_slice(), 0, cs.len());
    assert(cs@.subrange(0, cs@.len() as int) =~= cs@);
    let t = string_from_chars(tc.as_slice());
    classify_trimmed_test_line(patterns, t, tc)
}


/// The tally kept while reading `sbt test` output.
struct TestState {
    succeeded: u32,
    failed: u32,
    canceled: u32,
    ignored: u32,
    pending: u32,
    suites: u32,
    run_time: Option<u32>,
    has_summary: bool,
    failures: Vec<Vec<char>>,
    errors: Vec<Vec<char>>,
}

impl View for TestState {
    type V = TestTally;

    closed spec fn view(&self) -> TestTally {
        TestTally {
            succeeded: self.succeeded,
            failed: self.failed,
            canceled: self.canceled,
            ignored: self.ignored,
            pending: self.pending,
            suites: self.suites,
            run_time: self.run_time,
            has_summary: self.has_summary,
            failures: line_views(self.failures@),
            errors: line_views(self.errors@),
        }
    }
}

impl TestState {
    fn new() -> (res: Self)
        ensures
            res@ == empty_test_tally(),
    {
        let res = TestState {
            succeeded: 0,
            failed: 0,
            canceled: 0,
            ignored: 0,
            pending: 0,
            suites: 0,
            run_time: None,
            has_summary: false,
            failures: Vec::new(),
            errors: Vec::new(),
        };
        assert(res@.failures =~= Seq::<Seq<char>>::empty());
        assert(res@.errors =~= Seq::<Seq<char>>::empty());
        res
    }

    fn step(&mut self, e: &TestLine)
        ensures
            final(self)@ == test_step(old(self)@, e@),
    {
        match e {
            TestLine::Summary { succeeded, failed, canceled, ignored, pending } => {
                self.succeeded = *succeeded;
                self.failed = *failed;
                self.canceled = *canceled;
                self.ignored = *ignored;
                self.pending = *pending;
                self.has_summary = true;
            },
            TestLine::SuiteCount(n) => {
                self.suites = *n;
            },
            TestLine::RunTime(r) => {
                self.run_time = *r;
            },
            TestLine::Failure(l) => {
                let ghost before = self.failures@;
                self.failures.push(chars_of(l.as_str()));
                assert(line_views(self.failures@) =~= line_views(before).push(l@));
            },
            TestLine::Error(l) => {
                let ghost before = self.errors@;
                self.errors.push(chars_of(l.as_str()));
                assert(line_views(self.errors@) =~= line_views(before).push(l@));
            },
            TestLine::Other => {},
        }
    }
}

/// Appends `, N word` where `n` is above zero.
fn push_optional_count(out: &mut Vec<char>, n: u32, word: &str)
    ensures
        final(out)@ == old(out)@ + optional_count(n, word@),
{
    let ghost start = out@;
    if n > 0 {
        push_str(out, ", ");
        push_decimal(out, n as u64);
        push_str(out, word);
        assert(out@ =~= start + (", "@ + decimal(n as nat) + word@));
    } else {
        assert(out@ =~= start + Seq::<char>::empty());
    }
}

/// Appends the run time as `Ns`, if there is one.
fn push_time(out: &mut Vec<char>, run_time: Option<u32>)
    ensures
        final(out)@ == old(out)@ + time_text(TestTally { run_time, ..empty_test_tally() }),
{
    let ghost start = out@;
    if let Some(s) = run_time {
        push_decimal(out, s as u64);
        out.push('s');
        assert(out@ =~= start + decimal(s as nat).push('s'));
    } else {
        assert(out@ =~= start + Seq::<char>::empty());
    }
}

/// The one-line report of a passing run.
fn passed_line_chars(st: &TestState) -> (res: Vec<char>)
    ensures
        res@ == passed_line(st@),
{
    let ghost t = st@;
    let ghost time = time_text(t);
    assert(time == time_text(TestTally { run_time: st.run_time, ..empty_test_tally() }));
    let mut out: Vec<char> = Vec::new();
    push_str(&mut out, "sbt test: ");
    push_decimal(&mut out, st.succeeded as u64);
    push_str(&mut out, " passed");
    push_optional_count(&mut out, st.ignored, " ignored");
    push_optional_count(&mut out, st.pending, " pending");
    let ghost head = out@;
    assert(head =~= "sbt test: "@ + decimal(t.succeeded as nat) + " passed"@ + optional_count(
        t.ignored,
        " ignored"@,
    ) + optional_count(t.pending, " pending"@));
    let ghost suites_part = if t.suites > 0 {
        " ("@ + decimal(t.suites as nat) + " suites"@
    } else {
        Seq::<char>::empty()
    };
    if st.suites > 0 {
        push_str(&mut out, " (");
        push_decimal(&mut out, st.suites as u64);
        push_str(&mut out, " suites");
    }
    assert(out@ =~= head + suites_part);
    let ghost mid = out@;
    let ghost time_part = if time.len() > 0 {
        if t.suites > 0 {
            ", "@ + time
        } else {
            " ("@ + time + seq![')']
        }
    } else {
        Seq::<char>::empty()
    };
    if st.run_time.is_some() {
        if st.suites > 0 {
            push_str(&mut out, ", ");
        } else {
            push_str(&mut out, " (");
        }
        push_time(&mut out, st.run_time);
        if st.suites == 0 {
            out.push(')');
        }
        assert(out@ =~= mid + time_part);
    } else {
        assert(out@ =~= mid + time_part);
    }
    let ghost late = out@;
    if st.suites > 0 {
        out.push(')');
        assert(out@ =~= late + seq![')']);
    } else {
        assert(out@ =~= late + Seq::<char>::empty());
    }
    out
}

/// The report of a run with failures, before trimming.
fn failed_report_chars(st: &TestState) -> (res: Vec<char>)
    ensures
        res@ == failed_report(st@),
{
    let ghost t = st@;
    let ghost time = time_text(t);
    assert(time == time_text(TestTally { run_time: st.run_time, ..empty_test_tally() }));
    let mut out: Vec<char> = Vec::new();
    push_str(&mut out, "sbt test: ");
    push_decimal(&mut out, st.succeeded as u64);
    push_str(&mut out, " passed, ");
    push_decimal(&mut out, st.failed as u64);
    push_str(&mut out, " failed");
    push_optional_count(&mut out, st.ignored, " ignored");
    let ghost head = out@;
    if st.run_time.is_some() {
        push_str(&mut out, " (");
        push_time(&mut out, st.run_time);
        out.push(')');
        assert(out@ =~= head + (" ("@ + time + seq![')']));
    } else {
        assert(out@ =~= head + Seq::<char>::empty());
    }
    let ghost with_time = out@;
    out.push('\n');
    push_rule(&mut out);
    push_listed(&mut out, &st.failures, st.failures.len(), "  [FAIL] ");
    assert(line_views(st.failures@).take(st.failures@.len() as int) =~= t.failures);
    let ghost body = out@;
    let ghost error_part = if t.errors.len() > 0 {
        seq!['\n'] + listed(first_n(t.errors, MAX_TEST_ERRORS as nat), "  "@)
    } else {
        Seq::<char>::empty()
    };
    if st.errors.len() > 0 {
        out.push('\n');
        let n = if st.errors.len() <= MAX_TEST_ERRORS {
            st.errors.len()
        } else {
            MAX_TEST_ERRORS
        };
        push_listed(&mut out, &st.errors, n, "  ");
        assert(line_views(st.errors@).take(n as int) =~= first_n(t.errors, MAX_TEST_ERRORS as nat));
        assert(out@ =~= body + error_part);
    } else {
        assert(out@ =~= body + error_part);
    }
    assert(out@ =~= failed_report(t));
    out
}

/// The report of output with errors but no summary, before trimming.
fn parse_error_report_chars(st: &TestState) -> (res: Vec<char>)
    ensures
        res@ == parse_error_report(st@),
{
    let mut out: Vec<char> = Vec::new();
    push_str(&mut out, "sbt test: parse error\n");
    push_rule(&mut out);
    let n = if st.errors.len() <= MAX_TEST_ERRORS {
        st.errors.len()
    } else {
        MAX_TEST_ERRORS
    };
    push_listed(&mut out, &st.errors, n, "  ");
    assert(line_views(st.errors@).take(n as int) =~= first_n(st@.errors, MAX_TEST_ERRORS as nat));
    out
}

/// The summary of `sbt test` output whose lines tell `events`; `output` is
/// the text itself, given back where it holds neither a summary nor an error.
pub fn render_test_report(events: &Vec<TestLine>, output: &str) -> (res: String)
    ensures
        res@ == test_report(test_tally(test_line_views(events@)), output@),
{
    let mut st = TestState::new();
    let ghost views = test_line_views(events@);
    assert(views.take(0) =~= Seq::<TestLineView>::empty());
    for k in 0..events.len()
        invariant
            views == test_line_views(events@),
            st@ == test_tally(views.take(k as int)),
    {
        st.step(&events[k]);
        assert(views.take(k + 1).drop_last() =~= views.take(k as int));
    }
    assert(views.take(events@.len() as int) =~= views);
    if !st.has_summary {
        if st.errors.len() > 0 {
            let out = parse_error_report_chars(&st);
            return trimmed_string(&out);
        }
        let oc = chars_of(output);
        let tc = trim_chars(oc.as_slice(), 0, oc.len());
        assert(oc@.subrange(0, oc@.len() as int) =~= oc@);
        if tc.len() == 0 {
            return "sbt test: No test output".to_owned();
        }
        return output.to_owned();
    }
    if st.failed == 0 && st.canceled == 0 {
        let out = passed_line_chars(&st);
        return string_from_chars(out.as_slice());
    }
    let out = failed_report_chars(&st);
    trimmed_string(&out)
}


/// Filters `sbt test` output (ScalaTest's format) down to a summary.
///
/// When every test passed: one compact line. When some failed: the counts,
/// then the failed tests and the error lines.
pub fn filter_sbt_test(output: &str) -> (res: String)
    ensures
        res@ == sbt_test_summary(output@),
{
    let patterns = SbtPatterns::new();
    filter_sbt_test_with(&patterns, output)
}

/// The same filter with patterns compiled beforehand, for callers that
/// filter many outputs.
pub fn filter_sbt_test_with(patterns: &SbtPatterns, output: &str) -> (res: String)
    ensures
        res@ == sbt_test_summary(output@),
{
    let text = chars_of(output);
    let ranges = line_ranges(text.as_slice());
    let ghost ls = lines(text@);
    let mut events: Vec<TestLine> = Vec::new();
    for k in 0..ranges.len()
        invariant
            pieces(text@, ranges@) == ls,
            forall|j: int| 0 <= j < ranges@.len() ==> (#[trigger] ranges@[j]).0 <= ranges@[j].1 <= text@.len(),
            events@.len() == k,
            forall|i: int| 0 <= i < k ==> (#[trigger] events@[i])@ == test_line_kind(trim(ls[i])),
    {
        let (a, b) = ranges[k];
        assert(ls[k as int] == text@.subrange(a as int, b as int));
        let tc = trim_chars(text.as_slice(), a, b);
        let t = string_from_chars(tc.as_slice());
        let e = classify_trimmed_test_line(patterns, t, tc);
        events.push(e);
    }
    assert(test_line_views(events@) =~= ls.map_values(|l: Seq<char>| test_line_kind(trim(l))));
    render_test_report(&events, output)
}


proof fn lemma_decimal_single_line(n: nat)
    ensures
        single_line(decimal(n)),
{
    crate::text::lemma_decimal_digits(n);
}

proof fn lemma_optional_count_single_line(n: u32, word: Seq<char>)
    requires
        single_line(word),
    ensures
        single_line(optional_count(n, word)),
{
    if n > 0 {
        reveal_strlit(", ");
        lemma_decimal_single_line(n as nat);
        lemma_single_line_concat(", "@, decimal(n as nat));
        lemma_single_line_concat(", "@ + decimal(n as nat), word);
    }
}

/// When the summary says that nothing failed and nothing was canceled, the
/// report is a single line.
pub proof fn law_passing_report_is_one_line(t: TestTally, output: Seq<char>)
    requires
        t.has_summary,
        t.failed == 0,
        t.canceled == 0,
    ensures
        single_line(test_report(t, output)),
{
    reveal_strlit("sbt test: ");
    reveal_strlit(" passed");
    reveal_strlit(" ignored");
    reveal_strlit(" pending");
    reveal_strlit(" (");
    reveal_strlit(" suites");
    reveal_strlit(", ");
    let time = time_text(t);
    lemma_decimal_single_line(t.succeeded as nat);
    lemma_decimal_single_line(t.suites as nat);
    if let Some(s) = t.run_time {
        lemma_decimal_single_line(s as nat);
        lemma_single_line_concat(decimal(s as nat), seq!['s']);
        assert(time =~= decimal(s as nat) + seq!['s']);
    }
    lemma_optional_count_single_line(t.ignored, " ignored"@);
    lemma_optional_count_single_line(t.pending, " pending"@);
    let p1 = "sbt test: "@ + decimal(t.succeeded as nat) + " passed"@;
    lemma_single_line_concat("sbt test: "@, decimal(t.succeeded as nat));
    lemma_single_line_concat("sbt test: "@ + decimal(t.succeeded as nat), " passed"@);
    let p2 = p1 + optional_count(t.ignored, " ignored"@);
    lemma_single_line_concat(p1, optional_count(t.ignored, " ignored"@));
    let p3 = p2 + optional_count(t.pending, " pending"@);
    lemma_single_line_concat(p2, optional_count(t.pending, " pending"@));
    let sp = if t.suites > 0 {
        " ("@ + decimal(t.suites as nat) + " suites"@
    } else {
        Seq::<char>::empty()
    };
    lemma_single_line_concat(" ("@, decimal(t.suites as nat));
    lemma_single_line_concat(" ("@ + decimal(t.suites as nat), " suites"@);
    lemma_single_line_concat(p3, sp);
    let tp = if time.len() > 0 {
        if t.suites > 0 {
            ", "@ + time
        } else {
            " ("@ + time + seq![')']
        }
    } else {
        Seq::<char>::empty()
    };
    lemma_single_line_concat(", "@, time);
    lemma_single_line_concat(" ("@, time);
    lemma_single_line_concat(" ("@ + time, seq![')']);
    lemma_single_line_concat(p3 + sp, tp);
    let cp = if t.suites > 0 {
        seq![')']
    } else {
        Seq::<char>::empty()
    };
    lemma_single_line_concat(p3 + sp + tp, cp);
    assert(test_report(t, output) == p3 + sp + tp + cp);
}

/// The summary of `sbt test` output is never empty.
pub proof fn law_test_report_never_empty(t: TestTally, output: Seq<char>)
    ensures
        test_report(t, output).len() > 0,
{
    reveal_strlit("sbt test: ");
    reveal_strlit("sbt test: parse error\n");
    reveal_strlit("sbt test: No test output");
    if !t.has_summary {
        if t.errors.len() > 0 {
            let x = parse_error_report(t);
            assert(x[0] == 's');
            crate::text::lemma_trim_keeps_head(x, 0);
        } else {
            crate::text::lemma_trim_len(output);
        }
    } else if t.failed == 0 && t.canceled == 0 {
        assert(passed_line(t)[0] == 's');
    } else {
        let x = failed_report(t);
        assert(x[0] == 's');
        crate::text::lemma_trim_keeps_head(x, 0);
    }
}


/// The counts of the report are those of the last summary line.
pub proof fn law_test_summary_is_last(
    es: Seq<TestLineView>,
    i: int,
    succeeded: u32,
    failed: u32,
    canceled: u32,
    ignored: u32,
    pending: u32,
)
    requires
        0 <= i < es.len(),
        es[i] == (TestLineView::Summary { succeeded, failed, canceled, ignored, pending }),
        forall|j: int| i < j < es.len() ==> !(#[trigger] es[j] is Summary),
    ensures
        test_tally(es).has_summary,
        test_tally(es).succeeded == succeeded,
        test_tally(es).failed == failed,
        test_tally(es).canceled == canceled,
        test_tally(es).ignored == ignored,
        test_tally(es).pending == pending,
    decreases es.len(),
{
    if i < es.len() - 1 {
        assert(!(es[es.len() - 1] is Summary));
        assert(es.drop_last()[i] == es[i]);
        assert forall|j: int| i < j < es.drop_last().len() implies !(
        #[trigger] es.drop_last()[j] is Summary) by {
            assert(es.drop_last()[j] == es[j]);
        }
        law_test_summary_is_last(es.drop_last(), i, succeeded, failed, canceled, ignored, pending);
    }
}

/// Lines with neither a summary nor an error leave the tally without either.
proof fn lemma_no_summary_no_errors(es: Seq<TestLineView>)
    requires
        forall|j: int| 0 <= j < es.len() ==> !(#[trigger] es[j] is Summary) && !(es[j] is Error),
    ensures
        !test_tally(es).has_summary,
        test_tally(es).errors.len() == 0,
    decreases es.len(),
{
    if es.len() > 0 {
        assert(!(es[es.len() - 1] is Summary) && !(es[es.len() - 1] is Error));
        assert forall|j: int| 0 <= j < es.drop_last().len() implies !(
        #[trigger] es.drop_last()[j] is Summary) && !(es.drop_last()[j] is Error) by {
            assert(es.drop_last()[j] == es[j]);
        }
        lemma_no_summary_no_errors(es.drop_last());
    }
}

/// Output with neither a summary nor an error line is given back unchanged,
/// unless it is blank.
pub proof fn law_unrecognised_output_passes_through(es: Seq<TestLineView>, output: Seq<char>)
    requires
        forall|j: int| 0 <= j < es.len() ==> !(#[trigger] es[j] is Summary) && !(es[j] is Error),
    ensures
        test_report(test_tally(es), output) == (if trim(output).len() == 0 {
            "sbt test: No test output"@
        } else {
            output
        }),
{
    lemma_no_summary_no_errors(es);
}

/// Where the `i`-th line is a failed test, its line is among the tally's
/// failures, after the failures of the lines before it.
pub proof fn law_test_failures_kept_in_order(es: Seq<TestLineView>, i: int, e: Seq<char>) -> (k:
    int)
    requires
        0 <= i < es.len(),
        es[i] == TestLineView::Failure(e),
    ensures
        k == test_tally(es.take(i)).failures.len(),
        0 <= k < test_tally(es).failures.len(),
        test_tally(es).failures[k] == e,
    decreases es.len(),
{
    if i == es.len() - 1 {
        assert(es.take(i) =~= es.drop_last());
        test_tally(es.drop_last()).failures.len() as int
    } else {
        assert(es.drop_last()[i] == es[i]);
        assert(es.drop_last().take(i) =~= es.take(i));
        law_test_failures_kept_in_order(es.drop_last(), i, e)
    }
}

/// A report of a run with failures shows every failed test of the tally,
/// marked `[FAIL]` and cut to the line width.
pub proof fn law_test_report_lists_every_failure(t: TestTally, output: Seq<char>, k: int)
    requires
        t.has_summary,
        t.failed > 0 || t.canceled > 0,
        0 <= k < t.failures.len(),
        t.failures[k].len() > 0,
        !is_white_space(t.failures[k].last()),
    ensures
        contains(test_report(t, output), "  [FAIL] "@ + truncated(t.failures[k], LINE_WIDTH as nat)),
{
    reveal_strlit("sbt test: ");
    let lead = "  [FAIL] "@;
    let e = lead + truncated(t.failures[k], LINE_WIDTH as nat);
    let time = time_text(t);
    let head = "sbt test: "@ + decimal(t.succeeded as nat) + " passed, "@ + decimal(t.failed as nat)
        + " failed"@ + optional_count(t.ignored, " ignored"@) + (if time.len() > 0 {
        " ("@ + time + seq![')']
    } else {
        Seq::empty()
    }) + seq!['\n'] + rule_line();
    let tail = if t.errors.len() > 0 {
        seq!['\n'] + listed(first_n(t.errors, MAX_TEST_ERRORS as nat), "  "@)
    } else {
        Seq::empty()
    };
    let x = failed_report(t);
    assert(x =~= head + listed(t.failures, lead) + tail);
    let p = lemma_listed_position(t.failures, lead, k);
    assert(x.subrange(head.len() + p, head.len() + p + e.len()) =~= listed(t.failures, lead).subrange(
        p,
        p + e.len(),
    ));
    assert(x[0] == 's');
    let f = t.failures[k];
    if f.len() <= LINE_WIDTH {
        assert(e.last() == f.last());
    } else {
        assert(e.last() == '.');
    }
    lemma_trim_keeps_occurrence(x, e, head.len() + p);
}

/// On failure every failed test is shown: the line of each test that
/// `sbt test` output reports as failed stands in the summary, marked
/// `[FAIL]` and cut to the line width.
pub proof fn law_test_summary_shows_every_failure(output: Seq<char>, i: int, e: Seq<char>)
    requires
        0 <= i < lines(output).len(),
        test_line_kind(trim(lines(output)[i])) == TestLineView::Failure(e),
        test_tally(lines(output).map_values(|l: Seq<char>| test_line_kind(trim(l)))).has_summary,
        test_tally(lines(output).map_values(|l: Seq<char>| test_line_kind(trim(l)))).failed > 0
            || test_tally(lines(output).map_values(|l: Seq<char>| test_line_kind(trim(l)))).canceled
            > 0,
    ensures
        contains(sbt_test_summary(output), "  [FAIL] "@ + truncated(e, LINE_WIDTH as nat)),
        e.len() <= 120 ==> contains(sbt_test_summary(output), "  [FAIL] "@ + e),
{
    let es = lines(output).map_values(|l: Seq<char>| test_line_kind(trim(l)));
    assert(es[i] == TestLineView::Failure(e));
    let k = law_test_failures_kept_in_order(es, i, e);
    let t = trim(lines(output)[i]);
    lemma_trim_last(lines(output)[i]);
    reveal_strlit("*** FAILED ***");
    assert(e == t);
    assert(contains(t, FAILED_MARK@));
    assert(t.len() > 0) by {
        assert(FAILED_MARK@.len() > 0);
    }
    law_test_report_lists_every_failure(test_tally(es), output, k);
}


/// The truncated text of an error or failure keeps a non-whitespace end.
proof fn lemma_entry_end(lead: Seq<char>, e: Seq<char>)
    requires
        e.len() > 0,
        !is_white_space(e.last()),
    ensures
        (lead + truncated(e, LINE_WIDTH as nat)).len() > 0,
        !is_white_space((lead + truncated(e, LINE_WIDTH as nat)).last()),
{
    if e.len() <= LINE_WIDTH {
        assert((lead + truncated(e, LINE_WIDTH as nat)).last() == e.last());
    } else {
        assert((lead + truncated(e, LINE_WIDTH as nat)).last() == '.');
    }
}

/// Each of the first `MAX_TEST_ERRORS` error lines of the tally stands in
/// the report, after a two-space lead and cut to the line width, both in the
/// report of a run with failures and in the report of output without a
/// summary.
pub proof fn law_test_report_lists_first_errors(t: TestTally, output: Seq<char>, k: int)
    requires
        t.has_summary ==> t.failed > 0 || t.canceled > 0,
        0 <= k < t.errors.len(),
        k < 20,
        t.errors[k].len() > 0,
        !is_white_space(t.errors[k].last()),
    ensures
        contains(test_report(t, output), "  "@ + truncated(t.errors[k], LINE_WIDTH as nat)),
{
    reveal_strlit("sbt test: ");
    reveal_strlit("sbt test: parse error\n");
    let lead = "  "@;
    let shown = first_n(t.errors, MAX_TEST_ERRORS as nat);
    assert(shown[k] == t.errors[k]);
    let e = lead + truncated(t.errors[k], LINE_WIDTH as nat);
    lemma_entry_end(lead, t.errors[k]);
    let p = lemma_listed_position(shown, lead, k);
    let l = listed(shown, lead);
    if t.has_summary {
        let time = time_text(t);
        let head = "sbt test: "@ + decimal(t.succeeded as nat) + " passed, "@ + decimal(
            t.failed as nat,
        ) + " failed"@ + optional_count(t.ignored, " ignored"@) + (if time.len() > 0 {
            " ("@ + time + seq![')']
        } else {
            Seq::empty()
        }) + seq!['\n'] + rule_line() + listed(t.failures, "  [FAIL] "@) + seq!['\n'];
        let x = failed_report(t);
        assert(x =~= head + l);
        assert(x.subrange(head.len() + p, head.len() + p + e.len()) =~= l.subrange(p, p + e.len()));
        assert(x[0] == 's');
        lemma_trim_keeps_occurrence(x, e, head.len() + p);
    } else {
        let head = "sbt test: parse error\n"@ + rule_line();
        let x = parse_error_report(t);
        assert(x =~= head + l);
        assert(x.subrange(head.len() + p, head.len() + p + e.len()) =~= l.subrange(p, p + e.len()));
        assert(x[0] == 's');
        lemma_trim_keeps_occurrence(x, e, head.len() + p);
    }
}

/// Where the `i`-th line is an error line, its text is among the tally's
/// errors, after the errors of the lines before it.
pub proof fn law_test_errors_kept_in_order(es: Seq<TestLineView>, i: int, e: Seq<char>) -> (k: int)
    requires
        0 <= i < es.len(),
        es[i] == TestLineView::Error(e),
    ensures
        k == test_tally(es.take(i)).errors.len(),
        0 <= k < test_tally(es).errors.len(),
        test_tally(es).errors[k] == e,
    decreases es.len(),
{
    if i == es.len() - 1 {
        assert(es.take(i) =~= es.drop_last());
        test_tally(es.drop_last()).errors.len() as int
    } else {
        assert(es.drop_last()[i] == es[i]);
        assert(es.drop_last().take(i) =~= es.take(i));
        law_test_errors_kept_in_order(es.drop_last(), i, e)
    }
}

/// On failure, and where there is no summary, each of the first
/// `MAX_TEST_ERRORS` error lines of `sbt test` output is shown, after a
/// two-space lead and cut to the line width.
pub proof fn law_test_summary_shows_first_errors(output: Seq<char>, i: int, e: Seq<char>)
    requires
        0 <= i < lines(output).len(),
        test_line_kind(trim(lines(output)[i])) == TestLineView::Error(e),
        test_tally(lines(output).map_values(|l: Seq<char>| test_line_kind(trim(l)))).has_summary
            ==> test_tally(lines(output).map_values(|l: Seq<char>| test_line_kind(trim(l)))).failed
            > 0 || test_tally(lines(output).map_values(|l: Seq<char>| test_line_kind(trim(l)))).canceled
            > 0,
        test_tally(lines(output).map_values(|l: Seq<char>| test_line_kind(trim(l))).take(i)).errors.len()
            < 20,
    ensures
        contains(sbt_test_summary(output), "  "@ + truncated(e, LINE_WIDTH as nat)),
        e.len() <= 120 ==> contains(sbt_test_summary(output), "  "@ + e),
{
    let es = lines(output).map_values(|l: Seq<char>| test_line_kind(trim(l)));
    assert(es[i] == TestLineView::Error(e));
    let k = law_test_errors_kept_in_order(es, i, e);
    let t = trim(lines(output)[i]);
    lemma_trim_last(lines(output)[i]);
    assert(e == strip_or_keep(t, ERROR_MARK@));
    if starts_with(t, ERROR_MARK@) {
        assert(e.last() == t.last());
    }
    law_test_report_lists_first_errors(test_tally(es), output, k);
}

/// The suite count of the tally is that of the last suite-count line.
pub proof fn law_test_suites_is_last(es: Seq<TestLineView>, i: int, n: u32)
    requires
        0 <= i < es.len(),
        es[i] == TestLineView::SuiteCount(n),
        forall|j: int| i < j < es.len() ==> !(#[trigger] es[j] is SuiteCount),
    ensures
        test_tally(es).suites == n,
    decreases es.len(),
{
    if i < es.len() - 1 {
        assert(!(es[es.len() - 1] is SuiteCount));
        assert(es.drop_last()[i] == es[i]);
        assert forall|j: int| i < j < es.drop_last().len() implies !(
        #[trigger] es.drop_last()[j] is SuiteCount) by {
            assert(es.drop_last()[j] == es[j]);
        }
        law_test_suites_is_last(es.drop_last(), i, n);
    }
}

/// The run time of the tally is that of the last run-time line.
pub proof fn law_test_run_time_is_last(es: Seq<TestLineView>, i: int, r: Option<u32>)
    requires
        0 <= i < es.len(),
        es[i] == TestLineView::RunTime(r),
        forall|j: int| i < j < es.len() ==> !(#[trigger] es[j] is RunTime),
    ensures
        test_tally(es).run_time == r,
    decreases es.len(),
{
    if i < es.len() - 1 {
        assert(!(es[es.len() - 1] is RunTime));
        assert(es.drop_last()[i] == es[i]);
        assert forall|j: int| i < j < es.drop_last().len() implies !(
        #[trigger] es.drop_last()[j] is RunTime) by {
            assert(es.drop_last()[j] == es[j]);
        }
        law_test_run_time_is_last(es.drop_last(), i, r);
    }
}


/// The report of a run in which nothing failed or was canceled opens with
/// the number of tests that passed, and shows every count and the time that
/// is there to show.
pub proof fn law_passing_report_shows_counts(t: TestTally, output: Seq<char>)
    requires
        t.has_summary,
        t.failed == 0,
        t.canceled == 0,
    ensures
        starts_with(test_report(t, output), "sbt test: "@ + decimal(t.succeeded as nat) + " passed"@),
        t.ignored > 0 ==> contains(test_report(t, output), ", "@ + decimal(t.ignored as nat) + " ignored"@),
        t.pending > 0 ==> contains(test_report(t, output), ", "@ + decimal(t.pending as nat) + " pending"@),
        t.suites > 0 ==> contains(test_report(t, output), " ("@ + decimal(t.suites as nat) + " suites"@),
        t.run_time is Some ==> contains(test_report(t, output), decimal(t.run_time->0 as nat).push('s')),
{
    let head = "sbt test: "@ + decimal(t.succeeded as nat) + " passed"@;
    let ign = optional_count(t.ignored, " ignored"@);
    let pen = optional_count(t.pending, " pending"@);
    let time = time_text(t);
    let sp = if t.suites > 0 {
        " ("@ + decimal(t.suites as nat) + " suites"@
    } else {
        Seq::<char>::empty()
    };
    let tp = if time.len() > 0 {
        if t.suites > 0 {
            ", "@ + time
        } else {
            " ("@ + time + seq![')']
        }
    } else {
        Seq::<char>::empty()
    };
    let cp = if t.suites > 0 {
        seq![')']
    } else {
        Seq::<char>::empty()
    };
    let x = test_report(t, output);
    assert(x == head + ign + pen + sp + tp + cp);
    assert(x.take(head.len() as int) =~= head);
    lemma_occurs_in_concat(head, ign, pen + sp + tp + cp);
    assert(x =~= head + ign + (pen + sp + tp + cp));
    lemma_occurs_in_concat(head + ign, pen, sp + tp + cp);
    assert(x =~= (head + ign) + pen + (sp + tp + cp));
    lemma_occurs_in_concat(head + ign + pen, sp, tp + cp);
    assert(x =~= (head + ign + pen) + sp + (tp + cp));
    if let Some(s) = t.run_time {
        assert(time =~= decimal(s as nat).push('s'));
        lemma_decimal_digits(s as nat);
        let pre = head + ign + pen + sp;
        if t.suites > 0 {
            lemma_occurs_in_concat(pre + ", "@, time, cp);
            assert(x =~= (pre + ", "@) + time + cp);
        } else {
            lemma_occurs_in_concat(pre + " ("@, time, seq![')'] + cp);
            assert(x =~= (pre + " ("@) + time + (seq![')'] + cp));
        }
    }
}

/// The report of a run with failures opens with the numbers of tests that
/// passed and failed.
pub proof fn law_failed_report_heading(t: TestTally, output: Seq<char>)
    requires
        t.has_summary,
        t.failed > 0 || t.canceled > 0,
    ensures
        starts_with(
            test_report(t, output),
            "sbt test: "@ + decimal(t.succeeded as nat) + " passed, "@ + decimal(t.failed as nat)
                + " failed"@,
        ),
{
    reveal_strlit("sbt test: ");
    reveal_strlit(" failed");
    let head = "sbt test: "@ + decimal(t.succeeded as nat) + " passed, "@ + decimal(t.failed as nat)
        + " failed"@;
    let x = failed_report(t);
    let rest = x.skip(head.len() as int);
    assert(x =~= head + rest);
    assert(head[0] == 's');
    assert(head.last() == 'd');
    lemma_trim_keeps_prefix(head, rest);
}

/// What a line says, read for its numbers: a summary line whose groups are
/// the numerals of five counts gives those counts; a suite-count line gives
/// its count; a run-time line gives its seconds.
pub proof fn law_test_line_numbers(t: Seq<char>, g: Seq<Seq<char>>, a: u32, b: u32, c: u32, d: u32, e: u32)
    requires
        g.len() >= 6,
        g[1] == decimal(a as nat),
        g[2] == decimal(b as nat),
        g[3] == decimal(c as nat),
        g[4] == decimal(d as nat),
        g[5] == decimal(e as nat),
    ensures
        caps(TEST_SUMMARY_PATTERN, t) == Some(g) ==> test_line_kind(t) == (TestLineView::Summary {
            succeeded: a,
            failed: b,
            canceled: c,
            ignored: d,
            pending: e,
        }),
        caps(TEST_SUMMARY_PATTERN, t) is None && caps(SUITE_SUMMARY_PATTERN, t) == Some(g)
            ==> test_line_kind(t) == TestLineView::SuiteCount(a),
        caps(TEST_SUMMARY_PATTERN, t) is None && caps(SUITE_SUMMARY_PATTERN, t) is None && caps(
            RUN_TIME_PATTERN,
            t,
        ) == Some(g) ==> test_line_kind(t) == TestLineView::RunTime(Some(a)),
{
    law_decimal_reads_back(a as nat);
    law_decimal_reads_back(b as nat);
    law_decimal_reads_back(c as nat);
    law_decimal_reads_back(d as nat);
    law_decimal_reads_back(e as nat);
}

/// A line that no pattern reads and that marks a failed test is a failure,
/// whole; one that marks an error gives its text after the mark; any other
/// line tells nothing.
pub proof fn law_test_line_marks(t: Seq<char>)
    requires
        caps(TEST_SUMMARY_PATTERN, t) is None,
        caps(SUITE_SUMMARY_PATTERN, t) is None,
        caps(RUN_TIME_PATTERN, t) is None,
    ensures
        contains(t, "*** FAILED ***"@) ==> test_line_kind(t) == TestLineView::Failure(t),
        !contains(t, "*** FAILED ***"@) && caps(ERROR_PATTERN, t) is Some && starts_with(t, "[error] "@)
            && t.len() > "[error] "@.len() ==> test_line_kind(t) == TestLineView::Error(
            t.skip("[error] "@.len() as int),
        ),
        !contains(t, "*** FAILED ***"@) && caps(ERROR_PATTERN, t) is None ==> test_line_kind(t)
            == TestLineView::Other,
{
}

} // verus!

//! The patterns by which sbt's console lines are recognised.

use vstd::prelude::*;
use crate::pattern::{Matcher, compiled_from, regex_captures, captures_view, group_text, search};
use crate::text::{chars_from, chars_of, parse_u32, parse_u32_chars, starts_with_at, strip_or_keep};

verus! {

/// ScalaTest's summary line: `Tests: succeeded N, failed N, canceled N, ignored N, pending N`.
pub const TEST_SUMMARY_PATTERN: &'static str =
    "Tests: succeeded (\\d+), failed (\\d+), canceled (\\d+), ignored (\\d+), pending (\\d+)";

/// ScalaTest's suite count: `Suites: completed N, aborted N`.
pub const SUITE_SUMMARY_PATTERN: &'static str = "Suites: completed (\\d+), aborted (\\d+)";

/// ScalaTest's timing line: `Run completed in N seconds`.
pub const RUN_TIME_PATTERN: &'static str = "Run completed in (\\d+) seconds?";

/// sbt's compile announcement: `[info] Compiling N Scala source(s)`.
pub const COMPILE_COUNT_PATTERN: &'static str = "\\[info\\] Compiling (\\d+) Scala source";

/// sbt's success line: `[success] Total time: N s`.
pub const SUCCESS_TIME_PATTERN: &'static str = "\\[success\\] Total time: (\\d+) s";

/// A line that sbt marks as an error.
pub const ERROR_PATTERN: &'static str = "^\\[error\\]";

/// sbt's own start-up chatter (loading, resolving, downloading and the like).
pub const NOISE_PATTERN: &'static str =
    "^\\[info\\] (welcome to sbt|loading |set current project|Updating |Resolved |Fetching |downloading |Done )";

/// The patterns, each compiled once.
pub struct SbtPatterns {
    test_summary: Option<Matcher>,
    suite_summary: Option<Matcher>,
    run_time: Option<Matcher>,
    compile_count: Option<Matcher>,
    success_time: Option<Matcher>,
    error: Option<Matcher>,
    noise: Option<Matcher>,
}

/// Capture groups of `pattern` in the line `t`.
pub open spec fn caps(pattern: &str, t: Seq<char>) -> Option<Seq<Seq<char>>> {
    regex_captures(pattern@, t)
}

/// The number in group `i`, or 0 where it does not parse (`parse().unwrap_or(0)`).
pub open spec fn count_or_zero(groups: Seq<Seq<char>>, i: int) -> u32 {
    match parse_u32(group_text(groups, i)) {
        Some(n) => n,
        None => 0,
    }
}

impl SbtPatterns {
    /// Each matcher is the one compiled from its pattern.
    #[verifier::type_invariant]
    spec fn wf(&self) -> bool {
        &&& compiled_from(self.test_summary, TEST_SUMMARY_PATTERN@)
        &&& compiled_from(self.suite_summary, SUITE_SUMMARY_PATTERN@)
        &&& compiled_from(self.run_time, RUN_TIME_PATTERN@)
        &&& compiled_from(self.compile_count, COMPILE_COUNT_PATTERN@)
        &&& compiled_from(self.success_time, SUCCESS_TIME_PATTERN@)
        &&& compiled_from(self.error, ERROR_PATTERN@)
        &&& compiled_from(self.noise, NOISE_PATTERN@)
    }

    /// Compiles every pattern.
    pub fn new() -> (res: Self) {
        SbtPatterns {
            test_summary: Matcher::compile(TEST_SUMMARY_PATTERN),
            suite_summary: Matcher::compile(SUITE_SUMMARY_PATTERN),
            run_time: Matcher::compile(RUN_TIME_PATTERN),
            compile_count: Matcher::compile(COMPILE_COUNT_PATTERN),
            success_time: Matcher::compile(SUCCESS_TIME_PATTERN),
            error: Matcher::compile(ERROR_PATTERN),
            noise: Matcher::compile(NOISE_PATTERN),
        }
    }

    /// Searches `line` for the ScalaTest summary.
    pub fn test_summary(&self, line: &str) -> (res: Option<Vec<String>>)
        ensures
            captures_view(res) == caps(TEST_SUMMARY_PATTERN, line@),
    {
        proof {
            use_type_invariant(self);
        }
        search(&self.test_summary, Ghost(TEST_SUMMARY_PATTERN@), line)
    }

    /// Searches `line` for the suite count.
    pub fn suite_summary(&self, line: &str) -> (res: Option<Vec<String>>)
        ensures
            captures_view(res) == caps(SUITE_SUMMARY_PATTERN, line@),
    {
        proof {
            use_type_invariant(self);
        }
        search(&self.suite_summary, Ghost(SUITE_SUMMARY_PATTERN@), line)
    }

    /// Searches `line` for the run time.
    pub fn run_time(&self, line: &str) -> (res: Option<Vec<String>>)
        ensures
            captures_view(res) == caps(RUN_TIME_PATTERN, line@),
    {
        proof {
            use_type_invariant(self);
        }
        search(&self.run_time, Ghost(RUN_TIME_PATTERN@), line)
    }

    /// Searches `line` for a compile announcement.
    pub fn compile_count(&self, line: &str) -> (res: Option<Vec<String>>)
        ensures
            captures_view(res) == caps(COMPILE_COUNT_PATTERN, line@),
    {
        proof {
            use_type_invariant(self);
        }
        search(&self.compile_count, Ghost(COMPILE_COUNT_PATTERN@), line)
    }

    /// Searches `line` for the success line.
    pub fn success_time(&self, line: &str) -> (res: Option<Vec<String>>)
        ensures
            captures_view(res) == caps(SUCCESS_TIME_PATTERN, line@),
    {
        proof {
            use_type_invariant(self);
        }
        search(&self.success_time, Ghost(SUCCESS_TIME_PATTERN@), line)
    }

    /// Whether `line` is marked as an error.
    pub fn is_error(&self, line: &str) -> (res: bool)
        ensures
            res == caps(ERROR_PATTERN, line@) is Some,
    {
        proof {
            use_type_invariant(self);
        }
        search(&self.error, Ghost(ERROR_PATTERN@), line).is_some()
    }

    /// Whether `line` is sbt start-up chatter.
    pub fn is_noise(&self, line: &str) -> (res: bool)
        ensures
            res == caps(NOISE_PATTERN, line@) is Some,
    {
        proof {
            use_type_invariant(self);
        }
        search(&self.noise, Ghost(NOISE_PATTERN@), line).is_some()
    }
}

/// `str::parse::<u32>` on group `i` of a capture result.
pub fn group_number(groups: &Vec<String>, i: usize) -> (res: Option<u32>)
    ensures
        res == parse_u32(group_text(groups@.map_values(|g: String| g@), i as int)),
{
    if i < groups.len() {
        let cs = chars_of(groups[i].as_str());
        parse_u32_chars(&cs)
    } else {
        let empty: Vec<char> = Vec::new();
        parse_u32_chars(&empty)
    }
}

/// The number in group `i`, or 0 where it does not parse.
pub fn group_count(groups: &Vec<String>, i: usize) -> (res: u32)
    ensures
        res == count_or_zero(groups@.map_values(|g: String| g@), i as int),
{
    match group_number(groups, i) {
        Some(n) => n,
        None => 0,
    }
}

/// The mark that starts an error line.
pub const ERROR_MARK: &'static str = "[error] ";

/// `t` without the error mark where it begins with one.
pub fn strip_error_mark(t: &Vec<char>) -> (res: Vec<char>)
    ensures
        res@ == strip_or_keep(t@, ERROR_MARK@),
{
    let mark = chars_of(ERROR_MARK);
    let starts = starts_with_at(t.as_slice(), 0, mark.as_slice());
    assert(t@.skip(0) =~= t@);
    if starts {
        chars_from(t, mark.len())
    } else {
        chars_from(t, 0)
    }
}

} // verus!

use sbt_filter::compile_report::{
    classify_compile_line, filter_sbt_compile_with, render_compile_report, CompileLine,
};
use sbt_filter::run_report::{classify_run_line, filter_sbt_run_with, render_run_report, RunLine};
use sbt_filter::sbt_patterns::SbtPatterns;
use sbt_filter::test_report::{
    classify_test_line, filter_sbt_test_with, render_test_report, TestLine,
};
use sbt_filter::{filter_sbt_compile, filter_sbt_run, filter_sbt_test};

const RULE: &str = "═══════════════════════════════════════";

#[test]
fn passing_run_with_suites_and_time_is_one_exact_line() {
    let input = "[info] Run completed in 5 seconds, 12 milliseconds.\n\
                 [info] Suites: completed 5, aborted 0\n\
                 [info] Tests: succeeded 30, failed 0, canceled 0, ignored 2, pending 1\n";
    assert_eq!(
        filter_sbt_test(input),
        "sbt test: 30 passed, 2 ignored, 1 pending (5 suites, 5s)"
    );
}

#[test]
fn passing_run_without_suites_shows_time_alone() {
    let input = "Run completed in 3 seconds.\nTests: succeeded 4, failed 0, canceled 0, ignored 0, pending 0";
    assert_eq!(filter_sbt_test(input), "sbt test: 4 passed (3s)");
}

#[test]
fn passing_run_with_suites_but_no_time() {
    let input = "Suites: completed 2, aborted 0\nTests: succeeded 7, failed 0, canceled 0, ignored 0, pending 0";
    assert_eq!(filter_sbt_test(input), "sbt test: 7 passed (2 suites)");
}

#[test]
fn failing_run_lists_failures_and_errors() {
    let input = "[info] Tests: succeeded 3, failed 1, canceled 0, ignored 2, pending 0\n\
                 [info] - adds *** FAILED ***\n\
                 [error] boom\n\
                 [info] Run completed in 2 seconds.";
    let expected = format!(
        "sbt test: 3 passed, 1 failed, 2 ignored (2s)\n{}\n  [FAIL] [info] - adds *** FAILED ***\n\n  boom",
        RULE
    );
    assert_eq!(filter_sbt_test(input), expected);
}

#[test]
fn canceled_tests_count_as_failure() {
    let input = "Tests: succeeded 1, failed 0, canceled 2, ignored 0, pending 0";
    let expected = format!("sbt test: 1 passed, 0 failed\n{}", RULE);
    assert_eq!(filter_sbt_test(input), expected);
}

#[test]
fn errors_without_summary_give_a_parse_error_report() {
    let input = "[error] first\n[error] second\n[error] ";
    // A bare `[error]` keeps its mark: only `[error] ` with the space is taken off.
    let expected = format!("sbt test: parse error\n{}\n  first\n  second\n  [error]", RULE);
    assert_eq!(filter_sbt_test(input), expected);
}

#[test]
fn at_most_twenty_error_lines_are_listed() {
    let mut input = String::new();
    for i in 0..25 {
        input.push_str(&format!("[error] problem {}\n", i));
    }
    let output = filter_sbt_test(&input);
    assert!(output.contains("problem 19"));
    assert!(!output.contains("problem 20"));
}

#[test]
fn whitespace_only_output_has_no_test_output() {
    assert_eq!(filter_sbt_test("  \n\t\n"), "sbt test: No test output");
}

#[test]
fn unrecognised_output_is_given_back_unchanged() {
    let input = "something else\nentirely\n";
    assert_eq!(filter_sbt_test(input), input);
}

#[test]
fn long_lines_are_cut_to_one_hundred_twenty_characters() {
    let long = "x".repeat(130);
    let input = format!("[error] {}", long);
    let expected = format!("sbt test: parse error\n{}\n  {}...", RULE, "x".repeat(117));
    assert_eq!(filter_sbt_test(&input), expected);
}

#[test]
fn counts_that_do_not_parse_become_zero() {
    // `\d` also matches non-ASCII digits, which `parse` refuses.
    let input = "Tests: succeeded \u{0663}, failed 0, canceled 0, ignored 0, pending 0";
    assert_eq!(filter_sbt_test(input), "sbt test: 0 passed");
    let too_big = "Tests: succeeded 99999999999, failed 0, canceled 0, ignored 0, pending 0";
    assert_eq!(filter_sbt_test(too_big), "sbt test: 0 passed");
}

#[test]
fn carriage_returns_are_trimmed_away() {
    let input = "Suites: completed 1, aborted 0\r\nTests: succeeded 2, failed 0, canceled 0, ignored 0, pending 0\r\n";
    assert_eq!(filter_sbt_test(input), "sbt test: 2 passed (1 suites)");
}

#[test]
fn classify_test_line_reads_the_summary() {
    let patterns = SbtPatterns::new();
    match classify_test_line(
        &patterns,
        "  [info] Tests: succeeded 11, failed 2, canceled 3, ignored 4, pending 5  ",
    ) {
        TestLine::Summary { succeeded, failed, canceled, ignored, pending } => {
            assert_eq!((succeeded, failed, canceled, ignored, pending), (11, 2, 3, 4, 5));
        }
        _ => panic!("expected a summary"),
    }
    match classify_test_line(&patterns, "[error] oops") {
        TestLine::Error(text) => assert_eq!(text, "oops"),
        _ => panic!("expected an error"),
    }
    match classify_test_line(&patterns, "[error]") {
        TestLine::Error(text) => assert_eq!(text, "[error]"),
        _ => panic!("expected an error"),
    }
    assert!(matches!(classify_test_line(&patterns, "   "), TestLine::Other));
    assert!(matches!(classify_test_line(&patterns, "Run completed in 9 seconds"), TestLine::RunTime(Some(9))));
    assert!(matches!(classify_test_line(&patterns, "Suites: completed 4, aborted 1"), TestLine::SuiteCount(4)));
}

#[test]
fn render_test_report_from_given_lines() {
    let events = vec![
        TestLine::SuiteCount(2),
        TestLine::Summary { succeeded: 8, failed: 0, canceled: 0, ignored: 0, pending: 0 },
        TestLine::RunTime(Some(4)),
        TestLine::Other,
    ];
    assert_eq!(render_test_report(&events, "ignored"), "sbt test: 8 passed (2 suites, 4s)");
    let later_summary_wins = vec![
        TestLine::Summary { succeeded: 1, failed: 1, canceled: 0, ignored: 0, pending: 0 },
        TestLine::Summary { succeeded: 2, failed: 0, canceled: 0, ignored: 0, pending: 0 },
    ];
    assert_eq!(render_test_report(&later_summary_wins, ""), "sbt test: 2 passed");
}

#[test]
fn compile_success_without_sources_reports_success_and_time() {
    assert_eq!(filter_sbt_compile("[success] Total time: 5 s, completed"), "sbt compile: Success (5s)");
}

#[test]
fn compile_source_counts_add_up() {
    let input = "[info] Compiling 3 Scala sources to a\n[info] Compiling 1 Scala source to b";
    assert_eq!(filter_sbt_compile(input), "sbt compile: 4 sources");
}

#[test]
fn compile_source_counts_wrap_around_a_u32() {
    let input = "[info] Compiling 4294967295 Scala sources\n[info] Compiling 2 Scala sources";
    assert_eq!(filter_sbt_compile(input), "sbt compile: 1 sources");
}

#[test]
fn compile_errors_are_numbered() {
    let input = "[info] Compiling 2 Scala sources\n[error] first problem\n[error] second problem\n[success] Total time: 1 s";
    let expected = format!("sbt compile: 2 errors\n{}\n1. first problem\n2. second problem", RULE);
    assert_eq!(filter_sbt_compile(input), expected);
}

#[test]
fn compile_lists_every_error_line() {
    let mut input = String::new();
    for i in 1..=33 {
        input.push_str(&format!("[error] e{}\n", i));
    }
    let output = filter_sbt_compile(&input);
    assert!(output.starts_with("sbt compile: 33 errors\n"));
    assert!(output.contains("30. e30\n"));
    assert!(output.contains("31. e31\n"));
    assert!(output.ends_with("\n33. e33"));
    assert!(!output.contains("more errors"));
}

#[test]
fn compile_error_lines_are_shown_whole() {
    let long = "y".repeat(200);
    let input = format!("[error] {}\n[error] short", long);
    let expected = format!("sbt compile: 2 errors\n{}\n1. {}\n2. short", RULE, long);
    assert_eq!(filter_sbt_compile(&input), expected);
}

#[test]
fn filters_with_patterns_compiled_once() {
    let patterns = SbtPatterns::new();
    let test_output = "Tests: succeeded 2, failed 0, canceled 0, ignored 0, pending 0";
    assert_eq!(filter_sbt_test_with(&patterns, test_output), filter_sbt_test(test_output));
    assert_eq!(filter_sbt_test_with(&patterns, test_output), "sbt test: 2 passed");
    assert_eq!(filter_sbt_compile_with(&patterns, "[error] x"), filter_sbt_compile("[error] x"));
    assert_eq!(filter_sbt_run_with(&patterns, "[info] hi"), "hi");
}

#[test]
fn compile_report_always_opens_with_its_heading() {
    for input in ["", "nothing", "[error] x", "[info] Compiling 2 Scala sources"] {
        assert!(filter_sbt_compile(input).starts_with("sbt compile:"));
    }
}

#[test]
fn classify_compile_line_reads_each_kind() {
    let patterns = SbtPatterns::new();
    assert!(matches!(
        classify_compile_line(&patterns, "[info] Compiling 12 Scala sources to x"),
        CompileLine::SourceCount(12)
    ));
    assert!(matches!(
        classify_compile_line(&patterns, "[success] Total time: 7 s"),
        CompileLine::Success(Some(7))
    ));
    match classify_compile_line(&patterns, "  [error] bad thing  ") {
        CompileLine::Error(text) => assert_eq!(text, "bad thing"),
        _ => panic!("expected an error"),
    }
    assert!(matches!(classify_compile_line(&patterns, "[warn] careful"), CompileLine::Other));
}

#[test]
fn render_compile_report_from_given_lines() {
    let events = vec![CompileLine::Other, CompileLine::Success(None)];
    assert_eq!(render_compile_report(&events), "sbt compile: Success");
    let errors = vec![CompileLine::Error("boom".to_string())];
    assert_eq!(render_compile_report(&errors), format!("sbt compile: 1 errors\n{}\n1. boom", RULE));
}

#[test]
fn run_keeps_program_output_without_marks() {
    let input = "\n\n[info] Updating deps\n[info] Compiling 3 Scala sources\n[info] Running Main\n[info] hi\n\n  plain  \n[error] bad\n[success] done\n[success] Total time: 1 s\n\n";
    assert_eq!(filter_sbt_run(input), "hi\n\nplain\nbad\ndone");
}

#[test]
fn run_output_has_no_surrounding_whitespace() {
    let output = filter_sbt_run("\n   \n[info] value\n\n\n");
    assert_eq!(output, "value");
    assert_eq!(output.trim(), output);
}

#[test]
fn classify_run_line_drops_sbt_lines() {
    let patterns = SbtPatterns::new();
    assert!(matches!(classify_run_line(&patterns, "[info] welcome to sbt 1.9"), RunLine::Dropped));
    assert!(matches!(classify_run_line(&patterns, "[info] running x"), RunLine::Dropped));
    match classify_run_line(&patterns, "[info] output") {
        RunLine::Kept(text) => assert_eq!(text, "output"),
        _ => panic!("expected a kept line"),
    }
}

#[test]
fn render_run_report_from_given_lines() {
    let events = vec![
        RunLine::Kept(String::new()),
        RunLine::Kept("a".to_string()),
        RunLine::Dropped,
        RunLine::Kept(String::new()),
        RunLine::Kept("b".to_string()),
    ];
    assert_eq!(render_run_report(&events), "a\n\nb");
}

#[test]
fn every_failed_test_is_listed_in_order() {
    let input = "- first *** FAILED ***\n- second *** FAILED ***\nTests: succeeded 0, failed 2, canceled 0, ignored 0, pending 0";
    let expected = format!(
        "sbt test: 0 passed, 2 failed\n{}\n  [FAIL] - first *** FAILED ***\n  [FAIL] - second *** FAILED ***",
        RULE
    );
    assert_eq!(filter_sbt_test(input), expected);
}

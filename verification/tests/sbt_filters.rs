use sbt_filter::{filter_sbt_compile, filter_sbt_run, filter_sbt_test};

const SBT_TEST_PASS: &str = "[info] welcome to sbt 1.9.7 (Eclipse Adoptium Java 17.0.9)
[info] loading settings for project myapp-build from plugins.sbt ...
[info] loading project definition from /home/user/myapp/project
[info] loading settings for project root from build.sbt ...
[info] set current project to myapp (in build file:/home/user/myapp/)
[info] compiling 3 Scala sources to /home/user/myapp/target/scala-2.13/test-classes ...
[info] CalculatorSpec:
[info] Calculator
[info] - should add two positive numbers
[info] - should add a positive and a negative number
[info] - should subtract two numbers
[info] - should multiply two numbers
[info] - should divide two numbers
[info] - should refuse to divide by zero
[info] - should compute the square root of a positive number !!! IGNORED !!!
[info] StringUtilsSpec:
[info] StringUtils
[info] - should reverse a string
[info] - should capitalize the first letter
[info] - should detect a palindrome
[info] - should count the vowels in a word
[info] - should trim surrounding whitespace
[info] - should split a sentence into words
[info] ParserSpec:
[info] Parser
[info] - should parse an integer literal
[info] - should parse a string literal
[info] - should parse a nested expression
[info] - should report an unexpected token
[info] - should recover after a missing semicolon
[info] - should handle unicode identifiers !!! IGNORED !!!
[info] RepositorySpec:
[info] Repository
[info] - should insert a record
[info] - should find a record by its id
[info] - should update a record in place
[info] - should delete a record
[info] - should list all records in insertion order
[info] - should return nothing for an unknown id
[info] ServiceSpec:
[info] Service
[info] - should start and stop cleanly
[info] - should answer a health check
[info] - should reject a request without credentials
[info] - should accept a request with valid credentials
[info] - should time out a slow upstream call
[info] - should retry a failed upstream call
[info] - should cache a repeated lookup
[info] - should invalidate the cache on update
[info] Run completed in 5 seconds, 123 milliseconds.
[info] Total number of tests run: 30
[info] Suites: completed 5, aborted 0
[info] Tests: succeeded 30, failed 0, canceled 0, ignored 2, pending 0
[info] All tests passed.
[success] Total time: 9 s, completed Jan 15, 2025, 10:30:00 AM
";

const SBT_TEST_FAIL: &str = "[info] welcome to sbt 1.9.7 (Eclipse Adoptium Java 17.0.9)
[info] loading settings for project myapp-build from plugins.sbt ...
[info] loading project definition from /home/user/myapp/project
[info] loading settings for project root from build.sbt ...
[info] set current project to myapp (in build file:/home/user/myapp/)
[info] compiling 2 Scala sources to /home/user/myapp/target/scala-2.13/test-classes ...
[info] CalculatorSpec:
[info] Calculator
[info] - should add two positive numbers
[info] - should add a positive and a negative number
[info] - should subtract two numbers *** FAILED ***
[info]   3 did not equal 4 (CalculatorSpec.scala:21)
[info] - should multiply two numbers
[info] - should divide two numbers
[info] - should refuse to divide by zero
[info] StringUtilsSpec:
[info] StringUtils
[info] - should reverse a string
[info] - should capitalize the first letter *** FAILED ***
[info]   \"hello\" did not equal \"Hello\" (StringUtilsSpec.scala:14)
[info] - should detect a palindrome
[info] - should count the vowels in a word
[info] - should trim surrounding whitespace
[info] ParserSpec:
[info] Parser
[info] - should parse an integer literal
[info] - should parse a string literal
[info] - should parse a nested expression *** FAILED ***
[info]   java.lang.IllegalStateException: unexpected end of input
[info]   at com.example.Parser.expression(Parser.scala:88)
[info]   at com.example.Parser.term(Parser.scala:61)
[info]   at com.example.Parser.parse(Parser.scala:30)
[info]   at com.example.ParserSpec.$anonfun$new$3(ParserSpec.scala:25)
[info]   at org.scalatest.OutcomeOf.outcomeOf(OutcomeOf.scala:85)
[info]   at org.scalatest.Transformer.apply(Transformer.scala:22)
[info]   at org.scalatest.Transformer.apply(Transformer.scala:20)
[info]   at org.scalatest.flatspec.AnyFlatSpecLike$$anon$5.apply(AnyFlatSpecLike.scala:1832)
[info]   at org.scalatest.TestSuite.withFixture(TestSuite.scala:196)
[info]   at org.scalatest.TestSuite.withFixture$(TestSuite.scala:195)
[info] - should report an unexpected token
[info] - should recover after a missing semicolon
[info] Run completed in 3 seconds, 456 milliseconds.
[info] Total number of tests run: 18
[info] Suites: completed 3, aborted 0
[info] Tests: succeeded 15, failed 3, canceled 0, ignored 0, pending 0
[info] *** 3 TESTS FAILED ***
[error] Failed tests:
[error] \tcom.example.CalculatorSpec
[error] \tcom.example.StringUtilsSpec
[error] \tcom.example.ParserSpec
[error] (Test / test) sbt.TestsFailedException: Tests unsuccessful
[error] Total time: 7 s, completed Jan 15, 2025, 10:31:00 AM
";

const SBT_COMPILE_ERROR: &str = "[info] welcome to sbt 1.9.7 (Eclipse Adoptium Java 17.0.9)
[info] loading settings for project myapp-build from plugins.sbt ...
[info] loading project definition from /home/user/myapp/project
[info] loading settings for project root from build.sbt ...
[info] set current project to myapp (in build file:/home/user/myapp/)
[info] Updating myapp_2.13
[info] Resolved myapp_2.13 dependencies
[info] Fetching artifacts of myapp_2.13
[info] Fetched artifacts of myapp_2.13
[info] compiling 12 Scala sources to /home/user/myapp/target/scala-2.13/classes ...
[warn] /home/user/myapp/src/main/scala/com/example/Legacy.scala:7:14: method toIterator in class IterableOnceExtensionMethods is deprecated (since 2.13.0): Use .iterator instead
[warn]     val it = items.toIterator
[warn]                    ^
[warn] /home/user/myapp/src/main/scala/com/example/Legacy.scala:19:3: a pure expression does nothing in statement position; multiline expressions might require enclosing parentheses
[warn]   42
[warn]   ^
[warn] two warnings found
[error] /home/user/myapp/src/main/scala/com/example/Calculator.scala:15:20: type mismatch;
[error]  found   : String(\"42\")
[error]  required: Int
[error] /home/user/myapp/src/main/scala/com/example/Service.scala:28:5: not found: value undefinedHelper
[error] two errors found
[error] (Compile / compileIncremental) Compilation failed
[error] Total time: 4 s, completed Jan 15, 2025, 10:32:11 AM
";

fn count_tokens(text: &str) -> usize {
    text.split_whitespace().count()
}

#[test]
fn test_filter_sbt_test_all_pass() {
    let input = SBT_TEST_PASS;
    let output = filter_sbt_test(input);

    assert!(output.starts_with("sbt test:"));
    assert!(output.contains("30 passed"));
    assert!(output.contains("2 ignored"));
    assert!(output.contains("5 suites"));
    assert!(output.contains("5s"));
    // Should be a compact single line
    assert!(!output.contains('\n'), "All-pass output should be one line");
}

#[test]
fn test_filter_sbt_test_with_failures() {
    let input = SBT_TEST_FAIL;
    let output = filter_sbt_test(input);

    assert!(output.contains("15 passed"));
    assert!(output.contains("3 failed"));
    assert!(output.contains("FAIL"));
    assert!(output.contains("FAILED"));
}

#[test]
fn test_filter_sbt_test_token_savings() {
    let input = SBT_TEST_PASS;
    let output = filter_sbt_test(input);

    let input_tokens = count_tokens(input);
    let output_tokens = count_tokens(&output);

    let savings = 100.0 - (output_tokens as f64 / input_tokens as f64 * 100.0);
    assert!(
        savings >= 60.0,
        "sbt test (pass) filter: expected >=60% savings, got {:.1}% (input: {}, output: {})",
        savings,
        input_tokens,
        output_tokens
    );
}

#[test]
fn test_filter_sbt_test_fail_token_savings() {
    let input = SBT_TEST_FAIL;
    let output = filter_sbt_test(input);

    let input_tokens = count_tokens(input);
    let output_tokens = count_tokens(&output);

    let savings = 100.0 - (output_tokens as f64 / input_tokens as f64 * 100.0);
    assert!(
        savings >= 40.0,
        "sbt test (fail) filter: expected >=40% savings, got {:.1}% (input: {}, output: {})",
        savings,
        input_tokens,
        output_tokens
    );
}

#[test]
fn test_filter_sbt_compile_success() {
    let input = "[info] loading settings for project root from build.sbt ...\n\
                  [info] Compiling 15 Scala sources to /target/scala-2.13/classes ...\n\
                  [success] Total time: 12 s, completed Jan 15, 2025";
    let output = filter_sbt_compile(input);

    assert!(output.contains("sbt compile:"));
    assert!(output.contains("15 sources"));
    assert!(output.contains("12s"));
}

#[test]
fn test_filter_sbt_compile_errors() {
    let input = SBT_COMPILE_ERROR;
    let output = filter_sbt_compile(input);

    assert!(output.contains("sbt compile:"));
    assert!(output.contains("errors"));
    assert!(output.contains("type mismatch"));
    assert!(output.contains("not found: value"));
}

#[test]
fn test_filter_sbt_compile_error_token_savings() {
    let input = SBT_COMPILE_ERROR;
    let output = filter_sbt_compile(input);

    let input_tokens = count_tokens(input);
    let output_tokens = count_tokens(&output);

    let savings = 100.0 - (output_tokens as f64 / input_tokens as f64 * 100.0);
    assert!(
        savings >= 30.0,
        "sbt compile (error) filter: expected >=30% savings, got {:.1}% (input: {}, output: {})",
        savings,
        input_tokens,
        output_tokens
    );
}

#[test]
fn test_filter_sbt_run_strips_noise() {
    let input = "[info] welcome to sbt 1.9.7\n\
                  [info] loading settings for project root from build.sbt ...\n\
                  [info] set current project to myapp\n\
                  [info] running com.example.Main\n\
                  [info] Hello, World!\n\
                  [info] Server started on port 8080\n\
                  [success] Total time: 3 s, completed Jan 15, 2025";
    let output = filter_sbt_run(input);

    assert!(output.contains("Hello, World!"));
    assert!(output.contains("Server started on port 8080"));
    assert!(!output.contains("welcome to sbt"));
    assert!(!output.contains("loading settings"));
    assert!(!output.contains("set current project"));
    assert!(!output.contains("running com.example"));
    assert!(!output.contains("Total time:"));
}

#[test]
fn test_filter_sbt_test_empty_input() {
    let output = filter_sbt_test("");
    assert!(!output.is_empty());
}

#[test]
fn test_filter_sbt_compile_empty_input() {
    let output = filter_sbt_compile("");
    assert!(output.contains("sbt compile:"));
    assert!(output.contains("Success"));
}

#[test]
fn test_filter_sbt_run_empty_input() {
    let output = filter_sbt_run("");
    // Empty input produces empty output
    assert!(output.is_empty());
}

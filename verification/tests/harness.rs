use bfcc::harness::{
    judge_run, run_program, selected, stats_line, test_header, TestCase, Verdict,
};
use bfcc::interp::{ExecResult, InterpErr};

#[test]
fn the_header_is_the_rest_of_the_marker_line() {
    let src = "// a test\n// TEST: {\"name\": \"hello\", \"output\": \"Hi\"}\nint main() {}\n";
    assert_eq!(test_header(src), Some(" {\"name\": \"hello\", \"output\": \"Hi\"}".to_string()));
    assert_eq!(test_header("TEST:\n"), Some(String::new()));
    assert_eq!(test_header("xTEST:a\nTEST:b\n"), Some("a".to_string()));
    assert_eq!(test_header("TES TEST:ü\n\n"), Some("ü".to_string()));
}

#[test]
fn no_marker_or_no_end_of_line_is_no_header() {
    assert_eq!(test_header(""), None);
    assert_eq!(test_header("int main() {}\n"), None);
    assert_eq!(test_header("TEST"), None);
    assert_eq!(test_header("test:\n"), None);
    assert_eq!(test_header("\nTEST: {}"), None);
}

fn args(list: &[&str]) -> Vec<String> {
    list.iter().map(|s| s.to_string()).collect()
}

#[test]
fn a_run_without_names_takes_every_case() {
    assert!(selected(&args(&[]), &"a".to_string()));
    assert!(selected(&args(&["verify"]), &"a".to_string()));
}

#[test]
fn a_run_with_names_takes_the_named_cases() {
    assert!(selected(&args(&["verify", "a"]), &"a".to_string()));
    assert!(selected(&args(&["verify", "b", "a"]), &"a".to_string()));
    assert!(!selected(&args(&["verify", "b"]), &"a".to_string()));
    assert!(!selected(&args(&["verify", "ab", "A"]), &"a".to_string()));
}

#[test]
fn skipping() {
    let case = |skip| TestCase { name: "n".to_string(), output: String::new(), skip };
    assert!(case(Some(true)).skipped());
    assert!(!case(Some(false)).skipped());
    assert!(!case(None).skipped());
}

#[test]
fn verdicts() {
    let hi = format!("{}.{}.[-]", "+".repeat(72), "+".repeat(33));
    // Add, Putchar, Add, Putchar, JmpIfZ, and 105 times Add, JmpIfNZ
    assert_eq!(run_program(&hi, &"Hi".to_string()), Verdict::Passed { steps: 215 });
    assert_eq!(
        run_program(&hi, &"Ho".to_string()),
        Verdict::Mismatch { actual: "Hi".to_string() }
    );
    assert_eq!(run_program("", &String::new()), Verdict::Passed { steps: 0 });
    assert_eq!(run_program("[", &String::new()), Verdict::Malformed);
    assert_eq!(run_program("<", &String::new()), Verdict::Crashed(InterpErr::MemUnderflow));
    assert_eq!(run_program("+", &String::new()), Verdict::Crashed(InterpErr::TapeNotZero));
    assert_eq!(
        run_program(&"+".repeat(256), &String::new()),
        Verdict::Crashed(InterpErr::IntOverflow)
    );
}

#[test]
fn judging_a_run() {
    let ok = |out: &str, steps| Ok(ExecResult { output: out.to_string(), steps });
    assert_eq!(judge_run(ok("A", 3), &"A".to_string()), Verdict::Passed { steps: 3 });
    assert_eq!(
        judge_run(ok("A", 3), &"B".to_string()),
        Verdict::Mismatch { actual: "A".to_string() }
    );
    assert_eq!(
        judge_run(Err(InterpErr::IntUnderflow), &"A".to_string()),
        Verdict::Crashed(InterpErr::IntUnderflow)
    );
}

#[test]
fn the_stats_line() {
    assert_eq!(stats_line(0), "steps: 0\n");
    assert_eq!(stats_line(42), "steps: 42\n");
    assert_eq!(stats_line(1234567890), "steps: 1234567890\n");
    assert_eq!(stats_line(usize::MAX), format!("steps: {}\n", usize::MAX));
}

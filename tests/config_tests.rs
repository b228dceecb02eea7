use cpubench::config::{
    classify_arg, parse_args, parse_threads, Arg, Invocation, Settings, Warning,
    DEFAULT_BUDGET_NANOS, DEFAULT_THREADS,
};

fn strings(items: &[&str]) -> Vec<String> {
    items.iter().map(|s| s.to_string()).collect()
}

#[test]
fn threads_plain_count() {
    assert_eq!(parse_threads("4"), Some(4));
    assert_eq!(parse_threads("+16"), Some(16));
    assert_eq!(parse_threads("007"), Some(7));
}

#[test]
fn threads_largest_count() {
    assert_eq!(parse_threads("4294967295"), Some(u32::MAX));
    assert_eq!(parse_threads("4294967296"), None);
    assert_eq!(parse_threads("99999999999999999999999"), None);
}

#[test]
fn threads_malformed() {
    assert_eq!(parse_threads(""), None);
    assert_eq!(parse_threads("+"), None);
    assert_eq!(parse_threads("0"), None);
    assert_eq!(parse_threads("-3"), None);
    assert_eq!(parse_threads("abc"), None);
    assert_eq!(parse_threads("4x"), None);
    assert_eq!(parse_threads(" 4"), None);
    assert_eq!(parse_threads("++4"), None);
}

#[test]
fn default_settings_values() {
    let s = Settings::default();
    assert_eq!(s.threads, 8);
    assert_eq!(s.budget_nanos, 180_000_000_000);
    assert_eq!(DEFAULT_THREADS, 8);
    assert_eq!(DEFAULT_BUDGET_NANOS, 180_000_000_000);
}

#[test]
fn classify_tokens() {
    assert!(matches!(classify_arg("--help"), Arg::Help));
    assert!(matches!(classify_arg("-h"), Arg::Help));
    match classify_arg("-t=2.5") {
        Arg::Time(v) => assert_eq!(v, "2.5"),
        other => panic!("unexpected {:?}", other),
    }
    assert!(matches!(classify_arg("-c=4"), Arg::Threads(Some(4))));
    assert!(matches!(classify_arg("-c=four"), Arg::Threads(None)));
    assert!(matches!(classify_arg("-c="), Arg::Threads(None)));
    assert!(matches!(classify_arg("-t"), Arg::Unknown));
    assert!(matches!(classify_arg("-"), Arg::Unknown));
    assert!(matches!(classify_arg(""), Arg::Unknown));
    assert!(matches!(classify_arg("-x=1"), Arg::Unknown));
    assert!(matches!(classify_arg("-c4"), Arg::Unknown));
    assert!(matches!(classify_arg("--helpme"), Arg::Unknown));
    assert!(matches!(classify_arg("é=1"), Arg::Unknown));
}

#[test]
fn time_value_keeps_non_ascii_text() {
    match classify_arg("-t=ü5") {
        Arg::Time(v) => assert_eq!(v, "ü5"),
        other => panic!("unexpected {:?}", other),
    }
}

#[test]
fn no_arguments_runs_nothing() {
    let args: Vec<String> = Vec::new();
    assert!(matches!(parse_args(&args, &Vec::new()), Invocation::NoArgs));
}

#[test]
fn help_runs_nothing() {
    let args = strings(&["-c=2", "--help", "-t=1"]);
    let readings = vec![None, None, Some(1_000_000_000)];
    assert!(matches!(parse_args(&args, &readings), Invocation::Help));
    let args = strings(&["-h"]);
    assert!(matches!(parse_args(&args, &vec![None]), Invocation::Help));
}

#[test]
fn one_second_one_core() {
    let args = strings(&["-t=1", "-c=1"]);
    let readings = vec![Some(1_000_000_000), None];
    match parse_args(&args, &readings) {
        Invocation::Run(s, ws) => {
            assert_eq!(s, Settings { threads: 1, budget_nanos: 1_000_000_000 });
            assert!(ws.is_empty());
        }
        other => panic!("unexpected {:?}", other),
    }
}

#[test]
fn malformed_time_keeps_default() {
    let args = strings(&["-t=abc"]);
    match parse_args(&args, &vec![None]) {
        Invocation::Run(s, ws) => {
            assert_eq!(s.budget_nanos, 180_000_000_000);
            assert_eq!(s.threads, 8);
            assert_eq!(ws, vec![Warning::BadTime(0)]);
        }
        other => panic!("unexpected {:?}", other),
    }
}

#[test]
fn zero_time_is_malformed() {
    let args = strings(&["-t=0", "-c=3"]);
    match parse_args(&args, &vec![Some(0), None]) {
        Invocation::Run(s, ws) => {
            assert_eq!(s, Settings { threads: 3, budget_nanos: 180_000_000_000 });
            assert_eq!(ws, vec![Warning::BadTime(0)]);
        }
        other => panic!("unexpected {:?}", other),
    }
}

#[test]
fn malformed_and_unknown_tokens_warn() {
    let args = strings(&["-c=0", "-q", "-c=abc", "-t=2"]);
    let readings = vec![None, None, None, Some(2_000_000_000)];
    match parse_args(&args, &readings) {
        Invocation::Run(s, ws) => {
            assert_eq!(s, Settings { threads: 8, budget_nanos: 2_000_000_000 });
            assert_eq!(
                ws,
                vec![Warning::BadThreads(0), Warning::Unknown(1), Warning::BadThreads(2)]
            );
        }
        other => panic!("unexpected {:?}", other),
    }
}

#[test]
fn later_valid_value_wins() {
    let args = strings(&["-c=2", "-c=6", "-t=5", "-t=x"]);
    let readings = vec![None, None, Some(5_000_000_000), None];
    match parse_args(&args, &readings) {
        Invocation::Run(s, ws) => {
            assert_eq!(s, Settings { threads: 6, budget_nanos: 5_000_000_000 });
            assert_eq!(ws, vec![Warning::BadTime(3)]);
        }
        other => panic!("unexpected {:?}", other),
    }
}

#[test]
fn readings_of_other_tokens_are_ignored() {
    let args = strings(&["-c=2"]);
    match parse_args(&args, &vec![Some(7)]) {
        Invocation::Run(s, ws) => {
            assert_eq!(s, Settings { threads: 2, budget_nanos: 180_000_000_000 });
            assert!(ws.is_empty());
        }
        other => panic!("unexpected {:?}", other),
    }
}

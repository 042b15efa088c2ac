use transtractor_rs::api::{first_error_free, missing_config_error, Answer, ConfigRun, Request, Step};
use transtractor_rs::text::join_strings;
use transtractor_rs::error::ParseError;

fn keys(ks: &[&str]) -> Vec<String> {
    ks.iter().map(|k| k.to_string()).collect()
}

fn looks_up(step: &Step, key: &str) -> bool {
    matches!(step, Step::LookUpConfig(k) if k == key)
}

#[test]
fn given_keys_are_looked_up_in_order_then_parsers_run() {
    let (mut run, step) = ConfigRun::start(Request::Statement, Some(keys(&["a", "b"])));
    assert!(looks_up(&step, "a"));
    let step = run.advance(Answer::ConfigFound);
    assert!(looks_up(&step, "b"));
    let step = run.advance(Answer::ConfigFound);
    assert!(matches!(step, Step::RunParsers));
    let step = run.advance(Answer::Statements(vec![2, 0, 0]));
    assert!(matches!(step, Step::ReturnStatement(1)));
}

#[test]
fn keys_are_detected_when_none_are_given() {
    let (mut run, step) = ConfigRun::start(Request::Statement, None);
    assert!(matches!(step, Step::DetectKeys));
    assert!(run.accepts(&Answer::Keys(vec![])));
    assert!(!run.accepts(&Answer::ConfigFound));
    let step = run.advance(Answer::Keys(keys(&["bank"])));
    assert!(looks_up(&step, "bank"));
}

#[test]
fn no_keys_fail_with_request_message() {
    let (_, step) = ConfigRun::start(Request::Statement, Some(vec![]));
    match step {
        Step::Fail(ParseError::ParsingError(m)) => {
            assert_eq!(m, "No applicable configurations found for this statement")
        },
        other => panic!("unexpected {:?}", other),
    }
    let (mut run, _) = ConfigRun::start(Request::Debug, None);
    match run.advance(Answer::Keys(vec![])) {
        Step::Fail(ParseError::ParsingError(m)) => assert_eq!(m, "No applicable configurations found"),
        other => panic!("unexpected {:?}", other),
    }
}

#[test]
fn missing_config_names_its_key() {
    let (mut run, _) = ConfigRun::start(Request::Statement, Some(keys(&["a", "b", "c"])));
    run.advance(Answer::ConfigFound);
    match run.advance(Answer::ConfigMissing("not registered".to_string())) {
        Step::Fail(ParseError::ConfigError(m)) => assert_eq!(m, "Config 'b': not registered"),
        other => panic!("unexpected {:?}", other),
    }
    assert!(!run.accepts(&Answer::ConfigFound));
}

#[test]
fn results_with_errors_only_fail_listing_keys() {
    let (mut run, _) = ConfigRun::start(Request::Statement, Some(keys(&["x", "y"])));
    run.advance(Answer::ConfigFound);
    run.advance(Answer::ConfigFound);
    match run.advance(Answer::Statements(vec![1, 3])) {
        Step::Fail(ParseError::NoValidStatement(m)) => assert_eq!(m, "x, y"),
        other => panic!("unexpected {:?}", other),
    }
}

#[test]
fn no_results_fail_too() {
    let (mut run, _) = ConfigRun::start(Request::Statement, Some(keys(&["only"])));
    run.advance(Answer::ConfigFound);
    match run.advance(Answer::Statements(vec![])) {
        Step::Fail(ParseError::NoValidStatement(m)) => assert_eq!(m, "only"),
        other => panic!("unexpected {:?}", other),
    }
}

#[test]
fn parser_failure_is_a_parsing_error() {
    let (mut run, _) = ConfigRun::start(Request::Statement, Some(keys(&["k"])));
    run.advance(Answer::ConfigFound);
    match run.advance(Answer::ParsersFailed("bad layout".to_string())) {
        Step::Fail(ParseError::ParsingError(m)) => assert_eq!(m, "bad layout"),
        other => panic!("unexpected {:?}", other),
    }
}

#[test]
fn debug_request_returns_rendered_text() {
    let (mut run, _) = ConfigRun::start(Request::Debug, Some(keys(&["k"])));
    let step = run.advance(Answer::ConfigFound);
    assert!(matches!(step, Step::RunParsers));
    assert!(!run.accepts(&Answer::Statements(vec![0])));
    assert!(run.accepts(&Answer::DebugText(String::new())));
    match run.advance(Answer::DebugText("layout dump".to_string())) {
        Step::ReturnDebug(t) => assert_eq!(t, "layout dump"),
        other => panic!("unexpected {:?}", other),
    }
}

#[test]
fn first_error_free_picks_first_zero() {
    assert_eq!(first_error_free(&vec![3, 0, 0]), Some(1));
    assert_eq!(first_error_free(&vec![0]), Some(0));
    assert_eq!(first_error_free(&vec![1, 2]), None);
    assert_eq!(first_error_free(&vec![]), None);
}

#[test]
fn join_strings_matches_slice_join() {
    for parts in [vec![], vec!["a"], vec!["a", "b"], vec!["", "x", ""]] {
        let v: Vec<String> = parts.iter().map(|p| p.to_string()).collect();
        assert_eq!(join_strings(&v, ", "), v.join(", "));
    }
}

#[test]
fn missing_config_error_message() {
    match missing_config_error(&"au__cba".to_string(), &"unknown key".to_string()) {
        ParseError::ConfigError(m) => assert_eq!(m, "Config 'au__cba': unknown key"),
        other => panic!("unexpected {:?}", other),
    }
}

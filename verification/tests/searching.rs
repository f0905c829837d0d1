use logviewer::loglevel::LogLevel;
use logviewer::match_index::Match;
use logviewer::quick::Mode;
use logviewer::quick::State;

fn corpus(rows: &[&[&str]]) -> Vec<Vec<String>> {
    rows.iter().map(|cells| cells.iter().map(|s| s.to_string()).collect()).collect()
}

#[test]
fn update_finds_rows_and_positions() {
    let texts = corpus(&[
        &["boot", "kernel started"],
        &["net", "link up"],
        &["disk", "io error on sda"],
    ]);
    let mut state = State::default();
    state.input_mut().push_str("error");

    let count = state.update(&texts);

    assert_eq!(1, count);
    assert_eq!(1, state.results().len());
    let line = state.results().iter()[0].clone();
    assert_eq!(3, line.index() + 1);
    let columns = line.iter();
    assert_eq!(1, columns.len());
    assert_eq!(1, columns[0].index());
    assert_eq!(vec![(3, 8)], columns[0].iter().clone());
}

#[test]
fn update_scans_non_overlapping() {
    // The scan is first-match-first and never overlaps occurrences.
    let texts = corpus(&[&["aaa"]]);
    let mut state = State::default();
    state.input_mut().push_str("aa");

    state.update(&texts);

    let line = state.results().iter()[0].clone();
    assert_eq!(vec![(0, 2)], line.iter()[0].iter().clone());
}

#[test]
fn update_with_empty_query_clears() {
    let texts = corpus(&[&["anything"]]);
    let mut state = State::default();
    state.input_mut().push_str("any");
    assert_eq!(1, state.update(&texts));

    state.input_mut().clear();
    assert_eq!(0, state.update(&texts));
    assert!(state.results().is_empty());
}

#[test]
fn update_is_deterministic() {
    // Rebuilding with the same query yields identical ordered output.
    let texts = corpus(&[
        &["alpha", "the quick brown fox"],
        &["beta", "quixotic"],
        &["gamma", "quiet"],
        &["delta", "nothing here"],
    ]);
    let mut first = State::default();
    first.input_mut().push_str("qui");
    first.update(&texts);
    let mut second = State::default();
    second.input_mut().push_str("qui");
    second.update(&texts);

    assert_eq!(first.results(), second.results());
    let indices: Vec<usize> = first.results().iter().iter().map(|l| l.index()).collect();
    assert_eq!(vec![0, 1, 2], indices);
}

#[test]
fn set_mode_clears_what_it_must() {
    let texts = corpus(&[&["warm"]]);
    let mut state = State::default();
    state.input_mut().push_str("warm");
    state.update(&texts);
    assert_eq!(1, state.results().len());

    // Entering input mode from off drops the stale results.
    state.set_mode(Mode::Input);
    assert_eq!(Mode::Input, state.mode());
    assert!(state.results().is_empty());

    // Leaving input mode for off drops the query.
    state.set_mode(Mode::Off);
    assert_eq!(Mode::Off, state.mode());
    assert!(state.input().is_empty());

    // Other transitions keep both.
    state.input_mut().push_str("warm");
    state.update(&texts);
    state.set_mode(Mode::Iteration);
    assert_eq!(1, state.results().len());
    assert_eq!("warm", state.input().as_str());
}

#[test]
fn level_letters_round() {
    assert_eq!('E', LogLevel::Error.letter());
    assert_eq!(Some(LogLevel::Warning), LogLevel::parse("warning"));
    assert_eq!(Some(LogLevel::Verbose), LogLevel::parse("V"));
    assert_eq!(Some(LogLevel::Debug), LogLevel::parse("debug"));
    assert_eq!(Some(LogLevel::Info), LogLevel::parse("I"));
    assert_eq!(None, LogLevel::parse(""));
    assert_eq!(None, LogLevel::parse("trace"));
}

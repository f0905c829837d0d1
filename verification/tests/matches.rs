use logviewer::match_index::exact_match;
use logviewer::match_index::nearest_match;
use logviewer::match_index::next_match;
use logviewer::match_index::previous_match;
use logviewer::match_index::Match;
use logviewer::match_index::MatchedLine;
use logviewer::match_index::MatchedLines;

#[test]
fn test_nearest_match() {
    let first = MatchedLine::sentinel(1);
    let second = MatchedLine::sentinel(4);
    let matches: Vec<MatchedLine> = vec![first.clone(), second.clone()];

    assert_eq!(None, nearest_match::<MatchedLine>(&Vec::new(), 0));
    assert_eq!(Some(&first), nearest_match(&matches, 0));
    assert_eq!(Some(&second), nearest_match(&matches, 3));
    assert_eq!(Some(&second), nearest_match(&matches, 100));
}

#[test]
fn test_previous_match() {
    let first = MatchedLine::sentinel(1);
    let second = MatchedLine::sentinel(4);
    let third = MatchedLine::sentinel(6);
    let matches: Vec<MatchedLine> = vec![first.clone(), second.clone(), third.clone()];

    assert_eq!(None, previous_match::<MatchedLine>(&Vec::new(), 0));
    assert_eq!(None, previous_match::<MatchedLine>(&Vec::new(), 100));
    assert_eq!(None, previous_match(&matches, 0));
    assert_eq!(None, previous_match(&matches, 1));
    assert_eq!(Some(&first), nearest_match(&matches, 2));
    assert_eq!(Some(&first), previous_match(&matches, 4));
    assert_eq!(Some(&second), previous_match(&matches, 5));
    assert_eq!(Some(&third), previous_match(&matches, 100));
}

#[test]
fn test_next_match() {
    let first = MatchedLine::sentinel(1);
    let second = MatchedLine::sentinel(4);
    let third = MatchedLine::sentinel(6);
    let matches: Vec<MatchedLine> = vec![first.clone(), second.clone(), third.clone()];

    assert_eq!(None, next_match::<MatchedLine>(&Vec::new(), 0));
    assert_eq!(None, next_match::<MatchedLine>(&Vec::new(), 100));
    assert_eq!(Some(&first), next_match(&matches, 0));
    assert_eq!(Some(&second), next_match(&matches, 1));
    assert_eq!(Some(&third), next_match(&matches, 4));
    assert_eq!(None, next_match(&matches, 100));
}

#[test]
fn test_exact_match() {
    let first = MatchedLine::sentinel(1);
    let second = MatchedLine::sentinel(4);
    let matches: Vec<MatchedLine> = vec![first.clone(), second.clone()];

    assert_eq!(None, exact_match::<MatchedLine>(&Vec::new(), 0));
    assert_eq!(None, exact_match(&matches, 0));
    assert_eq!(Some(&first), exact_match(&matches, 1));
    assert_eq!(Some(&second), exact_match(&matches, 4));
}

#[test]
fn nearest_tie_prefers_lower() {
    // Equal distance on both sides: the lower index wins.
    let first = MatchedLine::sentinel(1);
    let second = MatchedLine::sentinel(5);
    let matches: Vec<MatchedLine> = vec![first.clone(), second.clone()];
    assert_eq!(Some(&first), nearest_match(&matches, 3));

    // Asymmetric distances: the closer match wins regardless of side.
    let far = MatchedLine::sentinel(6);
    let asym: Vec<MatchedLine> = vec![first.clone(), far.clone()];
    assert_eq!(Some(&first), nearest_match(&asym, 3));

    // A match right on the index is its own nearest.
    assert_eq!(Some(&second), nearest_match(&matches, 5));
}

#[test]
fn exact_is_none_between_matches() {
    let matches: Vec<MatchedLine> = vec![MatchedLine::sentinel(2), MatchedLine::sentinel(7)];
    for i in 3..7 {
        assert_eq!(None, exact_match(&matches, i));
    }
    assert!(exact_match(&matches, 2).is_some());
    assert!(exact_match(&matches, 7).is_some());
}

#[test]
fn lines_collection_basics() {
    let mut lines = MatchedLines::default();
    assert!(lines.is_empty());
    assert_eq!(0, lines.len());
    assert_eq!(0, lines.iter().len());
    lines.clear();
    assert!(lines.is_empty());
}

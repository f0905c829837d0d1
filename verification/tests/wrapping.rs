use logviewer::text_utils::split_string_at_indices;
use logviewer::text_utils::wrap_indices;
use logviewer::text_utils::wrap_text;

#[test]
fn wrap_long_text() {
    let text = "Explicit concurrent copying GC freed 47311(2322KB) AllocSpace objects, 17(724KB) LOS objects, 49% free, 12MB/25MB, paused 339us total 141.468ms";

    assert_eq!(wrap_indices(text, 20), vec![20, 37, 51, 80, 98, 115, 134]);
}

#[test]
fn wrap_short_text() {
    let text = "Lorem ipsum";

    assert_eq!(wrap_indices(text, 20), Vec::<usize>::new());
}

#[test]
fn wrap_empty_text() {
    let text = "";

    assert_eq!(wrap_indices(text, 20), Vec::<usize>::new());
}

#[test]
fn test_split_string_at_indices() {
    let s = "Explicit concurrent copying GC freed 47311(2322KB) AllocSpace objects, 17(724KB) LOS objects, 49% free, 12MB/25MB, paused 339us total 141.468ms";
    let indices = wrap_indices(s, 20);

    let splits = split_string_at_indices(s, &indices);

    assert_eq!(
        splits,
        vec![
            "Explicit concurrent ",
            "copying GC freed ",
            "47311(2322KB) ",
            "AllocSpace objects, 17(724KB)",
            " LOS objects, 49% ",
            "free, 12MB/25MB, ",
            "paused 339us total ",
            "141.468ms"
        ]
    );
}

#[test]
fn test_split_string_at_no_indices() {
    let s = "Explicit concurrent copying";
    let splits = split_string_at_indices(s, &Vec::new());

    assert_eq!(splits, vec!["Explicit concurrent copying"]);
}

#[test]
fn test_split_suspicious() {
    let s = "Invalidating LocalCallingIdentity cache for package com.tomtom.ivi.functionaltest.frontend.alexa.test. Reason: package android.intent.action.PACKAGE_REMOVED";
    let indices = wrap_indices(s, 50);

    assert_eq!(indices, vec![44, 52, 119]);
}

#[test]
fn multiline_text() {
    let s = "Invalidating LocalCallingIdentity cache for package com.tomtom.ivi.functionaltest.frontend.alexa.test. Reason: package android.intent.action.PACKAGE_REMOVED".to_string();

    let lines = wrap_text(s.as_str(), 50);

    assert_eq!(4, lines.len());
    assert_eq!(
        lines.join("$"),
        "Invalidating LocalCallingIdentity cache for $package $com.tomtom.ivi.functionaltest.frontend.alexa.test. Reason: package $android.intent.action.PACKAGE_REMOVED"
    )
}

#[test]
fn wrap_round_trip() {
    // Concatenating the emitted lines reproduces the message exactly.
    let s = "Explicit concurrent copying GC freed 47311(2322KB) AllocSpace objects, 17(724KB) LOS objects, 49% free, 12MB/25MB, paused 339us total 141.468ms";
    for width in [1, 7, 20, 50, 200] {
        let lines = wrap_text(s, width);
        assert_eq!(lines.concat(), s);
    }
}

#[test]
fn wrap_short_is_single_line() {
    // A message no longer than the width is one single line.
    let lines = wrap_text("Lorem ipsum", 20);
    assert_eq!(lines, vec!["Lorem ipsum"]);

    let empty = wrap_text("", 20);
    assert_eq!(empty, vec![""]);
}

#[test]
fn wrap_long_word_not_split() {
    // A single word longer than the width has no boundary inside it, so it
    // is never broken mid-word: it survives as one oversized line (behind
    // the split the walk emits at its starting boundary).
    let lines = wrap_text("antidisestablishmentarianism", 5);
    assert_eq!(lines, vec!["", "antidisestablishmentarianism"]);
    assert_eq!(lines.concat(), "antidisestablishmentarianism");
}

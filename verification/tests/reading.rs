//! Tests for the reading passes: full updates, metadata, suffix tailing.

use picolog_core::{get_metadata, line_count, read_suffix, read_update};

fn lines_of(v: &[&str]) -> Vec<String> {
    v.iter().map(|s| s.to_string()).collect()
}

#[test]
fn test_read_update_end_to_end() {
    let lines = lines_of(&[
        "<2024-01-01T12:00:00.000Z> [Notice] <EventA> msg1",
        "<2024-01-01T12:00:00.000Z> [Notice] <EventA> msg2",
        "plain unrelated line",
    ]);
    let u = read_update(&lines, 0, true, true);

    assert_eq!(u.line_count, 3);
    assert_eq!(u.player_name, None);
    // One unique pattern for EventA, keyed on the first-seen line
    assert_eq!(u.patterns.len(), 1);
    assert_eq!(u.patterns[0].event_name, Some("EventA".to_string()));
    assert_eq!(u.patterns[0].example_line, lines[0]);
    // No line matches the fixed marker catalogue
    assert!(u.new_lines.is_empty());
}

#[test]
fn test_read_update_filters_by_markers() {
    let lines = lines_of(&[
        "noise",
        "<Actor Death> someone died",
        "more noise",
        "<Vehicle Destruction> ship exploded",
    ]);
    let u = read_update(&lines, 0, false, false);

    assert_eq!(u.line_count, 4);
    assert_eq!(
        u.new_lines,
        lines_of(&[
            "<Actor Death> someone died",
            "<Vehicle Destruction> ship exploded",
        ])
    );
    assert!(u.patterns.is_empty());
}

#[test]
fn test_read_update_respects_watermark() {
    let lines = lines_of(&[
        "<Actor Death> early kill",
        "<Actor Death> late kill",
    ]);
    let u = read_update(&lines, 1, false, false);

    // The line before the watermark still counts but is not re-emitted
    assert_eq!(u.line_count, 2);
    assert_eq!(u.new_lines, lines_of(&["<Actor Death> late kill"]));
}

#[test]
fn test_read_update_player_identity_last_wins() {
    let lines = lines_of(&[
        "x AccountLoginCharacterStatus_Character y name Alice - geid 1",
        "middle line",
        "x AccountLoginCharacterStatus_Character y name Bob - geid 2",
    ]);
    // The most recent login wins regardless of the watermark
    let u0 = read_update(&lines, 0, true, false);
    let u2 = read_update(&lines, 2, true, false);
    let u9 = read_update(&lines, 9, true, false);

    assert_eq!(u0.player_name, Some("Bob".to_string()));
    assert_eq!(u2.player_name, Some("Bob".to_string()));
    assert_eq!(u9.player_name, Some("Bob".to_string()));
}

#[test]
fn test_read_update_identity_supports_hyphenated_names() {
    let lines = lines_of(&[
        "z AccountLoginCharacterStatus_Character name Rey-Of-Light - createdAt 7",
    ]);
    let u = read_update(&lines, 0, true, false);

    assert_eq!(u.player_name, Some("Rey-Of-Light".to_string()));
}

#[test]
fn test_read_update_identity_off_by_flag() {
    let lines = lines_of(&[
        "x AccountLoginCharacterStatus_Character y name Alice - geid 1",
    ]);
    let u = read_update(&lines, 0, false, false);

    assert_eq!(u.player_name, None);
}

#[test]
fn test_read_update_idempotent() {
    let lines = lines_of(&[
        "<2024-01-01T12:00:00.000Z> [Notice] <EventA> msg1",
        "<Actor Death> someone died",
        "x AccountLoginCharacterStatus_Character y name Alice - geid 1",
    ]);
    let u1 = read_update(&lines, 0, true, true);
    let u2 = read_update(&lines, 0, true, true);

    assert_eq!(u1.line_count, u2.line_count);
    assert_eq!(u1.player_name, u2.player_name);
    assert_eq!(u1.new_lines, u2.new_lines);
    assert_eq!(u1.patterns.len(), u2.patterns.len());
    for (p1, p2) in u1.patterns.iter().zip(u2.patterns.iter()) {
        assert_eq!(p1.event_name, p2.event_name);
        assert_eq!(p1.severity, p2.severity);
        assert_eq!(p1.teams, p2.teams);
        assert_eq!(p1.subsystems, p2.subsystems);
        assert_eq!(p1.signature, p2.signature);
        assert_eq!(p1.example_line, p2.example_line);
    }
}

#[test]
fn test_read_update_catalogue_dedup_keeps_first() {
    let lines = lines_of(&[
        "<2024-01-01T12:00:00.000Z> [Notice] <EventA> first body",
        "<2024-01-01T12:00:00.000Z> [Notice] <EventA> second body",
    ]);
    let u = read_update(&lines, 0, false, true);

    assert_eq!(u.patterns.len(), 1);
    assert_eq!(u.patterns[0].example_line, lines[0]);
}

#[test]
fn test_read_update_catalogue_resets_each_call() {
    let lines = lines_of(&["<2024-01-01T12:00:00.000Z> [Notice] <EventA> body"]);
    let u1 = read_update(&lines, 0, false, true);
    let u2 = read_update(&lines, 0, false, true);

    // No pattern history is shared across calls
    assert_eq!(u1.patterns.len(), 1);
    assert_eq!(u2.patterns.len(), 1);
}

#[test]
fn test_read_update_empty_file() {
    let lines: Vec<String> = Vec::new();
    let u = read_update(&lines, 0, true, true);

    assert_eq!(u.line_count, 0);
    assert_eq!(u.player_name, None);
    assert!(u.new_lines.is_empty());
    assert!(u.patterns.is_empty());
}

#[test]
fn test_get_metadata_counts_and_identity() {
    let lines = lines_of(&[
        "first",
        "x AccountLoginCharacterStatus_Character y name Carol - geid 3",
        "third",
    ]);
    let m = get_metadata(&lines);

    assert_eq!(m.line_count, 3);
    assert_eq!(m.player_name, Some("Carol".to_string()));
}

#[test]
fn test_get_metadata_no_identity() {
    let lines = lines_of(&["nothing", "to", "see"]);
    let m = get_metadata(&lines);

    assert_eq!(m.line_count, 3);
    assert_eq!(m.player_name, None);
}

#[test]
fn test_read_suffix_skips_blank_lines() {
    let lines = lines_of(&["one", "", "   ", "\t", "two"]);
    let r = read_suffix(&lines, 0);

    assert_eq!(r, lines_of(&["one", "two"]));
}

#[test]
fn test_read_suffix_drops_unicode_blank_lines() {
    // trim-style blankness: Unicode whitespace counts, not just ASCII
    let lines = lines_of(&["\u{a0}", "text", "\u{3000}\u{2028} "]);
    let r = read_suffix(&lines, 0);

    assert_eq!(r, lines_of(&["text"]));
}

#[test]
fn test_read_suffix_from_watermark() {
    let lines = lines_of(&["one", "two", "three"]);
    let r = read_suffix(&lines, 2);

    assert_eq!(r, lines_of(&["three"]));
}

#[test]
fn test_read_suffix_watermark_past_end() {
    let lines = lines_of(&["one"]);
    let r = read_suffix(&lines, 5);

    assert!(r.is_empty());
}

#[test]
fn test_line_count() {
    assert_eq!(line_count(&Vec::new()), 0);
    assert_eq!(line_count(&lines_of(&["a", "b"])), 2);
}

//! Tests for signature building, marker filtering and tag extraction.

use picolog_core::{contains_event_marker, event_markers, extract_log_pattern,
    generate_signature};

// ============================================================================
// generate_signature tests
// ============================================================================

#[test]
fn test_generate_signature_all_fields() {
    let signature = generate_signature(
        &Some("TestEvent".to_string()),
        &Some("Notice".to_string()),
        &["Team_A".to_string(), "Team_B".to_string()],
        &["Subsystem1".to_string()],
    );

    // Teams and subsystems should be sorted
    assert!(signature.contains("TestEvent"));
    assert!(signature.contains("Notice"));
    assert!(signature.contains("Team_A"));
    assert!(signature.contains("Team_B"));
    assert!(signature.contains("Subsystem1"));
}

#[test]
fn test_generate_signature_null_values() {
    let signature = generate_signature(&None, &None, &[], &[]);

    assert_eq!(signature, "null|null||");
}

#[test]
fn test_generate_signature_sorts_teams_and_subsystems() {
    let sig1 = generate_signature(
        &Some("Event".to_string()),
        &None,
        &["B".to_string(), "A".to_string()],
        &["Z".to_string(), "Y".to_string()],
    );
    let sig2 = generate_signature(
        &Some("Event".to_string()),
        &None,
        &["A".to_string(), "B".to_string()],
        &["Y".to_string(), "Z".to_string()],
    );

    // Should be identical after sorting
    assert_eq!(sig1, sig2);
}

#[test]
fn test_generate_signature_exact_value() {
    let signature = generate_signature(
        &Some("EventA".to_string()),
        &Some("Notice".to_string()),
        &["Team_B".to_string(), "Team_A".to_string()],
        &["Physics".to_string(), "Combat".to_string()],
    );

    assert_eq!(signature, "EventA|Notice|Team_A,Team_B|Combat,Physics");
}

// ============================================================================
// contains_event_marker tests
// ============================================================================

#[test]
fn test_contains_event_marker_positive() {
    assert!(contains_event_marker("Some text AccountLoginCharacterStatus_Character more text"));
    assert!(contains_event_marker("<Vehicle Control Flow> player entered ship"));
    assert!(contains_event_marker("<Actor Death> player killed enemy"));
    assert!(contains_event_marker("<SystemQuit> player quit"));
    assert!(contains_event_marker("<Quantum Drive Arrived> at destination"));
}

#[test]
fn test_contains_event_marker_negative() {
    assert!(!contains_event_marker("This is a random log line"));
    assert!(!contains_event_marker("No markers here"));
    assert!(!contains_event_marker("<SomeOtherEvent> not tracked"));
    assert!(!contains_event_marker(""));
}

#[test]
fn test_contains_event_marker_partial_match() {
    // "Destruction>" is a partial match marker
    assert!(contains_event_marker("<Vehicle Destruction> ship exploded"));
    assert!(contains_event_marker("Something Destruction> something else"));
}

// ============================================================================
// extract_log_pattern tests
// ============================================================================

#[test]
fn test_extract_log_pattern_with_timestamp() {
    let line = "<2024-01-01T12:00:00.000Z> [Notice] <TestEvent> Some log message";
    let pattern = extract_log_pattern(line);

    assert!(pattern.is_some());
    let p = pattern.unwrap();
    assert_eq!(p.event_name, Some("TestEvent".to_string()));
    assert_eq!(p.severity, Some("Notice".to_string()));
}

#[test]
fn test_extract_log_pattern_without_timestamp() {
    let line = "[Notice] <TestEvent> Some log message without timestamp";
    let pattern = extract_log_pattern(line);

    // Should return None if no timestamp
    assert!(pattern.is_none());
}

#[test]
fn test_extract_log_pattern_extracts_teams() {
    let line = "<2024-01-01T12:00:00.000Z> [Team_Blue] [Team_Red] Combat event";
    let pattern = extract_log_pattern(line).unwrap();

    assert!(pattern.teams.contains(&"Team_Blue".to_string()));
    assert!(pattern.teams.contains(&"Team_Red".to_string()));
}

#[test]
fn test_extract_log_pattern_extracts_subsystems() {
    let line = "<2024-01-01T12:00:00.000Z> [Physics] [Combat] <Event> message";
    let pattern = extract_log_pattern(line).unwrap();

    assert!(pattern.subsystems.contains(&"Physics".to_string()));
    assert!(pattern.subsystems.contains(&"Combat".to_string()));
}

#[test]
fn test_extract_log_pattern_excludes_severity_from_subsystems() {
    let line = "<2024-01-01T12:00:00.000Z> [Notice] [Error] <Event> message";
    let pattern = extract_log_pattern(line).unwrap();

    // Notice and Error should NOT be in subsystems (they're severity tags)
    assert!(!pattern.subsystems.contains(&"Notice".to_string()));
    assert!(!pattern.subsystems.contains(&"Error".to_string()));
}

#[test]
fn test_extract_log_pattern_skips_date_events() {
    let line = "<2024-01-01T12:00:00.000Z> <2024-01-01> Some message";
    let pattern = extract_log_pattern(line).unwrap();

    // Should not extract dates as event names
    assert!(pattern.event_name.is_none() || !pattern.event_name.as_ref().unwrap().starts_with("20"));
}

#[test]
fn test_extract_log_pattern_unique_signatures() {
    let line1 = "<2024-01-01T12:00:00.000Z> [Notice] <EventA> message 1";
    let line2 = "<2024-01-01T12:00:00.000Z> [Notice] <EventA> message 2";
    let line3 = "<2024-01-01T12:00:00.000Z> [Notice] <EventB> message 3";

    let p1 = extract_log_pattern(line1).unwrap();
    let p2 = extract_log_pattern(line2).unwrap();
    let p3 = extract_log_pattern(line3).unwrap();

    // Same event type should have same signature
    assert_eq!(p1.signature, p2.signature);

    // Different event type should have different signature
    assert_ne!(p1.signature, p3.signature);
}

#[test]
fn test_extract_log_pattern_keeps_example_line() {
    let line = "<2024-01-01T12:00:00.000Z> [Notice] <TestEvent> payload";
    let pattern = extract_log_pattern(line).unwrap();

    // The example is the original unmodified line, timestamp included
    assert_eq!(pattern.example_line, line.to_string());
}

#[test]
fn test_extract_log_pattern_dedups_tags() {
    let line = "<2024-01-01T12:00:00.000Z> [Team_Red] [Team_Red] [Physics] [Physics] msg";
    let pattern = extract_log_pattern(line).unwrap();

    assert_eq!(pattern.teams, vec!["Team_Red".to_string()]);
    assert_eq!(pattern.subsystems, vec!["Physics".to_string()]);
}

#[test]
fn test_extract_log_pattern_generic_event_name() {
    let line = "<2024-01-01T12:00:00.000Z> <CLocalMissionPhaseMarker::CreateMarker> msg";
    let pattern = extract_log_pattern(line).unwrap();

    assert_eq!(
        pattern.event_name,
        Some("CLocalMissionPhaseMarker::CreateMarker".to_string())
    );
}

#[test]
fn test_extract_log_pattern_event_token_ends_at_first_close() {
    // After a maximal identifier run, a `>` closes the token at once; the
    // later `>` does not extend it
    let line = "<2024-01-01T12:00:00.000Z> <A::b>c> msg";
    let pattern = extract_log_pattern(line).unwrap();

    assert_eq!(pattern.event_name, Some("A::b".to_string()));
}

#[test]
fn test_extract_log_pattern_event_token_generic_suffix() {
    // A suffix group opened by `::` may carry angle brackets in its body
    let line = "<2024-01-01T12:00:00.000Z> <Inventory::Item<Gun>> x";
    let pattern = extract_log_pattern(line).unwrap();

    assert_eq!(pattern.event_name, Some("Inventory::Item<Gun>".to_string()));
}

#[test]
fn test_extract_log_pattern_no_tags() {
    let line = "<2024-01-01T12:00:00.000Z> nothing structured here";
    let pattern = extract_log_pattern(line).unwrap();

    assert_eq!(pattern.event_name, None);
    assert_eq!(pattern.severity, None);
    assert!(pattern.teams.is_empty());
    assert!(pattern.subsystems.is_empty());
    assert_eq!(pattern.signature, "null|null||");
}

// ============================================================================
// Event marker coverage tests
// ============================================================================

#[test]
fn test_all_event_markers_documented() {
    let markers = event_markers();

    // Verify that the marker catalogue is not empty
    assert!(!markers.is_empty());

    // Verify each category has at least one marker
    let connection_markers: Vec<_> = markers.iter()
        .filter(|m| m.contains("Login") || m.contains("Quit"))
        .collect();
    assert!(!connection_markers.is_empty(), "Should have connection markers");

    let vehicle_markers: Vec<_> = markers.iter()
        .filter(|m| m.contains("Vehicle") || m.contains("Quantum") || m.contains("Jump"))
        .collect();
    assert!(!vehicle_markers.is_empty(), "Should have vehicle markers");

    let combat_markers: Vec<_> = markers.iter()
        .filter(|m| m.contains("Death") || m.contains("Dead") || m.contains("Collision"))
        .collect();
    assert!(!combat_markers.is_empty(), "Should have combat markers");
}

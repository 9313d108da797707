use fastapi_verified::output::mode::OutputMode;
use fastapi_verified::output::shutdown_progress::{ShutdownPhase, ShutdownProgress, ShutdownProgressDisplay};

fn strip(s: &str) -> String {
    let mut out = String::new();
    let mut chars = s.chars().peekable();
    while let Some(c) = chars.next() {
        if c == '\x1b' && chars.peek() == Some(&'[') {
            chars.next();
            while let Some(d) = chars.next() {
                if d.is_ascii_alphabetic() {
                    break;
                }
            }
        } else {
            out.push(c);
        }
    }
    out
}

fn assert_contains(output: &str, expected: &str) {
    assert!(strip(output).contains(expected), "missing '{expected}' in:\n{output}");
}

fn assert_no_ansi(output: &str) {
    assert!(!output.contains("\x1b["));
}

fn assert_has_ansi(output: &str) {
    assert!(output.contains("\x1b["));
}

#[test]
fn test_shutdown_phase_labels() {
    assert_eq!(ShutdownPhase::GracePeriod.label(), "Grace Period");
    assert_eq!(ShutdownPhase::ForceClose.label(), "Force Close");
    assert_eq!(ShutdownPhase::Complete.label(), "Complete");
}

#[test]
fn test_shutdown_phase_equality() {
    assert_eq!(ShutdownPhase::GracePeriod, ShutdownPhase::GracePeriod);
    assert_ne!(ShutdownPhase::GracePeriod, ShutdownPhase::ForceClose);
    assert_ne!(ShutdownPhase::ForceClose, ShutdownPhase::Complete);
}

#[test]
fn test_shutdown_progress_new() {
    let progress = ShutdownProgress::new(ShutdownPhase::GracePeriod);
    assert_eq!(progress.phase, ShutdownPhase::GracePeriod);
    assert_eq!(progress.total_connections, 0);
    assert_eq!(progress.drained_connections, 0);
    assert_eq!(progress.in_flight_requests, 0);
    assert_eq!(progress.background_tasks, 0);
    assert_eq!(progress.cleanup_done, 0);
    assert_eq!(progress.cleanup_total, 0);
    assert!(progress.notes.is_empty());
}

#[test]
fn test_shutdown_progress_connections() {
    let progress = ShutdownProgress::new(ShutdownPhase::GracePeriod).connections(5, 10);
    assert_eq!(progress.drained_connections, 5);
    assert_eq!(progress.total_connections, 10);
}

#[test]
fn test_shutdown_progress_in_flight() {
    let progress = ShutdownProgress::new(ShutdownPhase::GracePeriod).in_flight(3);
    assert_eq!(progress.in_flight_requests, 3);
}

#[test]
fn test_shutdown_progress_background_tasks() {
    let progress = ShutdownProgress::new(ShutdownPhase::GracePeriod).background_tasks(2);
    assert_eq!(progress.background_tasks, 2);
}

#[test]
fn test_shutdown_progress_cleanup() {
    let progress = ShutdownProgress::new(ShutdownPhase::GracePeriod).cleanup(1, 5);
    assert_eq!(progress.cleanup_done, 1);
    assert_eq!(progress.cleanup_total, 5);
}

#[test]
fn test_shutdown_progress_note() {
    let progress = ShutdownProgress::new(ShutdownPhase::GracePeriod)
        .note("First note")
        .note("Second note");
    assert_eq!(progress.notes.len(), 2);
    assert_eq!(progress.notes[0], "First note");
    assert_eq!(progress.notes[1], "Second note");
}

#[test]
fn test_shutdown_progress_full_builder() {
    let progress = ShutdownProgress::new(ShutdownPhase::ForceClose)
        .connections(8, 10)
        .in_flight(1)
        .background_tasks(2)
        .cleanup(3, 4)
        .note("Forcing connections");
    assert_eq!(progress.phase, ShutdownPhase::ForceClose);
    assert_eq!(progress.drained_connections, 8);
    assert_eq!(progress.total_connections, 10);
    assert_eq!(progress.in_flight_requests, 1);
    assert_eq!(progress.background_tasks, 2);
    assert_eq!(progress.cleanup_done, 3);
    assert_eq!(progress.cleanup_total, 4);
    assert_eq!(progress.notes.len(), 1);
}

#[test]
fn test_display_custom_title() {
    let progress = ShutdownProgress::new(ShutdownPhase::GracePeriod);
    let display = ShutdownProgressDisplay::new(OutputMode::Plain).title(Some("Server Shutdown".to_string()));
    let output = display.render(&progress);
    assert_contains(&output, "Server Shutdown");
    assert!(!output.contains("Shutdown Progress"));
}

#[test]
fn test_display_no_title() {
    let progress = ShutdownProgress::new(ShutdownPhase::GracePeriod);
    let display = ShutdownProgressDisplay::new(OutputMode::Plain).title(None);
    let output = display.render(&progress);
    assert!(!output.contains("Shutdown Progress"));
    assert_contains(&output, "Phase:");
}

#[test]
fn test_display_progress_width() {
    let progress = ShutdownProgress::new(ShutdownPhase::GracePeriod).connections(5, 10);
    let display = ShutdownProgressDisplay::new(OutputMode::Plain).progress_width(10);
    let output = display.render(&progress);
    assert_contains(&output, "[#####-----]");
}

#[test]
fn test_display_progress_width_minimum() {
    let progress = ShutdownProgress::new(ShutdownPhase::GracePeriod).connections(4, 8);
    let display = ShutdownProgressDisplay::new(OutputMode::Plain).progress_width(2);
    let output = display.render(&progress);
    assert!(output.contains("[####----]"));
}

#[test]
fn renders_plain_shutdown_progress() {
    let progress = ShutdownProgress::new(ShutdownPhase::GracePeriod)
        .connections(3, 10)
        .in_flight(2)
        .background_tasks(1)
        .cleanup(1, 3)
        .note("Waiting for DB pool");
    let display = ShutdownProgressDisplay::new(OutputMode::Plain);
    let output = display.render(&progress);
    assert_contains(&output, "Shutdown Progress");
    assert_contains(&output, "Phase: Grace Period");
    assert_contains(&output, "Connections: 3/10 drained");
    assert_contains(&output, "In-flight requests: 2");
    assert_contains(&output, "Background tasks: 1");
    assert_contains(&output, "Cleanup: 1/3 steps");
    assert_contains(&output, "Note: Waiting for DB pool");
    assert_no_ansi(&output);
}

#[test]
fn renders_rich_shutdown_progress() {
    let progress = ShutdownProgress::new(ShutdownPhase::GracePeriod).connections(5, 10);
    let display = ShutdownProgressDisplay::new(OutputMode::Rich);
    let output = display.render(&progress);
    assert_has_ansi(&output);
    assert_contains(&output, "Grace Period");
    assert_contains(&output, "5/10 drained");
}

#[test]
fn renders_complete_phase() {
    let progress = ShutdownProgress::new(ShutdownPhase::Complete);
    let display = ShutdownProgressDisplay::new(OutputMode::Plain);
    let output = display.render(&progress);
    assert_contains(&output, "Shutdown complete");
}

#[test]
fn renders_rich_complete_phase_with_ansi() {
    let progress = ShutdownProgress::new(ShutdownPhase::Complete);
    let display = ShutdownProgressDisplay::new(OutputMode::Rich);
    let output = display.render(&progress);
    assert_has_ansi(&output);
    assert_contains(&output, "Shutdown complete");
}

#[test]
fn test_grace_period_phase() {
    let progress = ShutdownProgress::new(ShutdownPhase::GracePeriod);
    let display = ShutdownProgressDisplay::new(OutputMode::Plain);
    let output = display.render(&progress);
    assert_contains(&output, "Phase: Grace Period");
}

#[test]
fn test_force_close_phase() {
    let progress = ShutdownProgress::new(ShutdownPhase::ForceClose);
    let display = ShutdownProgressDisplay::new(OutputMode::Plain);
    let output = display.render(&progress);
    assert_contains(&output, "Phase: Force Close");
}

#[test]
fn test_no_connections() {
    let progress = ShutdownProgress::new(ShutdownPhase::GracePeriod);
    let display = ShutdownProgressDisplay::new(OutputMode::Plain);
    let output = display.render(&progress);
    assert_contains(&output, "Connections: none");
}

#[test]
fn test_zero_total_connections() {
    let progress = ShutdownProgress::new(ShutdownPhase::GracePeriod).connections(0, 0);
    let display = ShutdownProgressDisplay::new(OutputMode::Plain);
    let output = display.render(&progress);
    assert_contains(&output, "Connections: none");
}

#[test]
fn test_all_connections_drained() {
    let progress = ShutdownProgress::new(ShutdownPhase::GracePeriod).connections(10, 10);
    let display = ShutdownProgressDisplay::new(OutputMode::Plain).progress_width(10);
    let output = display.render(&progress);
    assert_contains(&output, "10/10 drained");
    assert_contains(&output, "[##########]");
}

#[test]
fn test_no_in_flight_requests_omitted() {
    let progress = ShutdownProgress::new(ShutdownPhase::GracePeriod).in_flight(0);
    let display = ShutdownProgressDisplay::new(OutputMode::Plain);
    let output = display.render(&progress);
    assert!(!output.contains("In-flight"));
}

#[test]
fn test_no_background_tasks_omitted() {
    let progress = ShutdownProgress::new(ShutdownPhase::GracePeriod).background_tasks(0);
    let display = ShutdownProgressDisplay::new(OutputMode::Plain);
    let output = display.render(&progress);
    assert!(!output.contains("Background tasks"));
}

#[test]
fn test_no_cleanup_omitted() {
    let progress = ShutdownProgress::new(ShutdownPhase::GracePeriod).cleanup(0, 0);
    let display = ShutdownProgressDisplay::new(OutputMode::Plain);
    let output = display.render(&progress);
    assert!(!output.contains("Cleanup:"));
}

#[test]
fn test_multiple_notes() {
    let progress = ShutdownProgress::new(ShutdownPhase::GracePeriod).note("Note 1").note("Note 2").note("Note 3");
    let display = ShutdownProgressDisplay::new(OutputMode::Plain);
    let output = display.render(&progress);
    assert_contains(&output, "Note: Note 1");
    assert_contains(&output, "Note: Note 2");
    assert_contains(&output, "Note: Note 3");
}

#[test]
fn test_progress_bar_empty() {
    let progress = ShutdownProgress::new(ShutdownPhase::GracePeriod).connections(0, 10);
    let display = ShutdownProgressDisplay::new(OutputMode::Plain).progress_width(10);
    let output = display.render(&progress);
    assert_contains(&output, "[----------]");
}

#[test]
fn test_progress_bar_half() {
    let progress = ShutdownProgress::new(ShutdownPhase::GracePeriod).connections(5, 10);
    let display = ShutdownProgressDisplay::new(OutputMode::Plain).progress_width(10);
    let output = display.render(&progress);
    assert_contains(&output, "[#####-----]");
}

#[test]
fn test_progress_bar_full() {
    let progress = ShutdownProgress::new(ShutdownPhase::GracePeriod).connections(10, 10);
    let display = ShutdownProgressDisplay::new(OutputMode::Plain).progress_width(10);
    let output = display.render(&progress);
    assert_contains(&output, "[##########]");
}

#[test]
fn test_progress_bar_one_of_many() {
    let progress = ShutdownProgress::new(ShutdownPhase::GracePeriod).connections(1, 100);
    let display = ShutdownProgressDisplay::new(OutputMode::Plain).progress_width(20);
    let output = display.render(&progress);
    assert!(output.contains("[--------------------]"));
}

#[test]
fn plain_render_exact_text() {
    let progress = ShutdownProgress::new(ShutdownPhase::GracePeriod).connections(1, 2);
    let display = ShutdownProgressDisplay::new(OutputMode::Plain).title(Some("T\u{e9}".to_string())).progress_width(8);
    let output = display.render(&progress);
    assert_eq!(output, "T\u{e9}\n---\nPhase: Grace Period\nConnections: 1/2 drained [####----]");
}

#[test]
fn overfull_bar_is_capped() {
    let progress = ShutdownProgress::new(ShutdownPhase::GracePeriod).connections(30, 10);
    let display = ShutdownProgressDisplay::new(OutputMode::Plain).progress_width(8);
    assert!(display.render(&progress).contains("[########]"));
}

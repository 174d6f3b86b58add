//! Tests for the INI-style source-description parser.

use meeting_engine::{parse_backend_name, parse_color, parse_display_name, parse_field};

#[test]
fn test_parse_display_name_simple() {
    let data = "[Data Source]\nDisplayName=Work Calendar\nEnabled=true";
    assert_eq!(parse_display_name(data), Some("Work Calendar".to_string()));
}

#[test]
fn test_parse_display_name_with_sections() {
    let data = "[Data Source]\nDisplayName=Personal\n[Calendar]\nBackendName=local";
    assert_eq!(parse_display_name(data), Some("Personal".to_string()));
}

#[test]
fn test_parse_display_name_missing() {
    let data = "[Data Source]\nEnabled=true\n[Calendar]";
    assert_eq!(parse_display_name(data), None);
}

#[test]
fn test_parse_color_hex() {
    let data = "[Calendar]\nColor=#62a0ea\nBackendName=local";
    assert_eq!(parse_color(data), Some("#62a0ea".to_string()));
}

#[test]
fn test_parse_color_missing() {
    let data = "[Calendar]\nBackendName=local";
    assert_eq!(parse_color(data), None);
}

#[test]
fn test_parse_color_empty_not_shadowing() {
    // A sibling section's empty Color= must not shadow the real one.
    let data = "[WebDAV Backend]\nColor=\n[Calendar]\nColor=#ff0000";
    assert_eq!(parse_color(data), Some("#ff0000".to_string()));
}

#[test]
fn test_parse_color_outside_section_ignored() {
    let data = "[Data Source]\nColor=#123456\n[Calendar]\nBackendName=local";
    assert_eq!(parse_color(data), None);
}

#[test]
fn test_parse_backend_name_in_section() {
    let data = "[Data Source]\nBackendName=wrong\n[Calendar]\nBackendName=caldav";
    assert_eq!(parse_backend_name(data), Some("caldav".to_string()));
}

#[test]
fn test_parse_backend_name_missing() {
    let data = "[Data Source]\nDisplayName=X";
    assert_eq!(parse_backend_name(data), None);
}

#[test]
fn test_parse_field_generic() {
    let data = "[Data Source]\nIdentity=tasks::something\nEnabled=true";
    assert_eq!(parse_field(data, "Identity"), Some("tasks::something".to_string()));
    assert_eq!(parse_field(data, "Enabled"), Some("true".to_string()));
    assert_eq!(parse_field(data, "Missing"), None);
}

#[test]
fn test_parse_field_trims_whitespace() {
    let data = "  DisplayName=Padded  \r\n";
    assert_eq!(parse_field(data, "DisplayName"), Some("Padded".to_string()));
}

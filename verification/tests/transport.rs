// SSE data-line extraction, prompt formatting, and transport types.

use conch::transport::ConnectionStatus;
use conch::transport::SessionInfo;
use conch::transport::extract_sse_data_lines;
use conch::transport::format_prompt_with_context;

// ===== SSE Line Parsing Tests =====

#[test]
fn test_extract_sse_data_lines() {
    let chunk = "data: {\"type\":\"server.connected\",\"properties\":{}}\n\ndata: {\"type\":\"server.heartbeat\",\"properties\":{}}\n\n";
    let lines = extract_sse_data_lines(chunk);
    assert_eq!(lines.len(), 2);
    assert!(lines[0].contains("server.connected"));
    assert!(lines[1].contains("server.heartbeat"));
}

#[test]
fn test_extract_sse_data_lines_no_space() {
    let chunk = "data:{\"type\":\"server.heartbeat\",\"properties\":{}}\n\n";
    let lines = extract_sse_data_lines(chunk);
    assert_eq!(lines.len(), 1);
}

#[test]
fn test_extract_sse_ignores_non_data_lines() {
    let chunk = "event: message\ndata: {\"type\":\"server.connected\",\"properties\":{}}\nid: 1\n\n";
    let lines = extract_sse_data_lines(chunk);
    assert_eq!(lines.len(), 1);
}

#[test]
fn test_extract_sse_strips_crlf() {
    let chunk = "data: one\r\ndata: two\r\n";
    let lines = extract_sse_data_lines(chunk);
    assert_eq!(lines, vec!["one", "two"]);
}

#[test]
fn test_extract_sse_empty_chunk() {
    let lines = extract_sse_data_lines("");
    assert!(lines.is_empty());
}

// ===== Context Formatting Tests =====

#[test]
fn test_format_prompt_no_context() {
    let result = format_prompt_with_context("hello", None, &[]);
    assert_eq!(result, "hello");
}

#[test]
fn test_format_prompt_with_current_focus() {
    let result = format_prompt_with_context("do something", Some("src/main.rs"), &[]);
    assert!(result.contains("Currently focused on: src/main.rs"));
    assert!(result.contains("do something"));
}

#[test]
fn test_format_prompt_with_recent_files() {
    let result = format_prompt_with_context("fix it", None, &["src/a.rs", "src/b.rs"]);
    assert!(result.contains("Recent files: src/a.rs, src/b.rs"));
    assert!(result.contains("fix it"));
}

#[test]
fn test_format_prompt_with_full_context() {
    let result = format_prompt_with_context(
        "refactor this",
        Some("src/lib.rs"),
        &["src/main.rs"],
    );
    assert!(result.contains("Currently focused on: src/lib.rs"));
    assert!(result.contains("Recent files: src/main.rs"));
    assert!(result.contains("refactor this"));
}

#[test]
fn test_format_prompt_exact_shape() {
    let result = format_prompt_with_context("go", Some("a.rs"), &["b.rs"]);
    assert_eq!(
        result,
        "[Context: Currently focused on: a.rs. Recent files: b.rs]\ngo"
    );
}

// ===== Connection Status Tests =====

#[test]
fn test_connection_status_variants() {
    let s = ConnectionStatus::Connected;
    assert_eq!(s, ConnectionStatus::Connected);
    assert_ne!(s, ConnectionStatus::Disconnected);
    assert_ne!(s, ConnectionStatus::Reconnecting);
}

// ===== Session Info =====

#[test]
fn test_session_info_fields() {
    let info = SessionInfo {
        id: "ses_1".to_string(),
        slug: Some("calm-otter".to_string()),
        directory: None,
        title: None,
    };
    assert_eq!(info.id, "ses_1");
    assert_eq!(info.slug.as_deref(), Some("calm-otter"));
    assert!(info.directory.is_none());
}

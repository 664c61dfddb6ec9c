// Focus entries, history navigation, follow mode, and event mapping.

use conch::focus::FocusEntry;
use conch::focus::FocusState;
use conch::focus::map_tool_event;
use conch::focus::parse_bash_command;
use conch::transport::ToolEvent;
use conch::transport::ToolInput;

fn make_tool_event(tool: &str, input: ToolInput, state: &str) -> ToolEvent {
    ToolEvent {
        tool: tool.to_string(),
        input,
        state: state.to_string(),
    }
}

fn file_input(path: &str) -> ToolInput {
    ToolInput {
        file_path: Some(path.to_string()),
        command: None,
        path: None,
    }
}

fn command_input(command: &str) -> ToolInput {
    ToolInput {
        file_path: None,
        command: Some(command.to_string()),
        path: None,
    }
}

fn path_input(path: &str) -> ToolInput {
    ToolInput {
        file_path: None,
        command: None,
        path: Some(path.to_string()),
    }
}

// ===== FocusEntry Enum Tests =====

#[test]
fn test_focus_entry_file_creation() {
    let entry = FocusEntry::File("src/App.tsx".to_string());
    match &entry {
        FocusEntry::File(p) => assert_eq!(p, "src/App.tsx"),
        _ => panic!("expected File variant"),
    }
}

#[test]
fn test_focus_entry_directory_creation() {
    let entry = FocusEntry::Directory("src/components".to_string());
    match &entry {
        FocusEntry::Directory(p) => assert_eq!(p, "src/components"),
        _ => panic!("expected Directory variant"),
    }
}

#[test]
fn test_focus_entry_branch_creation() {
    let entry = FocusEntry::Branch("main".to_string());
    match &entry {
        FocusEntry::Branch(name) => assert_eq!(name, "main"),
        _ => panic!("expected Branch variant"),
    }
}

#[test]
fn test_focus_entry_commit_creation() {
    let entry = FocusEntry::Commit("abc1234".to_string());
    match &entry {
        FocusEntry::Commit(hash) => assert_eq!(hash, "abc1234"),
        _ => panic!("expected Commit variant"),
    }
}

#[test]
fn test_focus_entry_equality() {
    let a = FocusEntry::File("src/main.rs".to_string());
    let b = FocusEntry::File("src/main.rs".to_string());
    let c = FocusEntry::File("src/lib.rs".to_string());
    assert_eq!(a, b);
    assert_ne!(a, c);
}

#[test]
fn test_focus_entry_type_discrimination() {
    let entries = vec![
        FocusEntry::File("a.rs".to_string()),
        FocusEntry::Directory("src/".to_string()),
        FocusEntry::Branch("main".into()),
        FocusEntry::Commit("abc".into()),
    ];
    let types: Vec<&str> = entries
        .iter()
        .map(|e| match e {
            FocusEntry::File(_) => "file",
            FocusEntry::Directory(_) => "directory",
            FocusEntry::Branch(_) => "branch",
            FocusEntry::Commit(_) => "commit",
        })
        .collect();
    assert_eq!(types, vec!["file", "directory", "branch", "commit"]);
}

// ===== History List Tests =====

#[test]
fn test_history_list_creation() {
    let state = FocusState::new();
    assert_eq!(state.len(), 0);
    assert!(state.entries().is_empty());
}

#[test]
fn test_history_list_append() {
    let mut state = FocusState::new();
    state.append(FocusEntry::File("a.rs".to_string()));
    assert_eq!(state.len(), 1);
    assert_eq!(state.entries()[0], FocusEntry::File("a.rs".to_string()));
}

#[test]
fn test_history_list_immutability() {
    // The entries slice from before append is not mutated — we verify by cloning before.
    let mut state = FocusState::new();
    state.append(FocusEntry::File("a.rs".to_string()));
    let snapshot = state.entries().to_vec();
    state.append(FocusEntry::File("b.rs".to_string()));
    // snapshot still has 1 entry, state has 2
    assert_eq!(snapshot.len(), 1);
    assert_eq!(state.len(), 2);
}

#[test]
fn test_history_list_ordering() {
    let mut state = FocusState::new();
    state.append(FocusEntry::File("first.rs".to_string()));
    state.append(FocusEntry::File("second.rs".to_string()));
    state.append(FocusEntry::File("third.rs".to_string()));
    // Newest (third) is at index 0
    assert_eq!(state.entries()[0], FocusEntry::File("third.rs".to_string()));
    assert_eq!(state.entries()[2], FocusEntry::File("first.rs".to_string()));
}

#[test]
fn test_history_list_indexing() {
    let mut state = FocusState::new();
    state.append(FocusEntry::Branch("main".into()));
    state.append(FocusEntry::File("x.rs".to_string()));
    assert_eq!(state.entries()[0], FocusEntry::File("x.rs".to_string()));
    assert_eq!(state.entries()[1], FocusEntry::Branch("main".into()));
}

// ===== Pointer Tests =====

#[test]
fn test_pointer_initialization() {
    let state = FocusState::new();
    assert_eq!(state.pointer(), 0);
}

#[test]
fn test_pointer_movement_up() {
    let mut state = FocusState::new();
    state.append(FocusEntry::File("a.rs".to_string()));
    state.append(FocusEntry::File("b.rs".to_string()));
    state.append(FocusEntry::File("c.rs".to_string()));
    // Move down first, then up
    state.move_down();
    state.move_down();
    assert_eq!(state.pointer(), 2);
    state.move_up();
    assert_eq!(state.pointer(), 1);
}

#[test]
fn test_pointer_movement_down() {
    let mut state = FocusState::new();
    state.append(FocusEntry::File("a.rs".to_string()));
    state.append(FocusEntry::File("b.rs".to_string()));
    state.move_down();
    assert_eq!(state.pointer(), 1);
}

#[test]
fn test_pointer_bounds_checking() {
    let mut state = FocusState::new();
    // Moving on empty state shouldn't panic
    state.move_up();
    state.move_down();
    assert_eq!(state.pointer(), 0);

    state.append(FocusEntry::File("a.rs".to_string()));
    // Can't go below 0
    state.move_up();
    assert_eq!(state.pointer(), 0);
    // Can't go past last entry
    state.move_down();
    assert_eq!(state.pointer(), 0); // only 1 entry, can't go past it
}

#[test]
fn test_pointer_at_current_entry() {
    let mut state = FocusState::new();
    assert!(state.current_entry().is_none());
    state.append(FocusEntry::Branch("dev".into()));
    assert_eq!(state.current_entry(), Some(&FocusEntry::Branch("dev".into())));
}

// ===== Follow Mode Tests =====

#[test]
fn test_follow_mode_default_on() {
    let state = FocusState::new();
    assert!(state.follow_mode());
}

#[test]
fn test_follow_mode_toggle_off() {
    let mut state = FocusState::new();
    state.toggle_follow_mode();
    assert!(!state.follow_mode());
}

#[test]
fn test_follow_mode_toggle_on() {
    let mut state = FocusState::new();
    state.toggle_follow_mode(); // off
    state.toggle_follow_mode(); // on
    assert!(state.follow_mode());
}

#[test]
fn test_follow_mode_pointer_advancement() {
    let mut state = FocusState::new();
    state.append(FocusEntry::File("a.rs".to_string()));
    assert_eq!(state.pointer(), 0);
    state.append(FocusEntry::File("b.rs".to_string()));
    // Follow mode on: pointer stays at 0 (newest)
    assert_eq!(state.pointer(), 0);
    assert_eq!(
        state.current_entry(),
        Some(&FocusEntry::File("b.rs".to_string()))
    );
}

#[test]
fn test_follow_mode_pointer_stays_put() {
    let mut state = FocusState::new();
    state.append(FocusEntry::File("a.rs".to_string()));
    state.toggle_follow_mode(); // off
    // pointer is at 0, pointing to "a.rs"
    state.append(FocusEntry::File("b.rs".to_string()));
    // pointer increments to 1 to keep pointing at "a.rs"
    assert_eq!(state.pointer(), 1);
    assert_eq!(
        state.current_entry(),
        Some(&FocusEntry::File("a.rs".to_string()))
    );
}

#[test]
fn test_follow_mode_manual_movement_disables() {
    let mut state = FocusState::new();
    state.append(FocusEntry::File("a.rs".to_string()));
    state.append(FocusEntry::File("b.rs".to_string()));
    assert!(state.follow_mode());
    state.move_down();
    assert!(!state.follow_mode());
}

// ===== Event-to-Focus Mapping Tests =====

#[test]
fn test_map_read_tool_to_file_focus() {
    let event = make_tool_event("read", file_input("src/App.tsx"), "completed");
    let entry = map_tool_event(&event).unwrap();
    assert_eq!(entry, FocusEntry::File("src/App.tsx".to_string()));
}

#[test]
fn test_map_write_tool_to_file_focus() {
    let mut input = file_input("src/utils.ts");
    // The content field of a write is not part of the extracted input.
    input.command = None;
    let event = make_tool_event("write", input, "completed");
    let entry = map_tool_event(&event).unwrap();
    assert_eq!(entry, FocusEntry::File("src/utils.ts".to_string()));
}

#[test]
fn test_map_edit_tool_to_file_focus() {
    let event = make_tool_event("edit", file_input("README.md"), "completed");
    let entry = map_tool_event(&event).unwrap();
    assert_eq!(entry, FocusEntry::File("README.md".to_string()));
}

#[test]
fn test_map_bash_cd_to_directory_focus() {
    let event = make_tool_event("bash", command_input("cd src"), "completed");
    let entry = map_tool_event(&event).unwrap();
    assert_eq!(entry, FocusEntry::Directory("src".to_string()));
}

#[test]
fn test_map_bash_git_checkout_to_branch_focus() {
    let event = make_tool_event("bash", command_input("git checkout main"), "completed");
    let entry = map_tool_event(&event).unwrap();
    assert_eq!(entry, FocusEntry::Branch("main".to_string()));
}

#[test]
fn test_map_bash_git_commit_to_commit_focus() {
    let event = make_tool_event(
        "bash",
        command_input("git commit -m 'initial commit'"),
        "completed",
    );
    let entry = map_tool_event(&event).unwrap();
    assert_eq!(entry, FocusEntry::Commit("pending".to_string()));
}

#[test]
fn test_map_list_tool_to_directory_focus() {
    let event = make_tool_event("list", path_input("src/components"), "completed");
    let entry = map_tool_event(&event).unwrap();
    assert_eq!(entry, FocusEntry::Directory("src/components".to_string()));
}

#[test]
fn test_map_grep_tool_no_op() {
    let event = make_tool_event("grep", path_input("src/"), "completed");
    assert!(map_tool_event(&event).is_none());
}

#[test]
fn test_map_unknown_tool_no_op() {
    let event = make_tool_event("frobnicate", ToolInput::none(), "completed");
    assert!(map_tool_event(&event).is_none());
}

#[test]
fn test_bash_command_cd_with_path() {
    assert_eq!(
        parse_bash_command("cd src/"),
        Some(FocusEntry::Directory("src/".to_string()))
    );
    assert_eq!(
        parse_bash_command("cd ./src"),
        Some(FocusEntry::Directory("./src".to_string()))
    );
    assert_eq!(
        parse_bash_command("cd /absolute/path"),
        Some(FocusEntry::Directory("/absolute/path".to_string()))
    );
}

#[test]
fn test_bash_command_git_checkout_branch() {
    assert_eq!(
        parse_bash_command("git checkout -b new-branch"),
        Some(FocusEntry::Branch("new-branch".to_string()))
    );
    assert_eq!(
        parse_bash_command("git checkout main"),
        Some(FocusEntry::Branch("main".to_string()))
    );
    assert_eq!(
        parse_bash_command("git switch main"),
        Some(FocusEntry::Branch("main".to_string()))
    );
}

#[test]
fn test_bash_command_git_commit_hash_extraction() {
    // We use "pending" since the command itself doesn't contain the hash
    assert_eq!(
        parse_bash_command("git commit -m 'fix bug'"),
        Some(FocusEntry::Commit("pending".to_string()))
    );
}

#[test]
fn test_malformed_tool_event_handling() {
    // Missing path field
    let event = make_tool_event("read", ToolInput::none(), "completed");
    assert!(map_tool_event(&event).is_none());

    // Non-completed state
    let event = make_tool_event("read", file_input("a.rs"), "running");
    assert!(map_tool_event(&event).is_none());

    // Empty input
    let event = make_tool_event("write", ToolInput::none(), "completed");
    assert!(map_tool_event(&event).is_none());
}

// ===== Context Generation Tests =====

#[test]
fn test_get_current_focus() {
    let mut state = FocusState::new();
    assert!(state.current_entry().is_none());
    state.append(FocusEntry::File("src/App.tsx".to_string()));
    assert_eq!(
        state.current_entry(),
        Some(&FocusEntry::File("src/App.tsx".to_string()))
    );
}

#[test]
fn test_get_recent_focus_by_type() {
    let mut state = FocusState::new();
    state.append(FocusEntry::Branch("main".into()));
    state.append(FocusEntry::Directory("src/".to_string()));
    state.append(FocusEntry::File("a.rs".to_string()));
    state.append(FocusEntry::Commit("abc123".into()));

    let (file, dir, branch, commit) = state.recent_by_type();
    assert_eq!(file, Some(&FocusEntry::File("a.rs".to_string())));
    assert_eq!(dir, Some(&FocusEntry::Directory("src/".to_string())));
    assert_eq!(branch, Some(&FocusEntry::Branch("main".into())));
    assert_eq!(commit, Some(&FocusEntry::Commit("abc123".into())));
}

#[test]
fn test_recent_focus_with_missing_types() {
    let mut state = FocusState::new();
    state.append(FocusEntry::Directory("src/".to_string()));
    state.append(FocusEntry::File("a.rs".to_string()));

    let (file, dir, branch, commit) = state.recent_by_type();
    assert!(file.is_some());
    assert!(dir.is_some());
    assert!(branch.is_none());
    assert!(commit.is_none());
}

#[test]
fn test_context_string_mentions_each_once() {
    let mut state = FocusState::new();
    state.append(FocusEntry::Branch("main".into()));
    state.append(FocusEntry::Directory("src/".to_string()));
    state.append(FocusEntry::File("src/App.tsx".to_string()));

    let ctx = state.to_context_string().unwrap();
    assert!(ctx.starts_with("[Context: "));
    assert!(ctx.contains("Currently focused on file src/App.tsx"));
    assert!(ctx.contains("on branch main"));
    // The directory "src/" is already contained in the focus text
    assert!(!ctx.contains("in directory"));
}

#[test]
fn test_context_string_empty_history() {
    let state = FocusState::new();
    assert!(state.to_context_string().is_none());
}

// ===== Session Resumption Tests =====

#[test]
fn test_rebuild_history_from_log() {
    let events = vec![
        make_tool_event("read", file_input("a.rs"), "completed"),
        make_tool_event("bash", command_input("cd src"), "completed"),
        make_tool_event("write", file_input("b.rs"), "completed"),
    ];
    let state = FocusState::rebuild_from_events(&events);
    assert_eq!(state.len(), 3);
    // Newest (last event) at index 0
    assert_eq!(state.entries()[0], FocusEntry::File("b.rs".to_string()));
}

#[test]
fn test_rebuild_preserves_order() {
    let events = vec![
        make_tool_event("read", file_input("first.rs"), "completed"),
        make_tool_event("read", file_input("second.rs"), "completed"),
    ];
    let state = FocusState::rebuild_from_events(&events);
    assert_eq!(state.entries()[0], FocusEntry::File("second.rs".to_string()));
    assert_eq!(state.entries()[1], FocusEntry::File("first.rs".to_string()));
}

#[test]
fn test_rebuild_with_empty_log() {
    let state = FocusState::rebuild_from_events(&[]);
    assert_eq!(state.len(), 0);
    assert!(state.current_entry().is_none());
}

// ===== Time Travel Tests =====

#[test]
fn test_navigate_to_past_focus() {
    let mut state = FocusState::new();
    state.append(FocusEntry::File("old.rs".to_string()));
    state.append(FocusEntry::File("new.rs".to_string()));
    // Pointer starts at 0 (new.rs)
    state.move_down(); // now at 1 (old.rs)
    assert_eq!(
        state.current_entry(),
        Some(&FocusEntry::File("old.rs".to_string()))
    );
}

// ===== Integration with History Growth Tests =====

#[test]
fn test_history_growth_with_follow_mode() {
    let mut state = FocusState::new();
    assert!(state.follow_mode());
    for i in 0..5 {
        state.append(FocusEntry::File(format!("{}.rs", i)));
        assert_eq!(state.pointer(), 0);
    }
    assert_eq!(state.len(), 5);
    assert_eq!(
        state.current_entry(),
        Some(&FocusEntry::File("4.rs".to_string()))
    );
}

#[test]
fn test_history_growth_without_follow_mode() {
    let mut state = FocusState::new();
    state.append(FocusEntry::File("anchor.rs".to_string()));
    state.toggle_follow_mode(); // off

    // Append more entries — pointer should track "anchor.rs"
    state.append(FocusEntry::File("b.rs".to_string()));
    state.append(FocusEntry::File("c.rs".to_string()));

    assert_eq!(
        state.current_entry(),
        Some(&FocusEntry::File("anchor.rs".to_string()))
    );
    assert_eq!(state.pointer(), 2); // anchor moved to index 2
}

#[test]
fn test_duplicate_focus_handling() {
    let mut state = FocusState::new();
    state.append(FocusEntry::File("a.rs".to_string()));
    state.append(FocusEntry::File("a.rs".to_string()));
    // Duplicates are both added (no dedup)
    assert_eq!(state.len(), 2);
}

// ===== Display Formatting Tests =====

#[test]
fn test_focus_entry_display_file() {
    let entry = FocusEntry::File("src/App.tsx".to_string());
    let display = entry.display_label();
    assert!(display.contains("App.tsx"));
    assert!(display.contains("\u{1F4C4}"));
}

#[test]
fn test_focus_entry_display_directory() {
    let entry = FocusEntry::Directory("src/".to_string());
    let display = entry.display_label();
    assert!(display.contains("src/"));
    assert!(display.contains("\u{1F4C1}"));
}

#[test]
fn test_focus_entry_display_branch() {
    let entry = FocusEntry::Branch("main".into());
    let display = entry.display_label();
    assert!(display.contains("main"));
    assert!(display.contains("\u{1F33F}"));
}

#[test]
fn test_focus_entry_display_commit() {
    let entry = FocusEntry::Commit("abc1234".into());
    let display = entry.display_label();
    assert!(display.contains("abc1234"));
    assert!(display.contains("\u{1F4E6}"));
}

#[test]
fn test_focus_stack_display_with_pointer() {
    let mut state = FocusState::new();
    state.append(FocusEntry::File("old.rs".to_string()));
    state.append(FocusEntry::File("new.rs".to_string()));

    // Build display lines like the TUI would
    let lines: Vec<String> = state
        .entries()
        .iter()
        .enumerate()
        .map(|(i, e)| {
            let indicator = if i == state.pointer() { "\u{25B8} " } else { "  " };
            format!("{}{}", indicator, e.display_label())
        })
        .collect();

    assert!(lines[0].starts_with("\u{25B8} ")); // pointer at index 0
    assert!(lines[1].starts_with("  ")); // no pointer
}

// ===== Bash Parsing Edge Cases =====

#[test]
fn test_bash_command_bare_cd_goes_home() {
    assert_eq!(
        parse_bash_command("cd"),
        Some(FocusEntry::Directory("~".to_string()))
    );
}

#[test]
fn test_bash_command_quoted_path() {
    assert_eq!(
        parse_bash_command("cd 'my dir'"),
        Some(FocusEntry::Directory("my dir".to_string()))
    );
}

#[test]
fn test_bash_command_switch_create() {
    assert_eq!(
        parse_bash_command("git switch -c feature"),
        Some(FocusEntry::Branch("feature".to_string()))
    );
}

#[test]
fn test_bash_command_irrelevant() {
    assert!(parse_bash_command("ls -la").is_none());
    assert!(parse_bash_command("git status").is_none());
    assert!(parse_bash_command("git checkout ").is_none());
}

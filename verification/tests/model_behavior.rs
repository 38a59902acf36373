//! The token codecs, the relational decoders and the settings file.

use devora_store::models::{CodingAgentType, CommandMode, ItemType};
use devora_store::relational::{
    pending_schema_steps, decode_file_card_row, decode_item_row, decode_todo_row, RawFileCardRow,
    RawItemRow, RawTodoRow,
};
use devora_store::settings::{AppSettings, SettingsFile};

#[test]
fn item_type_tokens() {
    assert_eq!(ItemType::Note.as_token(), "note");
    assert_eq!(ItemType::Ide.as_token(), "ide");
    assert_eq!(ItemType::File.as_token(), "file");
    assert_eq!(ItemType::Url.as_token(), "url");
    assert_eq!(ItemType::RemoteIde.as_token(), "remote-ide");
    assert_eq!(ItemType::Command.as_token(), "command");
    assert_eq!(ItemType::from_token("remote-ide"), Some(ItemType::RemoteIde));
    assert_eq!(ItemType::from_token("nonsense"), None);
    assert_eq!(ItemType::from_token(""), None);
}

#[test]
fn command_mode_tokens() {
    assert_eq!(CommandMode::Background.as_token(), "background");
    assert_eq!(CommandMode::Output.as_token(), "output");
    assert_eq!(CommandMode::from_token("output"), Some(CommandMode::Output));
    assert_eq!(CommandMode::from_token("OUTPUT"), None);
}

#[test]
fn coding_agent_tokens() {
    assert_eq!(CodingAgentType::Aider.as_token(), "aider");
    assert_eq!(CodingAgentType::Opencode.as_token(), "opencode");
    assert_eq!(CodingAgentType::GeminiCli.as_token(), "gemini-cli");
    assert_eq!(
        CodingAgentType::from_token("gemini-cli"),
        Some(CodingAgentType::GeminiCli)
    );
    assert_eq!(CodingAgentType::from_token("gemini"), None);
}

fn raw_item(item_type: &str, command_mode: Option<&str>, agent: Option<&str>) -> RawItemRow {
    RawItemRow {
        id: "i1".to_string(),
        project_id: "p1".to_string(),
        item_type: item_type.to_string(),
        title: "t".to_string(),
        content: "c".to_string(),
        ide_type: None,
        remote_ide_type: None,
        coding_agent_type: agent.map(|s| s.to_string()),
        coding_agent_args: None,
        coding_agent_env: None,
        command_mode: command_mode.map(|s| s.to_string()),
        command_cwd: None,
        command_host: None,
        order: 3,
        created_at: "t0".to_string(),
        updated_at: "t1".to_string(),
    }
}

#[test]
fn decoding_unknown_tokens_never_fails_a_read() {
    let it = decode_item_row(raw_item("url", Some("output"), Some("aider")));
    assert_eq!(it.item_type, ItemType::Url);
    assert_eq!(it.command_mode, Some(CommandMode::Output));
    assert_eq!(it.coding_agent_type, Some(CodingAgentType::Aider));

    let odd = decode_item_row(raw_item("hologram", Some("sideways"), Some("robot")));
    assert_eq!(odd.item_type, ItemType::Note);
    assert_eq!(odd.command_mode, None);
    assert_eq!(odd.coding_agent_type, None);
    assert_eq!(odd.order, 3);
}

#[test]
fn decode_todo_and_card_flags() {
    let td = decode_todo_row(RawTodoRow {
        id: "a".to_string(),
        project_id: "p".to_string(),
        content: "x".to_string(),
        completed: 1,
        order: 0,
        indent_level: 2,
        created_at: "t".to_string(),
        updated_at: "t".to_string(),
        completed_at: Some("t".to_string()),
    });
    assert!(td.completed);

    let td0 = decode_todo_row(RawTodoRow {
        id: "b".to_string(),
        project_id: "p".to_string(),
        content: "y".to_string(),
        completed: 0,
        order: 1,
        indent_level: 0,
        created_at: "t".to_string(),
        updated_at: "t".to_string(),
        completed_at: None,
    });
    assert!(!td0.completed);

    let fc = decode_file_card_row(RawFileCardRow {
        id: "f".to_string(),
        project_id: "p".to_string(),
        filename: "a".to_string(),
        file_path: "/a".to_string(),
        position_x: 5,
        position_y: 6,
        is_expanded: 1,
        is_minimized: 0,
        z_index: 2,
        created_at: "t".to_string(),
        updated_at: "t".to_string(),
    });
    assert!(fc.is_expanded);
    assert!(!fc.is_minimized);
    assert_eq!(fc.z_index, 2);
}

#[test]
fn schema_steps_resume_from_any_version() {
    assert_eq!(pending_schema_steps(0), vec![1, 2, 3, 4, 5]);
    assert_eq!(pending_schema_steps(3), vec![4, 5]);
    assert_eq!(pending_schema_steps(5), Vec::<i32>::new());
    assert_eq!(pending_schema_steps(9), Vec::<i32>::new());
}

#[test]
fn settings_file_migrates_legacy_field() {
    let loaded = AppSettings {
        data_path: None,
        database_path: Some("/legacy/dir".to_string()),
    };
    let (sf, changed) = SettingsFile::new("/cfg/settings.json".to_string(), Some(loaded));
    assert!(changed);
    assert_eq!(sf.settings.data_path, Some("/legacy/dir".to_string()));
    assert_eq!(sf.settings.database_path, None);
    assert_eq!(sf.get_data_path("/default"), "/legacy/dir");
}

#[test]
fn settings_file_defaults_and_set() {
    let (mut sf, changed) = SettingsFile::new("/cfg/settings.json".to_string(), None);
    assert!(!changed);
    assert_eq!(sf.get_data_path("/default"), "/default");
    sf.set_data_path(Some("/custom".to_string())).unwrap();
    assert_eq!(sf.get_data_path("/default"), "/custom");
    assert_eq!(sf.get_database_path("/default"), "/custom");
    sf.set_database_path(None).unwrap();
    assert_eq!(sf.get_data_path("/default"), "/default");
}

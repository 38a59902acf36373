//! The migration decision, the snapshot conversion and the outline
//! rendering.

use devora_store::migration::{
    convert_todos_to_markdown, decide_migration, migrate_snapshot, LegacyProject, LegacyTodoItem,
    MigrationDecision,
};
use devora_store::models::{FileCard, Item, ItemType, ProjectMetadata, ProjectRow};
use devora_store::store::{JsonStore, SettingEntry};

fn legacy_todo(id: &str, content: &str, completed: bool, order: i32, indent: i32) -> LegacyTodoItem {
    LegacyTodoItem {
        id: id.to_string(),
        project_id: "p1".to_string(),
        content: content.to_string(),
        completed,
        order,
        indent_level: indent,
        created_at: "t".to_string(),
        updated_at: "t".to_string(),
        completed_at: None,
    }
}

#[test]
fn migration_decision_cases() {
    assert_eq!(
        decide_migration(Some(3), true, true),
        MigrationDecision::SkipPopulatedIndex
    );
    assert_eq!(
        decide_migration(Some(0), true, false),
        MigrationDecision::MigrateFromDataDir
    );
    assert_eq!(
        decide_migration(None, false, true),
        MigrationDecision::MigrateFromConfigDir
    );
    assert_eq!(decide_migration(None, false, false), MigrationDecision::FreshStart);
}

#[test]
fn migration_is_noop_on_second_run() {
    let lp = LegacyProject {
        row: ProjectRow {
            id: "p1".to_string(),
            name: "alpha".to_string(),
            description: "".to_string(),
            metadata: ProjectMetadata {
                github_url: None,
                custom_url: None,
                other_links: None,
                working_dirs: None,
                section_order: None,
            },
            created_at: "t0".to_string(),
            updated_at: "t1".to_string(),
        },
        items: vec![],
        todos: vec![legacy_todo("a", "x", false, 0, 0)],
        file_cards: vec![],
    };
    let (docs, meta, res) = migrate_snapshot(vec![lp], &vec![SettingEntry {
        key: "theme".to_string(),
        value: "dark".to_string(),
    }]);
    assert_eq!(res.projects_migrated, 1);
    assert_eq!(res.todos_migrated, 1);
    assert_eq!(res.settings_migrated, 1);
    assert_eq!(docs.len(), 1);
    assert_eq!(docs[0].todos.len(), 1);
    assert_eq!(meta.version, 1);
    assert_eq!(meta.project_ids, vec!["p1".to_string()]);

    // the migrated state loads as a well-formed store
    let mut store = JsonStore::new_empty();
    store.apply_reloaded_metadata(meta, None).unwrap();
    for d in docs {
        assert!(store.install_loaded_project(d));
    }
    assert_eq!(store.get_all_projects().unwrap().len(), 1);

    // a second run sees a populated index and decides to do nothing
    let count = store.project_ids().len() as u64;
    assert_eq!(
        decide_migration(Some(count), true, true),
        MigrationDecision::SkipPopulatedIndex
    );
}

#[test]
fn todos_render_as_outline_text() {
    let todos = vec![
        legacy_todo("b", "child", true, 1, 1),
        legacy_todo("a", "parent", false, 0, 0),
        legacy_todo("c", "deep", false, 2, 2),
    ];
    let text = convert_todos_to_markdown(&todos);
    assert_eq!(text, "- [ ] parent\n  - [x] child\n    - [ ] deep");
}

#[test]
fn empty_todo_list_renders_empty() {
    assert_eq!(convert_todos_to_markdown(&vec![]), "");
}

#[test]
fn negative_indent_renders_flat() {
    let todos = vec![legacy_todo("a", "odd", false, 0, -3)];
    assert_eq!(convert_todos_to_markdown(&todos), "- [ ] odd");
}

#[test]
fn migration_counts_children() {
    let item = Item {
        id: "i1".to_string(),
        project_id: "p1".to_string(),
        item_type: ItemType::Note,
        title: "n".to_string(),
        content: "".to_string(),
        ide_type: None,
        remote_ide_type: None,
        coding_agent_type: None,
        coding_agent_args: None,
        coding_agent_env: None,
        command_mode: None,
        command_cwd: None,
        command_host: None,
        order: 0,
        created_at: "t".to_string(),
        updated_at: "t".to_string(),
    };
    let card = FileCard {
        id: "f1".to_string(),
        project_id: "p1".to_string(),
        filename: "a".to_string(),
        file_path: "/a".to_string(),
        position_x: 0,
        position_y: 0,
        is_expanded: false,
        is_minimized: false,
        z_index: 0,
        created_at: "t".to_string(),
        updated_at: "t".to_string(),
    };
    let lp = LegacyProject {
        row: ProjectRow {
            id: "p1".to_string(),
            name: "alpha".to_string(),
            description: "".to_string(),
            metadata: ProjectMetadata {
                github_url: None,
                custom_url: None,
                other_links: None,
                working_dirs: None,
                section_order: None,
            },
            created_at: "t0".to_string(),
            updated_at: "t1".to_string(),
        },
        items: vec![item],
        todos: vec![],
        file_cards: vec![card],
    };
    let (docs, _meta, res) = migrate_snapshot(vec![lp], &vec![]);
    assert_eq!(res.items_migrated, 1);
    assert_eq!(res.file_cards_migrated, 1);
    assert_eq!(res.todos_migrated, 0);
    assert_eq!(docs[0].items.len(), 1);
    assert_eq!(docs[0].file_cards.len(), 1);
}

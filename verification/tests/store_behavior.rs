//! Behavior of the document-store engine on concrete values.

use devora_store::models::{CodingAgentType, CommandMode, ImportData, ItemType, ProjectMetadata};
use devora_store::store::JsonStore;
use devora_store::store::{Metadata, ProjectData, SettingEntry};
use devora_store::update::{FileCardPatch, ItemPatch, ProjectPatch, TodoPatch};

fn empty_metadata() -> ProjectMetadata {
    ProjectMetadata {
        github_url: None,
        custom_url: None,
        other_links: None,
        working_dirs: None,
        section_order: None,
    }
}

fn store_with_project(id: &str) -> JsonStore {
    let mut s = JsonStore::new_empty();
    s.create_project_at(id, "2024-01-01T00:00:00+00:00", "proj", "d", empty_metadata());
    s
}

fn add_item(s: &mut JsonStore, project: &str, id: &str, now: &str, title: &str) {
    s.create_item_at(
        project, id, now, ItemType::Note, title, "", None, None, None, None, None, None, None,
        None,
    )
    .unwrap();
}

#[test]
fn create_project_fills_record() {
    let mut s = JsonStore::new_empty();
    let p = s.create_project_at("p1", "2024-01-02T03:04:05+00:00", "alpha", "desc", empty_metadata());
    assert_eq!(p.id, "p1");
    assert_eq!(p.name, "alpha");
    assert_eq!(p.description, "desc");
    assert_eq!(p.created_at, "2024-01-02T03:04:05+00:00");
    assert_eq!(p.updated_at, "2024-01-02T03:04:05+00:00");
    assert!(p.items.is_none());
    assert_eq!(s.project_ids(), vec!["p1".to_string()]);
}

#[test]
fn get_project_by_id_returns_items() {
    let mut s = store_with_project("p1");
    add_item(&mut s, "p1", "i1", "2024-01-02T00:00:00+00:00", "first");
    let got = s.get_project_by_id("p1").unwrap().unwrap();
    let items = got.items.unwrap();
    assert_eq!(items.len(), 1);
    assert_eq!(items[0].id, "i1");
    assert_eq!(items[0].title, "first");
    assert!(s.get_project_by_id("nope").unwrap().is_none());
}

#[test]
fn update_project_keeps_omitted_fields() {
    let mut s = store_with_project("p1");
    let r = s
        .update_project_at(
            "p1",
            "2024-02-01T00:00:00+00:00",
            ProjectPatch { name: Some("renamed".to_string()), description: None, metadata: None },
        )
        .unwrap();
    assert_eq!(r.name, "renamed");
    assert_eq!(r.description, "d");
    assert_eq!(r.updated_at, "2024-02-01T00:00:00+00:00");
}

#[test]
fn item_order_is_monotonic_max_plus_one() {
    let mut s = store_with_project("p1");
    add_item(&mut s, "p1", "i1", "t1", "a");
    add_item(&mut s, "p1", "i2", "t1", "b");
    // push one item's order far ahead, then create another
    let mut patch = ItemPatch::empty();
    patch.order = Some(10);
    s.update_item_at("i2", "t2", &patch).unwrap();
    let it = s
        .create_item_at(
            "p1", "i3", "t3", ItemType::Note, "c", "", None, None, None, None, None, None, None,
            None,
        )
        .unwrap();
    assert_eq!(it.order, 11);
}

#[test]
fn create_item_in_unknown_project_is_error() {
    let mut s = JsonStore::new_empty();
    let r = s.create_item_at(
        "ghost", "i1", "t", ItemType::Note, "a", "", None, None, None, None, None, None, None,
        None,
    );
    assert!(r.is_err());
}

#[test]
fn three_state_optional_update() {
    let mut s = store_with_project("p1");
    s.create_item_at(
        "p1",
        "i1",
        "t1",
        ItemType::Note,
        "a",
        "",
        None,
        None,
        Some(CodingAgentType::Aider),
        Some("foo".to_string()),
        None,
        None,
        None,
        None,
    )
    .unwrap();

    // not provided: keeps "foo"
    let kept = s.update_item_at("i1", "t2", &ItemPatch::empty()).unwrap();
    assert_eq!(kept.coding_agent_args, Some("foo".to_string()));

    // explicit empty string: clears to absent
    let mut clear = ItemPatch::empty();
    clear.coding_agent_args = Some(Some("".to_string()));
    let cleared = s.update_item_at("i1", "t3", &clear).unwrap();
    assert_eq!(cleared.coding_agent_args, None);

    // non-empty string: sets
    let mut set = ItemPatch::empty();
    set.coding_agent_args = Some(Some("bar".to_string()));
    let set_r = s.update_item_at("i1", "t4", &set).unwrap();
    assert_eq!(set_r.coding_agent_args, Some("bar".to_string()));

    // explicit null clears an enum field
    let mut drop_agent = ItemPatch::empty();
    drop_agent.coding_agent_type = Some(None);
    let dropped = s.update_item_at("i1", "t5", &drop_agent).unwrap();
    assert_eq!(dropped.coding_agent_type, None);
}

#[test]
fn update_unknown_item_yields_none() {
    let mut s = store_with_project("p1");
    assert!(s.update_item_at("ghost", "t", &ItemPatch::empty()).is_none());
    assert!(!s.delete_item_at("ghost", "t"));
}

#[test]
fn touch_propagation_on_child_mutations() {
    let mut s = store_with_project("p1");
    add_item(&mut s, "p1", "i1", "t-create", "a");
    assert_eq!(s.get_project_by_id("p1").unwrap().unwrap().updated_at, "t-create");

    s.update_item_at("i1", "t-update", &ItemPatch::empty()).unwrap();
    assert_eq!(s.get_project_by_id("p1").unwrap().unwrap().updated_at, "t-update");

    s.create_todo_at("p1", "td1", "t-todo", "x", 0).unwrap();
    assert_eq!(s.get_project_by_id("p1").unwrap().unwrap().updated_at, "t-todo");

    s.create_file_card_at("p1", "fc1", "t-card", "f", "/f", 0, 0).unwrap();
    assert_eq!(s.get_project_by_id("p1").unwrap().unwrap().updated_at, "t-card");

    assert!(s.delete_item_at("i1", "t-del"));
    assert_eq!(s.get_project_by_id("p1").unwrap().unwrap().updated_at, "t-del");

    assert!(s.delete_todo_at("td1", "t-del-todo"));
    assert_eq!(s.get_project_by_id("p1").unwrap().unwrap().updated_at, "t-del-todo");

    assert!(s.delete_file_card_at("fc1", "t-del-card"));
    assert_eq!(s.get_project_by_id("p1").unwrap().unwrap().updated_at, "t-del-card");
}

#[test]
fn reorder_items_renormalizes_orders() {
    let mut s = store_with_project("p1");
    add_item(&mut s, "p1", "a", "t1", "a");
    add_item(&mut s, "p1", "b", "t1", "b");
    add_item(&mut s, "p1", "c", "t1", "c");
    // scramble the counters first
    let mut p = ItemPatch::empty();
    p.order = Some(9);
    s.update_item_at("a", "t2", &p).unwrap();

    s.reorder_items_at(
        "p1",
        &vec!["c".to_string(), "a".to_string(), "b".to_string()],
        "t3",
    )
    .unwrap();

    let got = s.get_project_by_id("p1").unwrap().unwrap();
    let items = got.items.unwrap();
    let ids: Vec<&str> = items.iter().map(|i| i.id.as_str()).collect();
    let orders: Vec<i32> = items.iter().map(|i| i.order).collect();
    assert_eq!(ids, vec!["c", "a", "b"]);
    assert_eq!(orders, vec![0, 1, 2]);
    assert_eq!(got.updated_at, "t3");
}

#[test]
fn completion_timestamp_lifecycle() {
    let mut s = store_with_project("p1");
    let td = s.create_todo_at("p1", "td1", "t0", "write tests", 0).unwrap();
    assert!(!td.completed);
    assert_eq!(td.completed_at, None);

    let mut done = TodoPatch { content: None, completed: Some(true), indent_level: None, order: None };
    let r1 = s.update_todo_at("td1", "t1", &done).unwrap();
    assert!(r1.completed);
    assert_eq!(r1.completed_at, Some("t1".to_string()));

    // completing again keeps the original stamp
    let r1b = s.update_todo_at("td1", "t1b", &done).unwrap();
    assert_eq!(r1b.completed_at, Some("t1".to_string()));

    done.completed = Some(false);
    let r2 = s.update_todo_at("td1", "t2", &done).unwrap();
    assert!(!r2.completed);
    assert_eq!(r2.completed_at, None);

    done.completed = Some(true);
    let r3 = s.update_todo_at("td1", "t3", &done).unwrap();
    assert_eq!(r3.completed_at, Some("t3".to_string()));
}

#[test]
fn todo_progress_counts() {
    let mut s = store_with_project("p1");
    s.create_todo_at("p1", "a", "t", "one", 0).unwrap();
    s.create_todo_at("p1", "b", "t", "two", 0).unwrap();
    s.create_todo_at("p1", "c", "t", "three", 0).unwrap();
    let done = TodoPatch { content: None, completed: Some(true), indent_level: None, order: None };
    s.update_todo_at("a", "t2", &done).unwrap();
    let p = s.get_todo_progress("p1").unwrap();
    assert_eq!(p.total, 3);
    assert_eq!(p.completed, 1);
    let empty = s.get_todo_progress("missing").unwrap();
    assert_eq!(empty.total, 0);
    assert_eq!(empty.completed, 0);
}

#[test]
fn file_card_stacking_and_update() {
    let mut s = store_with_project("p1");
    let c1 = s.create_file_card_at("p1", "f1", "t", "a.txt", "/a.txt", 7, 8).unwrap();
    let c2 = s.create_file_card_at("p1", "f2", "t", "b.txt", "/b.txt", 1, 2).unwrap();
    assert_eq!(c1.z_index, 0);
    assert_eq!(c2.z_index, 1);
    assert!(!c1.is_expanded && !c1.is_minimized);

    // deletion never recycles the counter
    assert!(s.delete_file_card_at("f2", "t2"));
    let c3 = s.create_file_card_at("p1", "f3", "t3", "c.txt", "/c.txt", 0, 0).unwrap();
    assert_eq!(c3.z_index, 1);

    let patch = FileCardPatch {
        filename: None,
        file_path: None,
        position_x: Some(42),
        position_y: None,
        is_expanded: Some(true),
        is_minimized: None,
        z_index: None,
    };
    let upd = s.update_file_card_at("f1", "t4", &patch).unwrap();
    assert_eq!(upd.position_x, 42);
    assert_eq!(upd.position_y, 8);
    assert!(upd.is_expanded);

    let cards = s.get_file_cards_by_project("p1").unwrap();
    assert_eq!(cards.len(), 2);
    assert_eq!(cards[0].z_index, 0);
    assert_eq!(cards[1].z_index, 1);
}

#[test]
fn cascade_delete_removes_children() {
    let mut s = store_with_project("p1");
    add_item(&mut s, "p1", "i1", "t", "a");
    s.create_todo_at("p1", "td1", "t", "x", 0).unwrap();
    s.create_file_card_at("p1", "fc1", "t", "f", "/f", 0, 0).unwrap();

    assert!(s.delete_project("p1"));
    assert!(s.get_project_by_id("p1").unwrap().is_none());
    assert!(s.get_todos_by_project("p1").unwrap().is_empty());
    assert!(s.get_file_cards_by_project("p1").unwrap().is_empty());
    assert!(s.get_all_projects().unwrap().is_empty());
    // deleting again reports the id as unknown
    assert!(!s.delete_project("p1"));
}

#[test]
fn settings_crud() {
    let mut s = JsonStore::new_empty();
    assert_eq!(s.get_setting("theme").unwrap(), None);
    s.set_setting("theme", "dark").unwrap();
    s.set_setting("lang", "en").unwrap();
    assert_eq!(s.get_setting("theme").unwrap(), Some("dark".to_string()));
    s.set_setting("theme", "light").unwrap();
    assert_eq!(s.get_setting("theme").unwrap(), Some("light".to_string()));
    assert_eq!(s.get_all_settings().unwrap().len(), 2);
    s.delete_setting("theme").unwrap();
    assert_eq!(s.get_setting("theme").unwrap(), None);
    s.delete_setting("theme").unwrap();
    assert_eq!(s.get_all_settings().unwrap().len(), 1);
}

#[test]
fn get_all_projects_sorted_by_updated_desc() {
    let mut s = JsonStore::new_empty();
    s.create_project_at("p1", "2024-01-01T00:00:00+00:00", "old", "", empty_metadata());
    s.create_project_at("p2", "2024-03-01T00:00:00+00:00", "new", "", empty_metadata());
    s.create_project_at("p3", "2024-02-01T00:00:00+00:00", "mid", "", empty_metadata());
    let all = s.get_all_projects().unwrap();
    let names: Vec<&str> = all.iter().map(|p| p.name.as_str()).collect();
    assert_eq!(names, vec!["new", "mid", "old"]);
}

#[test]
fn import_skip_counting() {
    let mut s = store_with_project("existing");
    let envelope = {
        let e = s.export_all_data_at(None, "texport").unwrap();
        let mut rows = e.projects;
        // keep only the colliding row
        rows.truncate(1);
        let orphan = devora_store::models::Item {
            id: "orphan-item".to_string(),
            project_id: "no-such-project".to_string(),
            item_type: ItemType::Note,
            title: "lost".to_string(),
            content: "".to_string(),
            ide_type: None,
            remote_ide_type: None,
            coding_agent_type: None,
            coding_agent_args: None,
            coding_agent_env: None,
            command_mode: None,
            command_cwd: None,
            command_host: None,
            order: 0,
            created_at: "t".to_string(),
            updated_at: "t".to_string(),
        };
        ImportData { projects: rows, items: vec![orphan], file_cards: None }
    };
    let res = s.import_data_at(envelope, false).unwrap();
    assert_eq!(res.skipped, 2);
    assert_eq!(res.projects_imported, 0);
    assert_eq!(res.items_imported, 0);
    assert_eq!(res.file_cards_imported, 0);
}

#[test]
fn export_import_round_trip() {
    let mut s = JsonStore::new_empty();
    s.create_project_at("p1", "2024-01-01T00:00:00+00:00", "alpha", "first", empty_metadata());
    s.create_project_at("p2", "2024-01-02T00:00:00+00:00", "beta", "second", empty_metadata());
    add_item(&mut s, "p1", "i1", "t1", "note one");
    add_item(&mut s, "p1", "i2", "t2", "note two");
    add_item(&mut s, "p2", "i3", "t3", "note three");
    s.create_file_card_at("p1", "fc1", "t4", "a.txt", "/a.txt", 11, 22).unwrap();
    let exp_patch = FileCardPatch {
        filename: None,
        file_path: None,
        position_x: None,
        position_y: None,
        is_expanded: Some(true),
        is_minimized: None,
        z_index: None,
    };
    s.update_file_card_at("fc1", "t5", &exp_patch).unwrap();

    let e = s.export_all_data_at(None, "texport").unwrap();
    assert_eq!(e.version, "1.0");
    assert_eq!(e.exported_at, "texport");
    let cards = e.file_cards.as_ref().unwrap();
    assert_eq!(cards[0].is_expanded, 1);

    let data = ImportData { projects: e.projects, items: e.items, file_cards: e.file_cards };
    let mut fresh = JsonStore::new_empty();
    let res = fresh.import_data_at(data, false).unwrap();
    assert_eq!(res.projects_imported, 2);
    assert_eq!(res.items_imported, 3);
    assert_eq!(res.file_cards_imported, 1);
    assert_eq!(res.skipped, 0);

    let p1 = fresh.get_project_by_id("p1").unwrap().unwrap();
    assert_eq!(p1.name, "alpha");
    assert_eq!(p1.updated_at, "t5");
    let items = p1.items.unwrap();
    assert_eq!(items.len(), 2);
    assert_eq!(items[0].id, "i1");
    assert_eq!(items[1].id, "i2");
    let back_cards = fresh.get_file_cards_by_project("p1").unwrap();
    assert_eq!(back_cards.len(), 1);
    assert!(back_cards[0].is_expanded);
    assert_eq!(back_cards[0].position_x, 11);
    let p2 = fresh.get_project_by_id("p2").unwrap().unwrap();
    assert_eq!(p2.items.unwrap().len(), 1);
}

#[test]
fn import_replace_mode_clears_existing() {
    let mut s = store_with_project("old-project");
    let envelope = ImportData {
        projects: vec![devora_store::models::ProjectRow {
            id: "new-project".to_string(),
            name: "fresh".to_string(),
            description: "".to_string(),
            metadata: ProjectMetadata {
                github_url: None,
                custom_url: None,
                other_links: None,
                working_dirs: None,
                section_order: None,
            },
            created_at: "t".to_string(),
            updated_at: "t".to_string(),
        }],
        items: vec![],
        file_cards: None,
    };
    let res = s.import_data_at(envelope, true).unwrap();
    assert_eq!(res.projects_imported, 1);
    assert_eq!(res.skipped, 0);
    assert!(s.get_project_by_id("old-project").unwrap().is_none());
    assert!(s.get_project_by_id("new-project").unwrap().is_some());
}

#[test]
fn external_change_detection() {
    let mut s = JsonStore::new_empty();
    s.note_metadata_mtime(Some(100));
    assert!(!s.has_external_changes(Some(100)));
    assert!(s.has_external_changes(Some(99)));
    assert!(s.has_external_changes(Some(101)));
    assert!(s.has_external_changes(None));
    s.note_metadata_mtime(None);
    assert!(!s.has_external_changes(None));
    assert!(s.has_external_changes(Some(1)));
}

#[test]
fn reload_rejects_malformed_index() {
    let mut s = JsonStore::new_empty();
    let bad = Metadata {
        version: 1,
        project_ids: vec!["a".to_string(), "a".to_string()],
        global_settings: vec![],
    };
    assert!(s.apply_reloaded_metadata(bad, Some(5)).is_err());
    let good = Metadata {
        version: 1,
        project_ids: vec!["a".to_string(), "b".to_string()],
        global_settings: vec![SettingEntry { key: "k".to_string(), value: "v".to_string() }],
    };
    assert!(s.apply_reloaded_metadata(good, Some(5)).is_ok());
    assert_eq!(s.project_ids(), vec!["a".to_string(), "b".to_string()]);
}

#[test]
fn generated_ids_have_uuid_length() {
    let mut s = JsonStore::new_empty();
    let p = s
        .create_project("named", "", ProjectMetadata {
            github_url: None,
            custom_url: None,
            other_links: None,
            working_dirs: None,
            section_order: None,
        })
        .unwrap();
    assert_eq!(p.id.chars().count(), 36);
    // a second project gets a different id
    let q = s.create_project("other", "", empty_metadata()).unwrap();
    assert_ne!(p.id, q.id);
}

#[test]
fn install_loaded_project_validates() {
    let mut s = JsonStore::new_empty();
    let meta = Metadata {
        version: 1,
        project_ids: vec!["p1".to_string()],
        global_settings: vec![],
    };
    s.apply_reloaded_metadata(meta, None).unwrap();
    let doc = ProjectData {
        id: "p1".to_string(),
        name: "n".to_string(),
        description: "".to_string(),
        metadata: ProjectMetadata {
            github_url: None,
            custom_url: None,
            other_links: None,
            working_dirs: None,
            section_order: None,
        },
        items: vec![],
        todos: vec![],
        file_cards: vec![],
        created_at: "t".to_string(),
        updated_at: "t".to_string(),
    };
    assert!(s.install_loaded_project(doc));
    // a second document with the same id is rejected
    let dup = ProjectData {
        id: "p1".to_string(),
        name: "other".to_string(),
        description: "".to_string(),
        metadata: ProjectMetadata {
            github_url: None,
            custom_url: None,
            other_links: None,
            working_dirs: None,
            section_order: None,
        },
        items: vec![],
        todos: vec![],
        file_cards: vec![],
        created_at: "t".to_string(),
        updated_at: "t".to_string(),
    };
    assert!(!s.install_loaded_project(dup));
    // a document whose id is not in the index is rejected
    let stray = ProjectData {
        id: "p9".to_string(),
        name: "stray".to_string(),
        description: "".to_string(),
        metadata: ProjectMetadata {
            github_url: None,
            custom_url: None,
            other_links: None,
            working_dirs: None,
            section_order: None,
        },
        items: vec![],
        todos: vec![],
        file_cards: vec![],
        created_at: "t".to_string(),
        updated_at: "t".to_string(),
    };
    assert!(!s.install_loaded_project(stray));
}

#[test]
fn reorder_todos_renormalizes_orders() {
    let mut s = store_with_project("p1");
    s.create_todo_at("p1", "a", "t", "one", 0).unwrap();
    s.create_todo_at("p1", "b", "t", "two", 0).unwrap();
    s.reorder_todos_at("p1", &vec!["b".to_string(), "a".to_string()], "t2").unwrap();
    let todos = s.get_todos_by_project("p1").unwrap();
    assert_eq!(todos[0].id, "b");
    assert_eq!(todos[0].order, 0);
    assert_eq!(todos[1].id, "a");
    assert_eq!(todos[1].order, 1);
}

#[test]
fn command_mode_survives_storage() {
    let mut s = store_with_project("p1");
    let it = s
        .create_item_at(
            "p1",
            "i1",
            "t",
            ItemType::Command,
            "run",
            "echo hi",
            None,
            None,
            None,
            None,
            None,
            Some(CommandMode::Output),
            Some("/tmp".to_string()),
            None,
        )
        .unwrap();
    assert_eq!(it.command_mode, Some(CommandMode::Output));
    assert_eq!(it.command_cwd, Some("/tmp".to_string()));
}

#[test]
fn child_creation_in_unknown_project_errors() {
    let mut s = JsonStore::new_empty();
    assert!(s.create_todo_at("ghost", "td", "t", "x", 0).is_err());
    assert!(s.create_file_card_at("ghost", "fc", "t", "f", "/f", 0, 0).is_err());
    assert!(s.reorder_items_at("ghost", &vec!["a".to_string()], "t").is_err());
    assert!(s.reorder_todos_at("ghost", &vec!["a".to_string()], "t").is_err());
}

#[test]
fn export_selection_picks_named_projects() {
    let mut s = JsonStore::new_empty();
    s.create_project_at("p1", "t1", "alpha", "", empty_metadata());
    s.create_project_at("p2", "t2", "beta", "", empty_metadata());
    let e = s
        .export_all_data_at(Some(&vec!["p2".to_string(), "unknown".to_string()]), "tx")
        .unwrap();
    assert_eq!(e.projects.len(), 1);
    assert_eq!(e.projects[0].id, "p2");
}

#[test]
fn convenience_layer_end_to_end() {
    let mut s = JsonStore::new_empty();
    let p = s.create_project("via-clock", "", empty_metadata()).unwrap();
    let it = s
        .create_item(
            &p.id,
            ItemType::Note,
            "n",
            "",
            None,
            None,
            None,
            None,
            None,
            None,
            None,
            None,
        )
        .unwrap();
    assert_eq!(it.id.chars().count(), 36);
    let mut patch = ItemPatch::empty();
    patch.title = Some("renamed".to_string());
    let upd = s.update_item(&it.id, &patch).unwrap().unwrap();
    assert_eq!(upd.title, "renamed");
    assert!(s.delete_item(&it.id).unwrap());
    assert!(!s.delete_item(&it.id).unwrap());
    let td = s.create_todo(&p.id, "todo", 1).unwrap();
    assert!(s.delete_todo(&td.id).unwrap());
    let fc = s.create_file_card(&p.id, "f", "/f", 3, 4).unwrap();
    assert!(s.delete_file_card(&fc.id).unwrap());
    let e = s.export_all_data(None).unwrap();
    assert_eq!(e.version, "1.0");
    assert!(s.delete_project(&p.id));
}

#[test]
fn merge_import_attaches_to_existing_project() {
    let mut s = store_with_project("p1");
    add_item(&mut s, "p1", "old-item", "t1", "kept");
    let envelope = ImportData {
        projects: vec![],
        items: vec![devora_store::models::Item {
            id: "new-item".to_string(),
            project_id: "p1".to_string(),
            item_type: ItemType::Note,
            title: "arrived".to_string(),
            content: "".to_string(),
            ide_type: None,
            remote_ide_type: None,
            coding_agent_type: None,
            coding_agent_args: None,
            coding_agent_env: None,
            command_mode: None,
            command_cwd: None,
            command_host: None,
            order: 7,
            created_at: "t".to_string(),
            updated_at: "t".to_string(),
        }],
        file_cards: None,
    };
    let res = s.import_data_at(envelope, false).unwrap();
    assert_eq!(res.projects_imported, 0);
    assert_eq!(res.items_imported, 1);
    assert_eq!(res.skipped, 0);
    let p = s.get_project_by_id("p1").unwrap().unwrap();
    let items = p.items.unwrap();
    assert_eq!(items.len(), 2);
    assert_eq!(items[0].id, "old-item");
    assert_eq!(items[1].id, "new-item");

    // a second import of the same item is a duplicate and is skipped
    let envelope2 = ImportData {
        projects: vec![],
        items: vec![devora_store::models::Item {
            id: "new-item".to_string(),
            project_id: "p1".to_string(),
            item_type: ItemType::Note,
            title: "again".to_string(),
            content: "".to_string(),
            ide_type: None,
            remote_ide_type: None,
            coding_agent_type: None,
            coding_agent_args: None,
            coding_agent_env: None,
            command_mode: None,
            command_cwd: None,
            command_host: None,
            order: 8,
            created_at: "t".to_string(),
            updated_at: "t".to_string(),
        }],
        file_cards: None,
    };
    let res2 = s.import_data_at(envelope2, false).unwrap();
    assert_eq!(res2.items_imported, 0);
    assert_eq!(res2.skipped, 1);
    assert_eq!(s.get_project_by_id("p1").unwrap().unwrap().items.unwrap().len(), 2);
}

//! Shared update semantics of both storage backends.
//!
//! Every update operation is a read-modify-write: fields supplied in a
//! patch overwrite, fields omitted keep their prior value.  Nullable
//! optional text fields follow a three-state contract: omitted keeps the
//! stored value, an explicit empty string (or an explicit null) clears
//! the field to absent, and a non-empty string sets it.

use vstd::prelude::*;

use crate::models::CodingAgentType;
use crate::models::CommandMode;
use crate::models::FileCard;
use crate::models::Item;
use crate::models::ProjectMetadata;
use crate::models::TodoItem;
use crate::models::clone_opt_string;

verus! {

/// The value of a nullable optional text field after a three-state
/// update: `None` keeps `cur`, `Some(None)` and `Some(Some(""))` clear
/// the field, `Some(Some(s))` with non-empty `s` sets it.
pub open spec fn spec_three_state(cur: Option<String>, p: Option<Option<String>>) -> Option<
    String,
> {
    match p {
        None => cur,
        Some(None) => None,
        Some(Some(s)) => if s@.len() == 0 {
            None
        } else {
            Some(s)
        },
    }
}

/// The value of an optional field after a keep-vs-set update: `None`
/// keeps `cur`, `Some(x)` replaces the whole field with `x`.
pub open spec fn spec_opt_set<T>(cur: Option<T>, p: Option<Option<T>>) -> Option<T> {
    match p {
        None => cur,
        Some(x) => x,
    }
}

/// The value of a mandatory field after a keep-vs-set update.
pub open spec fn spec_set<T>(cur: T, p: Option<T>) -> T {
    match p {
        None => cur,
        Some(x) => x,
    }
}

/// Applies the three-state rule to a nullable optional text field.
pub fn three_state_text(cur: &Option<String>, p: &Option<Option<String>>) -> (r: Option<String>)
    ensures
        r == spec_three_state(*cur, *p),
{
    match p {
        None => clone_opt_string(cur),
        Some(None) => None,
        Some(Some(s)) => if s.as_str().is_empty() {
            None
        } else {
            Some(s.clone())
        },
    }
}

/// A partial update of an item; `None` fields keep their stored value.
#[derive(Debug)]
pub struct ItemPatch {
    pub title: Option<String>,
    pub content: Option<String>,
    pub ide_type: Option<Option<String>>,
    pub remote_ide_type: Option<Option<String>>,
    pub coding_agent_type: Option<Option<CodingAgentType>>,
    pub coding_agent_args: Option<Option<String>>,
    pub coding_agent_env: Option<Option<String>>,
    pub command_mode: Option<Option<CommandMode>>,
    pub command_cwd: Option<Option<String>>,
    pub command_host: Option<Option<String>>,
    pub order: Option<i32>,
}

impl ItemPatch {
    /// A patch that changes nothing.
    pub fn empty() -> (r: ItemPatch)
        ensures
            r.title is None,
            r.content is None,
            r.ide_type is None,
            r.remote_ide_type is None,
            r.coding_agent_type is None,
            r.coding_agent_args is None,
            r.coding_agent_env is None,
            r.command_mode is None,
            r.command_cwd is None,
            r.command_host is None,
            r.order is None,
    {
        ItemPatch {
            title: None,
            content: None,
            ide_type: None,
            remote_ide_type: None,
            coding_agent_type: None,
            coding_agent_args: None,
            coding_agent_env: None,
            command_mode: None,
            command_cwd: None,
            command_host: None,
            order: None,
        }
    }
}

/// What every field of an item is after `patch` is applied at time
/// `now`; identity, ownership and creation time never change.
pub open spec fn spec_item_after(it: Item, patch: ItemPatch, now: Seq<char>, after: Item) -> bool {
    &&& after.id == it.id
    &&& after.project_id == it.project_id
    &&& after.item_type == it.item_type
    &&& after.title == spec_set(it.title, patch.title)
    &&& after.content == spec_set(it.content, patch.content)
    &&& after.ide_type == spec_three_state(it.ide_type, patch.ide_type)
    &&& after.remote_ide_type == spec_three_state(it.remote_ide_type, patch.remote_ide_type)
    &&& after.coding_agent_type == spec_opt_set(it.coding_agent_type, patch.coding_agent_type)
    &&& after.coding_agent_args == spec_three_state(it.coding_agent_args, patch.coding_agent_args)
    &&& after.coding_agent_env == spec_three_state(it.coding_agent_env, patch.coding_agent_env)
    &&& after.command_mode == spec_opt_set(it.command_mode, patch.command_mode)
    &&& after.command_cwd == spec_three_state(it.command_cwd, patch.command_cwd)
    &&& after.command_host == spec_three_state(it.command_host, patch.command_host)
    &&& after.order == spec_set(it.order, patch.order)
    &&& after.created_at == it.created_at
    &&& after.updated_at@ == now
}

/// Applies an item patch in place, stamping the update time.
pub fn apply_item_patch(item: &mut Item, patch: &ItemPatch, now: &str)
    ensures
        spec_item_after(*old(item), *patch, now@, *final(item)),
{
    if let Some(t) = &patch.title {
        item.title = t.clone();
    }
    if let Some(c) = &patch.content {
        item.content = c.clone();
    }
    item.ide_type = three_state_text(&item.ide_type, &patch.ide_type);
    item.remote_ide_type = three_state_text(&item.remote_ide_type, &patch.remote_ide_type);
    if let Some(cat) = &patch.coding_agent_type {
        item.coding_agent_type = *cat;
    }
    item.coding_agent_args = three_state_text(&item.coding_agent_args, &patch.coding_agent_args);
    item.coding_agent_env = three_state_text(&item.coding_agent_env, &patch.coding_agent_env);
    if let Some(cm) = &patch.command_mode {
        item.command_mode = *cm;
    }
    item.command_cwd = three_state_text(&item.command_cwd, &patch.command_cwd);
    item.command_host = three_state_text(&item.command_host, &patch.command_host);
    if let Some(o) = patch.order {
        item.order = o;
    }
    item.updated_at = now.to_owned();
}

/// A partial update of a todo; `None` fields keep their stored value.
#[derive(Debug)]
pub struct TodoPatch {
    pub content: Option<String>,
    pub completed: Option<bool>,
    pub indent_level: Option<i32>,
    pub order: Option<i32>,
}

/// What every field of a todo is after `patch` is applied at time `now`.
///
/// The completion timestamp is set exactly when `completed` goes from
/// false to true, kept when it stays true, and cleared whenever the todo
/// is set back to not completed.
pub open spec fn spec_todo_after(
    td: TodoItem,
    patch: TodoPatch,
    now: Seq<char>,
    after: TodoItem,
) -> bool {
    &&& after.id == td.id
    &&& after.project_id == td.project_id
    &&& after.content == spec_set(td.content, patch.content)
    &&& after.completed == spec_set(td.completed, patch.completed)
    &&& after.order == spec_set(td.order, patch.order)
    &&& after.indent_level == spec_set(td.indent_level, patch.indent_level)
    &&& after.created_at == td.created_at
    &&& after.updated_at@ == now
    &&& match patch.completed {
        Some(true) => if td.completed {
            after.completed_at == td.completed_at
        } else {
            after.completed_at matches Some(ts) && ts@ == now
        },
        Some(false) => after.completed_at is None,
        None => after.completed_at == td.completed_at,
    }
}

/// Applies a todo patch in place, maintaining the completion timestamp
/// and stamping the update time.
pub fn apply_todo_patch(todo: &mut TodoItem, patch: &TodoPatch, now: &str)
    ensures
        spec_todo_after(*old(todo), *patch, now@, *final(todo)),
{
    let was_completed = todo.completed;
    if let Some(c) = &patch.content {
        todo.content = c.clone();
    }
    if let Some(comp) = patch.completed {
        todo.completed = comp;
        if comp && !was_completed {
            todo.completed_at = Some(now.to_owned());
        } else if !comp {
            todo.completed_at = None;
        }
    }
    if let Some(il) = patch.indent_level {
        todo.indent_level = il;
    }
    if let Some(o) = patch.order {
        todo.order = o;
    }
    todo.updated_at = now.to_owned();
}

/// A partial update of a file card; `None` fields keep their stored
/// value.
#[derive(Debug)]
pub struct FileCardPatch {
    pub filename: Option<String>,
    pub file_path: Option<String>,
    pub position_x: Option<u64>,
    pub position_y: Option<u64>,
    pub is_expanded: Option<bool>,
    pub is_minimized: Option<bool>,
    pub z_index: Option<i32>,
}

/// What every field of a file card is after `patch` is applied at time
/// `now`.
pub open spec fn spec_file_card_after(
    fc: FileCard,
    patch: FileCardPatch,
    now: Seq<char>,
    after: FileCard,
) -> bool {
    &&& after.id == fc.id
    &&& after.project_id == fc.project_id
    &&& after.filename == spec_set(fc.filename, patch.filename)
    &&& after.file_path == spec_set(fc.file_path, patch.file_path)
    &&& after.position_x == spec_set(fc.position_x, patch.position_x)
    &&& after.position_y == spec_set(fc.position_y, patch.position_y)
    &&& after.is_expanded == spec_set(fc.is_expanded, patch.is_expanded)
    &&& after.is_minimized == spec_set(fc.is_minimized, patch.is_minimized)
    &&& after.z_index == spec_set(fc.z_index, patch.z_index)
    &&& after.created_at == fc.created_at
    &&& after.updated_at@ == now
}

/// Applies a file-card patch in place, stamping the update time.
pub fn apply_file_card_patch(card: &mut FileCard, patch: &FileCardPatch, now: &str)
    ensures
        spec_file_card_after(*old(card), *patch, now@, *final(card)),
{
    if let Some(f) = &patch.filename {
        card.filename = f.clone();
    }
    if let Some(fp) = &patch.file_path {
        card.file_path = fp.clone();
    }
    if let Some(px) = patch.position_x {
        card.position_x = px;
    }
    if let Some(py) = patch.position_y {
        card.position_y = py;
    }
    if let Some(ie) = patch.is_expanded {
        card.is_expanded = ie;
    }
    if let Some(im) = patch.is_minimized {
        card.is_minimized = im;
    }
    if let Some(z) = patch.z_index {
        card.z_index = z;
    }
    card.updated_at = now.to_owned();
}

/// A partial update of a project's own record.
#[derive(Debug)]
pub struct ProjectPatch {
    pub name: Option<String>,
    pub description: Option<String>,
    pub metadata: Option<ProjectMetadata>,
}

} // verus!

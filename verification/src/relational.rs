//! The pure side of the relational backend.
//!
//! The relational store keeps the same entities in SQL tables; the
//! application edge runs the statements and hands the raw column
//! values here.  Decoding follows the forward-compatibility rule of
//! the entity model: an unrecognized closed-set token becomes `None`
//! (or the default item kind), never an error.  Update statements are
//! computed with the shared patch semantics of `crate::update`, and
//! the schema version plan below drives the forward-only migrations.

use vstd::prelude::*;

use crate::models::CodingAgentType;
use crate::models::CommandMode;
use crate::models::FileCard;
use crate::models::Item;
use crate::models::ItemType;
use crate::models::TodoItem;

verus! {

/// The raw columns of one row of the item table, in storage form.
#[derive(Debug)]
pub struct RawItemRow {
    pub id: String,
    pub project_id: String,
    pub item_type: String,
    pub title: String,
    pub content: String,
    pub ide_type: Option<String>,
    pub remote_ide_type: Option<String>,
    pub coding_agent_type: Option<String>,
    pub coding_agent_args: Option<String>,
    pub coding_agent_env: Option<String>,
    pub command_mode: Option<String>,
    pub command_cwd: Option<String>,
    pub command_host: Option<String>,
    pub order: i32,
    pub created_at: String,
    pub updated_at: String,
}

/// The item kind a stored token decodes to: an unknown token falls
/// back to a plain note so that forward-incompatible data never fails
/// a read.
pub open spec fn spec_item_type_or_note(s: Seq<char>) -> ItemType {
    match ItemType::spec_from_token(s) {
        Some(t) => t,
        None => ItemType::Note,
    }
}

/// The command mode an optional stored token decodes to; unknown or
/// absent tokens become `None`.
pub open spec fn spec_command_mode_opt(s: Option<String>) -> Option<CommandMode> {
    match s {
        Some(t) => CommandMode::spec_from_token(t@),
        None => None,
    }
}

/// The coding-agent kind an optional stored token decodes to; unknown
/// or absent tokens become `None`.
pub open spec fn spec_coding_agent_opt(s: Option<String>) -> Option<CodingAgentType> {
    match s {
        Some(t) => CodingAgentType::spec_from_token(t@),
        None => None,
    }
}

/// Decodes one raw item row into the live entity.
pub fn decode_item_row(row: RawItemRow) -> (r: Item)
    ensures
        r.id == row.id,
        r.project_id == row.project_id,
        r.item_type == spec_item_type_or_note(row.item_type@),
        r.title == row.title,
        r.content == row.content,
        r.ide_type == row.ide_type,
        r.remote_ide_type == row.remote_ide_type,
        r.coding_agent_type == spec_coding_agent_opt(row.coding_agent_type),
        r.coding_agent_args == row.coding_agent_args,
        r.coding_agent_env == row.coding_agent_env,
        r.command_mode == spec_command_mode_opt(row.command_mode),
        r.command_cwd == row.command_cwd,
        r.command_host == row.command_host,
        r.order == row.order,
        r.created_at == row.created_at,
        r.updated_at == row.updated_at,
{
    let item_type = match ItemType::from_token(row.item_type.as_str()) {
        Some(t) => t,
        None => ItemType::Note,
    };
    let coding_agent_type = match &row.coding_agent_type {
        Some(t) => CodingAgentType::from_token(t.as_str()),
        None => None,
    };
    let command_mode = match &row.command_mode {
        Some(t) => CommandMode::from_token(t.as_str()),
        None => None,
    };
    Item {
        id: row.id,
        project_id: row.project_id,
        item_type,
        title: row.title,
        content: row.content,
        ide_type: row.ide_type,
        remote_ide_type: row.remote_ide_type,
        coding_agent_type,
        coding_agent_args: row.coding_agent_args,
        coding_agent_env: row.coding_agent_env,
        command_mode,
        command_cwd: row.command_cwd,
        command_host: row.command_host,
        order: row.order,
        created_at: row.created_at,
        updated_at: row.updated_at,
    }
}

/// The raw columns of one row of the todo table.
#[derive(Debug)]
pub struct RawTodoRow {
    pub id: String,
    pub project_id: String,
    pub content: String,
    pub completed: i32,
    pub order: i32,
    pub indent_level: i32,
    pub created_at: String,
    pub updated_at: String,
    pub completed_at: Option<String>,
}

/// Decodes one raw todo row: the completion flag is set exactly when
/// the stored integer is 1.
pub fn decode_todo_row(row: RawTodoRow) -> (r: TodoItem)
    ensures
        r.id == row.id,
        r.project_id == row.project_id,
        r.content == row.content,
        r.completed == (row.completed == 1),
        r.order == row.order,
        r.indent_level == row.indent_level,
        r.created_at == row.created_at,
        r.updated_at == row.updated_at,
        r.completed_at == row.completed_at,
{
    TodoItem {
        id: row.id,
        project_id: row.project_id,
        content: row.content,
        completed: row.completed == 1,
        order: row.order,
        indent_level: row.indent_level,
        created_at: row.created_at,
        updated_at: row.updated_at,
        completed_at: row.completed_at,
    }
}

/// The raw columns of one row of the file-card table; positions carry
/// the bit patterns of the UI's 64-bit coordinates.
#[derive(Debug)]
pub struct RawFileCardRow {
    pub id: String,
    pub project_id: String,
    pub filename: String,
    pub file_path: String,
    pub position_x: u64,
    pub position_y: u64,
    pub is_expanded: i32,
    pub is_minimized: i32,
    pub z_index: i32,
    pub created_at: String,
    pub updated_at: String,
}

/// Decodes one raw file-card row: a flag is set exactly when the
/// stored integer is 1.
pub fn decode_file_card_row(row: RawFileCardRow) -> (r: FileCard)
    ensures
        r.id == row.id,
        r.project_id == row.project_id,
        r.filename == row.filename,
        r.file_path == row.file_path,
        r.position_x == row.position_x,
        r.position_y == row.position_y,
        r.is_expanded == (row.is_expanded == 1),
        r.is_minimized == (row.is_minimized == 1),
        r.z_index == row.z_index,
        r.created_at == row.created_at,
        r.updated_at == row.updated_at,
{
    FileCard {
        id: row.id,
        project_id: row.project_id,
        filename: row.filename,
        file_path: row.file_path,
        position_x: row.position_x,
        position_y: row.position_y,
        is_expanded: row.is_expanded == 1,
        is_minimized: row.is_minimized == 1,
        z_index: row.z_index,
        created_at: row.created_at,
        updated_at: row.updated_at,
    }
}

/// The newest schema version of the relational store.
pub open spec fn spec_target_schema_version() -> int {
    5
}

/// The forward-only schema steps still to apply to a database at
/// `current`: every version from just past `current` (at least 1) up
/// to the target, in ascending order.  A database at or past the
/// target needs none.
pub fn pending_schema_steps(current: i32) -> (r: Vec<i32>)
    ensures
        current >= 5 ==> r@.len() == 0,
        current < 5 ==> ({
            let lo: int = if current < 0 {
                1
            } else {
                current + 1
            };
            &&& r@.len() == 5 - lo + 1
            &&& forall|k: int| 0 <= k < r@.len() ==> r@[k] as int == lo + k
        }),
{
    let mut r: Vec<i32> = Vec::new();
    if current >= 5 {
        return r;
    }
    let lo: i32 = if current < 0 {
        1
    } else {
        current + 1
    };
    let mut n: i32 = lo;
    while n <= 5
        invariant
            lo <= n <= 6,
            1 <= lo <= 5,
            r@.len() == n - lo,
            forall|k: int| 0 <= k < r@.len() ==> r@[k] as int == lo + k,
        decreases 6 - n,
    {
        r.push(n);
        n = n + 1;
    }
    r
}

} // verus!

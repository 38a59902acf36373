//! The one-shot migration from the relational store to the document
//! store.
//!
//! At startup the application inspects the data directory and hands
//! the findings to `decide_migration`.  Only when a migration is
//! decided does it read the whole relational store and pass the
//! snapshot to `migrate_snapshot`, which assembles the document-store
//! state; the application then writes every document and the index,
//! and renames the legacy database file so it remains as a recovery
//! artifact.  A failure while writing aborts the whole attempt before
//! the rename, so the next launch retries from scratch.

use vstd::prelude::*;

use crate::models::Item;
use crate::models::FileCard;
use crate::models::ProjectRow;
use crate::models::TodoItem;
use crate::models::clone_opt_string;
use crate::store::Metadata;
use crate::store::ProjectData;
use crate::store::SettingEntry;
use crate::store::clone_items;
use crate::store::clone_cards;
use crate::store::clone_settings;

verus! {

/// What a migration did.
#[derive(Clone, Copy, Debug, PartialEq, Eq, Structural)]
pub struct MigrationResult {
    pub projects_migrated: usize,
    pub items_migrated: usize,
    pub todos_migrated: usize,
    pub file_cards_migrated: usize,
    pub settings_migrated: usize,
}

/// A todo row of the legacy relational store.
#[derive(Debug, PartialEq)]
pub struct LegacyTodoItem {
    pub id: String,
    pub project_id: String,
    pub content: String,
    pub completed: bool,
    pub order: i32,
    pub indent_level: i32,
    pub created_at: String,
    pub updated_at: String,
    pub completed_at: Option<String>,
}

impl Clone for LegacyTodoItem {
    fn clone(&self) -> (r: Self)
        ensures
            r == *self,
    {
        LegacyTodoItem {
            id: self.id.clone(),
            project_id: self.project_id.clone(),
            content: self.content.clone(),
            completed: self.completed,
            order: self.order,
            indent_level: self.indent_level,
            created_at: self.created_at.clone(),
            updated_at: self.updated_at.clone(),
            completed_at: clone_opt_string(&self.completed_at),
        }
    }
}

/// One relational project with all of its children, as read by the
/// migration.
#[derive(Debug)]
pub struct LegacyProject {
    pub row: ProjectRow,
    pub items: Vec<Item>,
    pub todos: Vec<LegacyTodoItem>,
    pub file_cards: Vec<FileCard>,
}

/// What the startup inspection decides.
#[derive(Clone, Copy, Debug, PartialEq, Eq, Structural)]
pub enum MigrationDecision {
    /// A populated document-store index already exists: do nothing.
    SkipPopulatedIndex,
    /// A legacy database stands in the data directory: convert it.
    MigrateFromDataDir,
    /// A legacy database stands in the default config directory:
    /// convert it.
    MigrateFromConfigDir,
    /// Neither an index with projects nor a legacy database exists:
    /// start fresh, with no work to do.
    FreshStart,
}

/// The migration decision as a function of what the inspection found:
/// `index_projects` is the project count of a readable index (absent
/// when no index could be read), and the flags say where a legacy
/// database file was found.
pub open spec fn spec_decide_migration(
    index_projects: Option<u64>,
    sqlite_in_data: bool,
    sqlite_in_config: bool,
) -> MigrationDecision {
    if index_projects matches Some(n) && n > 0 {
        MigrationDecision::SkipPopulatedIndex
    } else if sqlite_in_data {
        MigrationDecision::MigrateFromDataDir
    } else if sqlite_in_config {
        MigrationDecision::MigrateFromConfigDir
    } else {
        MigrationDecision::FreshStart
    }
}

/// Decides whether a migration runs, and from where.
pub fn decide_migration(
    index_projects: Option<u64>,
    sqlite_in_data: bool,
    sqlite_in_config: bool,
) -> (d: MigrationDecision)
    ensures
        d == spec_decide_migration(index_projects, sqlite_in_data, sqlite_in_config),
{
    match index_projects {
        Some(n) if n > 0 => MigrationDecision::SkipPopulatedIndex,
        _ => {
            if sqlite_in_data {
                MigrationDecision::MigrateFromDataDir
            } else if sqlite_in_config {
                MigrationDecision::MigrateFromConfigDir
            } else {
                MigrationDecision::FreshStart
            }
        },
    }
}

/// The no-op guard: once the document-store index holds at least one
/// project, the migration procedure decides to do nothing, whatever
/// legacy files remain.  Since a successful migration writes an index
/// naming every migrated project, running the procedure again right
/// after a migration that found any project at all is a no-op.
pub proof fn lemma_migration_idempotent(n: u64, sqlite_in_data: bool, sqlite_in_config: bool)
    requires
        n > 0,
    ensures
        spec_decide_migration(Some(n), sqlite_in_data, sqlite_in_config)
            == MigrationDecision::SkipPopulatedIndex,
{
}

/// The indentation of an outline line: two spaces per nesting level.
pub open spec fn spec_indent(n: int) -> Seq<char>
    decreases n,
{
    if n <= 0 {
        Seq::empty()
    } else {
        spec_indent(n - 1) + "  "@
    }
}

/// One rendered outline line: indentation, a dash, a checkbox marker
/// reflecting completion, a space, then the content.
pub open spec fn spec_todo_line(t: LegacyTodoItem) -> Seq<char> {
    spec_indent(t.indent_level as int) + "- "@ + (if t.completed {
        "[x]"@
    } else {
        "[ ]"@
    }) + " "@ + t.content@
}

/// The rendered outline of a list of todos: one line each, joined
/// with newlines.
pub open spec fn spec_todos_markdown(ts: Seq<LegacyTodoItem>) -> Seq<char>
    decreases ts.len(),
{
    if ts.len() == 0 {
        Seq::empty()
    } else if ts.len() == 1 {
        spec_todo_line(ts[0])
    } else {
        spec_todos_markdown(ts.drop_last()) + "\n"@ + spec_todo_line(ts.last())
    }
}

/// Whether `r` is the rendered outline of `todos` taken in ascending
/// `order`.
pub open spec fn is_markdown_of(r: Seq<char>, todos: Seq<LegacyTodoItem>) -> bool {
    exists|s: Seq<LegacyTodoItem>|
        {
            &&& s.len() == todos.len()
            &&& s.to_multiset() == todos.to_multiset()
            &&& (forall|a: int, b: int| 0 <= a < b < s.len() ==> s[a].order <= s[b].order)
            &&& r == spec_todos_markdown(s)
        }
}

/// Sorts legacy todos ascending by their `order` field.
pub fn sort_legacy_todos(v: Vec<LegacyTodoItem>) -> (r: Vec<LegacyTodoItem>)
    ensures
        r@.len() == v@.len(),
        forall|a: int, b: int| 0 <= a < b < r@.len() ==> r@[a].order <= r@[b].order,
        r@.to_multiset() == v@.to_multiset(),
{
    broadcast use vstd::seq_lib::group_to_multiset_ensures;

    let mut out: Vec<LegacyTodoItem> = Vec::new();
    let mut i: usize = 0;
    proof {
        assert(v@.subrange(0, 0) =~= Seq::<LegacyTodoItem>::empty());
        assert(Seq::<LegacyTodoItem>::empty().to_multiset() =~= out@.to_multiset());
    }
    while i < v.len()
        invariant
            i <= v@.len(),
            out@.len() == i as int,
            forall|a: int, b: int| 0 <= a < b < out@.len() ==> out@[a].order <= out@[b].order,
            out@.to_multiset() == v@.subrange(0, i as int).to_multiset(),
        decreases v@.len() - i,
    {
        let x = v[i].clone();
        let mut p: usize = 0;
        while p < out.len() && out[p].order <= x.order
            invariant
                p <= out@.len(),
                forall|q: int| 0 <= q < p as int ==> out@[q].order <= x.order,
                forall|a: int, b: int| 0 <= a < b < out@.len() ==> out@[a].order <= out@[b].order,
            decreases out@.len() - p,
        {
            p = p + 1;
        }
        let ghost out0 = out@;
        out.insert(p, x);
        proof {
            broadcast use vstd::seq_lib::group_to_multiset_ensures;

            crate::order::lemma_insert_to_multiset(out0, p as int, x);
            assert(v@.subrange(0, i as int + 1) =~= v@.subrange(0, i as int).push(v@[i as int]));
            assert(v@.subrange(0, i as int).push(v@[i as int]).to_multiset() =~= v@.subrange(
                0,
                i as int,
            ).to_multiset().insert(v@[i as int]));
            assert(out@.to_multiset() =~= v@.subrange(0, i as int + 1).to_multiset());
            assert forall|a: int, b: int| 0 <= a < b < out@.len() implies out@[a].order
                <= out@[b].order by {
                if a < p as int && b == p as int {
                    assert(out@[a] == out0[a]);
                } else if a == p as int && b > p as int {
                    assert(out@[b] == out0[b - 1]);
                    assert(out0[p as int].order > x.order || p as int == out0.len());
                    assert(out0[p as int].order <= out0[b - 1].order || p as int == b - 1);
                } else if a < p as int && b > p as int {
                    assert(out@[a] == out0[a] && out@[b] == out0[b - 1]);
                } else if a > p as int {
                    assert(out@[a] == out0[a - 1] && out@[b] == out0[b - 1]);
                }
            };
        }
        i = i + 1;
    }
    proof {
        assert(v@.subrange(0, v@.len() as int) =~= v@);
    }
    out
}

/// Renders legacy todo rows as a single outline text: one line per
/// todo in ascending `order`, indentation proportional to the nesting
/// level, a checkbox marker reflecting completion, then the content.
pub fn convert_todos_to_markdown(todos: &Vec<LegacyTodoItem>) -> (r: String)
    ensures
        is_markdown_of(r@, todos@),
        todos@.len() == 0 ==> r@.len() == 0,
{
    let sorted = sort_legacy_todos(clone_legacy_todos(todos));
    let mut out = String::new();
    let mut i: usize = 0;
    proof {
        assert(sorted@.take(0) =~= Seq::<LegacyTodoItem>::empty());
    }
    while i < sorted.len()
        invariant
            i <= sorted@.len(),
            out@ == spec_todos_markdown(sorted@.take(i as int)),
        decreases sorted@.len() - i,
    {
        proof {
            reveal_strlit("\n");
            reveal_strlit("  ");
            reveal_strlit("- ");
            reveal_strlit("[x]");
            reveal_strlit("[ ]");
            reveal_strlit(" ");
            assert("\n"@.len() == 1 && "  "@.len() == 2 && "- "@.len() == 2 && "[x]"@.len() == 3
                && "[ ]"@.len() == 3 && " "@.len() == 1);
        }
        if i > 0 {
            out.append("\n");
        }
        let t = &sorted[i];
        let mut lvl: i32 = 0;
        while lvl < t.indent_level
            invariant
                0 <= lvl,
                t.indent_level > 0 ==> lvl <= t.indent_level,
                t.indent_level <= 0 ==> lvl == 0,
                t == sorted@[i as int],
                i < sorted@.len(),
                out@ == spec_todos_markdown(sorted@.take(i as int)) + (if i > 0 {
                    "\n"@
                } else {
                    Seq::empty()
                }) + spec_indent(lvl as int),
            decreases t.indent_level - lvl,
        {
            out.append("  ");
            proof {
                reveal_strlit("  ");
                assert("  "@.len() == 2);
            }
            lvl = lvl + 1;
        }
        out.append("- ");
        if t.completed {
            out.append("[x]");
        } else {
            out.append("[ ]");
        }
        out.append(" ");
        out.append(t.content.as_str());
        proof {
            reveal_strlit("\n");
            reveal_strlit("  ");
            reveal_strlit("- ");
            reveal_strlit("[x]");
            reveal_strlit("[ ]");
            reveal_strlit(" ");
            assert("\n"@.len() == 1 && "  "@.len() == 2 && "- "@.len() == 2 && "[x]"@.len() == 3
                && "[ ]"@.len() == 3 && " "@.len() == 1);
            assert(sorted@.take(i as int + 1) =~= sorted@.take(i as int).push(
                sorted@[i as int],
            ));
            assert(sorted@.take(i as int + 1).drop_last() =~= sorted@.take(i as int));
            let x = sorted@[i as int];
            assert(x.indent_level == t.indent_level);
            assert(spec_indent(lvl as int) == spec_indent(x.indent_level as int)) by {
                if x.indent_level <= 0 {
                    assert(lvl == 0);
                    assert(spec_indent(0) =~= Seq::<char>::empty());
                    assert(spec_indent(x.indent_level as int) =~= Seq::<char>::empty());
                } else {
                    assert(lvl as int == x.indent_level as int);
                }
            };
            assert(out@ =~= spec_todos_markdown(sorted@.take(i as int)) + (if i > 0 {
                "\n"@
            } else {
                Seq::<char>::empty()
            }) + spec_indent(x.indent_level as int) + "- "@ + (if x.completed {
                "[x]"@
            } else {
                "[ ]"@
            }) + " "@ + x.content@);
            assert(out@ =~= spec_todos_markdown(sorted@.take(i as int)) + (if i > 0 {
                "\n"@
            } else {
                Seq::<char>::empty()
            }) + spec_todo_line(x));
            if i == 0 {
                assert(out@ =~= spec_todos_markdown(sorted@.take(1)));
            } else {
                assert(out@ =~= spec_todos_markdown(sorted@.take(i as int)) + "\n"@
                    + spec_todo_line(sorted@[i as int]));
            }
        }
        i = i + 1;
    }
    proof {
        assert(sorted@.take(sorted@.len() as int) =~= sorted@);
        assert(is_markdown_of(out@, todos@)) by {
            assert(sorted@.len() == todos@.len() && sorted@.to_multiset() == todos@.to_multiset()
                && (forall|a: int, b: int|
                0 <= a < b < sorted@.len() ==> sorted@[a].order <= sorted@[b].order) && out@
                == spec_todos_markdown(sorted@));
        }
    }
    out
}

/// Clones a list of legacy todos; the clone holds the same values.
pub fn clone_legacy_todos(v: &Vec<LegacyTodoItem>) -> (r: Vec<LegacyTodoItem>)
    ensures
        r@ == v@,
{
    let mut r: Vec<LegacyTodoItem> = Vec::new();
    let mut i: usize = 0;
    while i < v.len()
        invariant
            i <= v.len(),
            r@.len() == i as int,
            forall|j: int| 0 <= j < i as int ==> r@[j] == v@[j],
        decreases v.len() - i,
    {
        r.push(v[i].clone());
        i = i + 1;
    }
    proof {
        assert(r@ =~= v@);
    }
    r
}

/// The live todo carried over from a legacy row: the same record,
/// field for field.
pub open spec fn todo_of_legacy(t: LegacyTodoItem, r: TodoItem) -> bool {
    &&& r.id == t.id
    &&& r.project_id == t.project_id
    &&& r.content == t.content
    &&& r.completed == t.completed
    &&& r.order == t.order
    &&& r.indent_level == t.indent_level
    &&& r.created_at == t.created_at
    &&& r.updated_at == t.updated_at
    &&& r.completed_at == t.completed_at
}

/// Whether document `d` is the converted form of legacy project `lp`:
/// the record and children are carried over, todos as live records.
pub open spec fn doc_of_legacy(d: ProjectData, lp: LegacyProject) -> bool {
    &&& d.id == lp.row.id
    &&& d.name == lp.row.name
    &&& d.description == lp.row.description
    &&& d.metadata.mdv() == lp.row.metadata.mdv()
    &&& d.created_at == lp.row.created_at
    &&& d.updated_at == lp.row.updated_at
    &&& d.items@ == lp.items@
    &&& d.todos@.len() == lp.todos@.len()
    &&& (forall|k: int|
        0 <= k < lp.todos@.len() ==> todo_of_legacy(#[trigger] lp.todos@[k], d.todos@[k]))
    &&& d.file_cards@ == lp.file_cards@
}

/// The number of items in the first `n` legacy projects.
pub open spec fn legacy_item_count(ps: Seq<LegacyProject>, n: int) -> int
    decreases n,
{
    if n <= 0 {
        0
    } else {
        legacy_item_count(ps, n - 1) + ps[n - 1].items@.len()
    }
}

/// The number of todos in the first `n` legacy projects.
pub open spec fn legacy_todo_count(ps: Seq<LegacyProject>, n: int) -> int
    decreases n,
{
    if n <= 0 {
        0
    } else {
        legacy_todo_count(ps, n - 1) + ps[n - 1].todos@.len()
    }
}

/// The number of file cards in the first `n` legacy projects.
pub open spec fn legacy_card_count(ps: Seq<LegacyProject>, n: int) -> int
    decreases n,
{
    if n <= 0 {
        0
    } else {
        legacy_card_count(ps, n - 1) + ps[n - 1].file_cards@.len()
    }
}

/// Converts a full relational snapshot into document-store state: one
/// document per legacy project, carrying every child over, and a
/// fresh index naming every migrated project and holding the legacy
/// settings.  The caller persists the documents and the index, and
/// only then renames the legacy database.
///
/// Todos are carried over as structured records rather than as the
/// rendered outline text: the live document type keeps todo records
/// (the checklist operations and their completion timestamps work on
/// them), and the record form is lossless, since
/// `convert_todos_to_markdown` can render it at any time.
pub fn migrate_snapshot(projects: Vec<LegacyProject>, settings: &Vec<SettingEntry>) -> (r: (
    Vec<ProjectData>,
    Metadata,
    MigrationResult,
))
    requires
        legacy_item_count(projects@, projects@.len() as int) <= usize::MAX as int,
        legacy_todo_count(projects@, projects@.len() as int) <= usize::MAX as int,
        legacy_card_count(projects@, projects@.len() as int) <= usize::MAX as int,
    ensures
        ({
            let (docs, meta, res) = r;
            &&& docs@.len() == projects@.len()
            &&& (forall|t: int|
                0 <= t < projects@.len() ==> doc_of_legacy(docs@[t], #[trigger] projects@[t]))
            &&& meta.version == 1
            &&& meta.project_ids@.len() == projects@.len()
            &&& (forall|t: int|
                0 <= t < projects@.len() ==> meta.project_ids@[t]@ == projects@[t].row.id@)
            &&& meta.global_settings@ == settings@
            &&& res.projects_migrated == projects@.len()
            &&& res.items_migrated as int == legacy_item_count(
                projects@,
                projects@.len() as int,
            )
            &&& res.todos_migrated as int == legacy_todo_count(projects@, projects@.len() as int)
            &&& res.file_cards_migrated as int == legacy_card_count(
                projects@,
                projects@.len() as int,
            )
            &&& res.settings_migrated == settings@.len()
        }),
{
    let ghost gprojects = projects@;
    let mut projects = projects;
    let mut docs: Vec<ProjectData> = Vec::new();
    let mut ids: Vec<String> = Vec::new();
    let mut items_migrated: usize = 0;
    let mut todos_migrated: usize = 0;
    let mut cards_migrated: usize = 0;
    let mut t: usize = 0;
    while t < projects.len()
        invariant
            t <= projects@.len(),
            projects@ == gprojects,
            docs@.len() == t as int,
            ids@.len() == t as int,
            forall|u: int| 0 <= u < t as int ==> doc_of_legacy(docs@[u], #[trigger] gprojects[u]),
            forall|u: int| 0 <= u < t as int ==> ids@[u]@ == gprojects[u].row.id@,
            items_migrated as int == legacy_item_count(gprojects, t as int),
            todos_migrated as int == legacy_todo_count(gprojects, t as int),
            cards_migrated as int == legacy_card_count(gprojects, t as int),
            legacy_item_count(gprojects, gprojects.len() as int) <= usize::MAX as int,
            legacy_todo_count(gprojects, gprojects.len() as int) <= usize::MAX as int,
            legacy_card_count(gprojects, gprojects.len() as int) <= usize::MAX as int,
        decreases projects@.len() - t,
    {
        proof {
            lemma_legacy_count_mono(gprojects, t as int + 1, gprojects.len() as int);
        }
        let lp = &projects[t];
        let mut todos: Vec<TodoItem> = Vec::new();
        let mut k: usize = 0;
        while k < lp.todos.len()
            invariant
                k <= lp.todos@.len(),
                todos@.len() == k as int,
                forall|u: int|
                    0 <= u < k as int ==> todo_of_legacy(
                        #[trigger] lp.todos@[u],
                        todos@[u],
                    ),
            decreases lp.todos@.len() - k,
        {
            let lt = &lp.todos[k];
            todos.push(
                TodoItem {
                    id: lt.id.clone(),
                    project_id: lt.project_id.clone(),
                    content: lt.content.clone(),
                    completed: lt.completed,
                    order: lt.order,
                    indent_level: lt.indent_level,
                    created_at: lt.created_at.clone(),
                    updated_at: lt.updated_at.clone(),
                    completed_at: clone_opt_string(&lt.completed_at),
                },
            );
            k = k + 1;
        }
        let doc = ProjectData {
            id: lp.row.id.clone(),
            name: lp.row.name.clone(),
            description: lp.row.description.clone(),
            metadata: lp.row.metadata.clone(),
            items: clone_items(&lp.items),
            todos,
            file_cards: clone_cards(&lp.file_cards),
            created_at: lp.row.created_at.clone(),
            updated_at: lp.row.updated_at.clone(),
        };
        items_migrated = items_migrated + lp.items.len();
        todos_migrated = todos_migrated + lp.todos.len();
        cards_migrated = cards_migrated + lp.file_cards.len();
        ids.push(lp.row.id.clone());
        docs.push(doc);
        t = t + 1;
    }
    let meta = Metadata {
        version: 1,
        project_ids: ids,
        global_settings: clone_settings(settings),
    };
    let res = MigrationResult {
        projects_migrated: docs.len(),
        items_migrated,
        todos_migrated,
        file_cards_migrated: cards_migrated,
        settings_migrated: settings.len(),
    };
    (docs, meta, res)
}

/// Prefix counts only grow with the prefix.
proof fn lemma_legacy_count_mono(ps: Seq<LegacyProject>, n: int, m: int)
    requires
        0 <= n <= m <= ps.len(),
    ensures
        legacy_item_count(ps, n) <= legacy_item_count(ps, m),
        legacy_todo_count(ps, n) <= legacy_todo_count(ps, m),
        legacy_card_count(ps, n) <= legacy_card_count(ps, m),
    decreases m - n,
{
    if n < m {
        lemma_legacy_count_mono(ps, n + 1, m);
    }
}

} // verus!

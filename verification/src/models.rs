//! The entity model shared by both storage backends, together with the
//! token codecs for the closed-set fields.
//!
//! Closed-set fields (`item_type`, `command_mode`, the coding-agent kind)
//! are stored on disk as fixed lowercase / kebab-case tokens.  Decoding an
//! unrecognized token never fails a record read: it yields `None` so that
//! forward-incompatible data cannot corrupt a load.

use vstd::prelude::*;

verus! {

/// The closed set of item kinds.
#[derive(Clone, Copy, Debug, PartialEq, Eq, Structural)]
pub enum ItemType {
    Note,
    Ide,
    File,
    Url,
    RemoteIde,
    Command,
}

/// The closed set of built-in IDE identifiers.
#[derive(Clone, Copy, Debug, PartialEq, Eq, Structural)]
pub enum IdeType {
    Idea,
    Pycharm,
    Webstorm,
    Phpstorm,
    Rubymine,
    Clion,
    Goland,
    Rider,
    Datagrip,
    Rustrover,
    Aqua,
    Cursor,
    Vscode,
    Zed,
    Antigravity,
}

/// The closed set of remote-IDE identifiers.
#[derive(Clone, Copy, Debug, PartialEq, Eq, Structural)]
pub enum RemoteIdeType {
    Cursor,
    Vscode,
}

/// How a command item is executed.
#[derive(Clone, Copy, Debug, PartialEq, Eq, Structural)]
pub enum CommandMode {
    Background,
    Output,
}

/// The closed set of coding-agent kinds.
#[derive(Clone, Copy, Debug, PartialEq, Eq, Structural)]
pub enum CodingAgentType {
    Aider,
    Opencode,
    GeminiCli,
}

/// Compares two string slices; true exactly when they hold the same
/// characters.
pub fn str_eq(a: &str, b: &str) -> (r: bool)
    ensures
        r == (a@ == b@),
{
    let a_owned: String = a.to_owned();
    let b_owned: String = b.to_owned();
    a_owned == b_owned
}

impl ItemType {
    /// The fixed kebab-case token this variant is stored as.
    pub open spec fn spec_token(self) -> Seq<char> {
        match self {
            ItemType::Note => "note"@,
            ItemType::Ide => "ide"@,
            ItemType::File => "file"@,
            ItemType::Url => "url"@,
            ItemType::RemoteIde => "remote-ide"@,
            ItemType::Command => "command"@,
        }
    }

    /// Decoding: the variant whose token is `s`, if any.
    pub open spec fn spec_from_token(s: Seq<char>) -> Option<ItemType> {
        if s == "note"@ {
            Some(ItemType::Note)
        } else if s == "ide"@ {
            Some(ItemType::Ide)
        } else if s == "file"@ {
            Some(ItemType::File)
        } else if s == "url"@ {
            Some(ItemType::Url)
        } else if s == "remote-ide"@ {
            Some(ItemType::RemoteIde)
        } else if s == "command"@ {
            Some(ItemType::Command)
        } else {
            None
        }
    }

    /// Encodes this variant as its storage token.
    pub fn as_token(&self) -> (r: String)
        ensures
            r@ == self.spec_token(),
    {
        match self {
            ItemType::Note => "note".to_owned(),
            ItemType::Ide => "ide".to_owned(),
            ItemType::File => "file".to_owned(),
            ItemType::Url => "url".to_owned(),
            ItemType::RemoteIde => "remote-ide".to_owned(),
            ItemType::Command => "command".to_owned(),
        }
    }

    /// Decodes a storage token; an unknown token yields `None` rather
    /// than an error.
    pub fn from_token(s: &str) -> (r: Option<ItemType>)
        ensures
            r == Self::spec_from_token(s@),
    {
        if str_eq(s, "note") {
            Some(ItemType::Note)
        } else if str_eq(s, "ide") {
            Some(ItemType::Ide)
        } else if str_eq(s, "file") {
            Some(ItemType::File)
        } else if str_eq(s, "url") {
            Some(ItemType::Url)
        } else if str_eq(s, "remote-ide") {
            Some(ItemType::RemoteIde)
        } else if str_eq(s, "command") {
            Some(ItemType::Command)
        } else {
            None
        }
    }
}

/// Every token round-trips: decoding the token of a variant yields that
/// variant back.
pub proof fn lemma_item_type_token_roundtrip(t: ItemType)
    ensures
        ItemType::spec_from_token(t.spec_token()) == Some(t),
{
    reveal_strlit("note");
    reveal_strlit("ide");
    reveal_strlit("file");
    reveal_strlit("url");
    reveal_strlit("remote-ide");
    reveal_strlit("command");
    assert("note"@.len() == 4 && "note"@[0] == 'n');
    assert("ide"@.len() == 3 && "ide"@[0] == 'i');
    assert("file"@.len() == 4 && "file"@[0] == 'f');
    assert("url"@.len() == 3 && "url"@[0] == 'u');
    assert("remote-ide"@.len() == 10);
    assert("command"@.len() == 7);
}

impl CommandMode {
    /// The fixed lowercase token this variant is stored as.
    pub open spec fn spec_token(self) -> Seq<char> {
        match self {
            CommandMode::Background => "background"@,
            CommandMode::Output => "output"@,
        }
    }

    /// Decoding: the variant whose token is `s`, if any.
    pub open spec fn spec_from_token(s: Seq<char>) -> Option<CommandMode> {
        if s == "background"@ {
            Some(CommandMode::Background)
        } else if s == "output"@ {
            Some(CommandMode::Output)
        } else {
            None
        }
    }

    /// Encodes this variant as its storage token.
    pub fn as_token(&self) -> (r: String)
        ensures
            r@ == self.spec_token(),
    {
        match self {
            CommandMode::Background => "background".to_owned(),
            CommandMode::Output => "output".to_owned(),
        }
    }

    /// Decodes a storage token; an unknown token yields `None` rather
    /// than an error.
    pub fn from_token(s: &str) -> (r: Option<CommandMode>)
        ensures
            r == Self::spec_from_token(s@),
    {
        if str_eq(s, "background") {
            Some(CommandMode::Background)
        } else if str_eq(s, "output") {
            Some(CommandMode::Output)
        } else {
            None
        }
    }
}

/// Every command-mode token round-trips.
pub proof fn lemma_command_mode_token_roundtrip(m: CommandMode)
    ensures
        CommandMode::spec_from_token(m.spec_token()) == Some(m),
{
    reveal_strlit("background");
    reveal_strlit("output");
    assert("background"@.len() == 10);
    assert("output"@.len() == 6);
}

impl CodingAgentType {
    /// The fixed kebab-case token this variant is stored as.
    pub open spec fn spec_token(self) -> Seq<char> {
        match self {
            CodingAgentType::Aider => "aider"@,
            CodingAgentType::Opencode => "opencode"@,
            CodingAgentType::GeminiCli => "gemini-cli"@,
        }
    }

    /// Decoding: the variant whose token is `s`, if any.
    pub open spec fn spec_from_token(s: Seq<char>) -> Option<CodingAgentType> {
        if s == "aider"@ {
            Some(CodingAgentType::Aider)
        } else if s == "opencode"@ {
            Some(CodingAgentType::Opencode)
        } else if s == "gemini-cli"@ {
            Some(CodingAgentType::GeminiCli)
        } else {
            None
        }
    }

    /// Encodes this variant as its storage token.
    pub fn as_token(&self) -> (r: String)
        ensures
            r@ == self.spec_token(),
    {
        match self {
            CodingAgentType::Aider => "aider".to_owned(),
            CodingAgentType::Opencode => "opencode".to_owned(),
            CodingAgentType::GeminiCli => "gemini-cli".to_owned(),
        }
    }

    /// Decodes a storage token; an unknown token yields `None` rather
    /// than an error.
    pub fn from_token(s: &str) -> (r: Option<CodingAgentType>)
        ensures
            r == Self::spec_from_token(s@),
    {
        if str_eq(s, "aider") {
            Some(CodingAgentType::Aider)
        } else if str_eq(s, "opencode") {
            Some(CodingAgentType::Opencode)
        } else if str_eq(s, "gemini-cli") {
            Some(CodingAgentType::GeminiCli)
        } else {
            None
        }
    }
}

/// Every coding-agent token round-trips.
pub proof fn lemma_coding_agent_token_roundtrip(a: CodingAgentType)
    ensures
        CodingAgentType::spec_from_token(a.spec_token()) == Some(a),
{
    reveal_strlit("aider");
    reveal_strlit("opencode");
    reveal_strlit("gemini-cli");
    assert("aider"@.len() == 5);
    assert("opencode"@.len() == 8);
    assert("gemini-cli"@.len() == 10);
}

/// Clones an optional string; the result is the same value.
pub fn clone_opt_string(o: &Option<String>) -> (r: Option<String>)
    ensures
        r == *o,
{
    match o {
        Some(s) => Some(s.clone()),
        None => None,
    }
}

/// A named link attached to a project.
#[derive(Debug, PartialEq)]
pub struct OtherLink {
    pub label: String,
    pub url: String,
}

impl Clone for OtherLink {
    fn clone(&self) -> (r: Self)
        ensures
            r == *self,
    {
        OtherLink { label: self.label.clone(), url: self.url.clone() }
    }
}

/// A named working directory of a project, optionally on a remote host.
#[derive(Debug, PartialEq)]
pub struct WorkingDir {
    pub name: String,
    pub path: String,
    pub host: Option<String>,
}

impl Clone for WorkingDir {
    fn clone(&self) -> (r: Self)
        ensures
            r == *self,
    {
        WorkingDir {
            name: self.name.clone(),
            path: self.path.clone(),
            host: clone_opt_string(&self.host),
        }
    }
}

/// The structured metadata bag of a project.
#[derive(Debug, PartialEq)]
pub struct ProjectMetadata {
    pub github_url: Option<String>,
    pub custom_url: Option<String>,
    pub other_links: Option<Vec<OtherLink>>,
    pub working_dirs: Option<Vec<WorkingDir>>,
    pub section_order: Option<Vec<String>>,
}

/// The mathematical value of a `ProjectMetadata`: list fields taken as
/// sequences so that two bags with the same contents compare equal.
pub struct MetadataView {
    pub github_url: Option<String>,
    pub custom_url: Option<String>,
    pub other_links: Option<Seq<OtherLink>>,
    pub working_dirs: Option<Seq<WorkingDir>>,
    pub section_order: Option<Seq<String>>,
}

impl ProjectMetadata {
    /// The mathematical value of this metadata bag.
    pub open spec fn mdv(self) -> MetadataView {
        MetadataView {
            github_url: self.github_url,
            custom_url: self.custom_url,
            other_links: match self.other_links {
                Some(v) => Some(v@),
                None => None,
            },
            working_dirs: match self.working_dirs {
                Some(v) => Some(v@),
                None => None,
            },
            section_order: match self.section_order {
                Some(v) => Some(v@),
                None => None,
            },
        }
    }

    /// An empty metadata bag: every field absent.
    pub fn empty() -> (r: ProjectMetadata)
        ensures
            r.github_url is None,
            r.custom_url is None,
            r.other_links is None,
            r.working_dirs is None,
            r.section_order is None,
    {
        ProjectMetadata {
            github_url: None,
            custom_url: None,
            other_links: None,
            working_dirs: None,
            section_order: None,
        }
    }
}

impl Default for ProjectMetadata {
    /// The default metadata bag is the empty one.
    fn default() -> (r: Self)
        ensures
            r.github_url is None,
            r.custom_url is None,
            r.other_links is None,
            r.working_dirs is None,
            r.section_order is None,
    {
        ProjectMetadata::empty()
    }
}

impl Clone for ProjectMetadata {
    fn clone(&self) -> (r: Self)
        ensures
            r.mdv() == self.mdv(),
    {
        let other_links: Option<Vec<OtherLink>> = match &self.other_links {
            Some(v) => {
                let mut c: Vec<OtherLink> = Vec::new();
                let mut i: usize = 0;
                while i < v.len()
                    invariant
                        i <= v.len(),
                        c@.len() == i as int,
                        forall|j: int| 0 <= j < i as int ==> c@[j] == v@[j],
                    decreases v.len() - i,
                {
                    c.push(v[i].clone());
                    i = i + 1;
                }
                proof {
                    assert(c@ =~= v@);
                }
                Some(c)
            },
            None => None,
        };
        let working_dirs: Option<Vec<WorkingDir>> = match &self.working_dirs {
            Some(v) => {
                let mut c: Vec<WorkingDir> = Vec::new();
                let mut i: usize = 0;
                while i < v.len()
                    invariant
                        i <= v.len(),
                        c@.len() == i as int,
                        forall|j: int| 0 <= j < i as int ==> c@[j] == v@[j],
                    decreases v.len() - i,
                {
                    c.push(v[i].clone());
                    i = i + 1;
                }
                proof {
                    assert(c@ =~= v@);
                }
                Some(c)
            },
            None => None,
        };
        let section_order: Option<Vec<String>> = match &self.section_order {
            Some(v) => {
                let mut c: Vec<String> = Vec::new();
                let mut i: usize = 0;
                while i < v.len()
                    invariant
                        i <= v.len(),
                        c@.len() == i as int,
                        forall|j: int| 0 <= j < i as int ==> c@[j] == v@[j],
                    decreases v.len() - i,
                {
                    c.push(v[i].clone());
                    i = i + 1;
                }
                proof {
                    assert(c@ =~= v@);
                }
                Some(c)
            },
            None => None,
        };
        ProjectMetadata {
            github_url: clone_opt_string(&self.github_url),
            custom_url: clone_opt_string(&self.custom_url),
            other_links,
            working_dirs,
            section_order,
        }
    }
}

/// A typed entry belonging to a project.
#[derive(Debug, PartialEq)]
pub struct Item {
    pub id: String,
    pub project_id: String,
    pub item_type: ItemType,
    pub title: String,
    pub content: String,
    pub ide_type: Option<String>,
    pub remote_ide_type: Option<String>,
    pub coding_agent_type: Option<CodingAgentType>,
    pub coding_agent_args: Option<String>,
    pub coding_agent_env: Option<String>,
    pub command_mode: Option<CommandMode>,
    pub command_cwd: Option<String>,
    pub command_host: Option<String>,
    pub order: i32,
    pub created_at: String,
    pub updated_at: String,
}

impl Clone for Item {
    fn clone(&self) -> (r: Self)
        ensures
            r == *self,
    {
        Item {
            id: self.id.clone(),
            project_id: self.project_id.clone(),
            item_type: self.item_type,
            title: self.title.clone(),
            content: self.content.clone(),
            ide_type: clone_opt_string(&self.ide_type),
            remote_ide_type: clone_opt_string(&self.remote_ide_type),
            coding_agent_type: self.coding_agent_type,
            coding_agent_args: clone_opt_string(&self.coding_agent_args),
            coding_agent_env: clone_opt_string(&self.coding_agent_env),
            command_mode: self.command_mode,
            command_cwd: clone_opt_string(&self.command_cwd),
            command_host: clone_opt_string(&self.command_host),
            order: self.order,
            created_at: self.created_at.clone(),
            updated_at: self.updated_at.clone(),
        }
    }
}

/// A checklist entry of a project.
#[derive(Debug, PartialEq)]
pub struct TodoItem {
    pub id: String,
    pub project_id: String,
    pub content: String,
    pub completed: bool,
    pub order: i32,
    pub indent_level: i32,
    pub created_at: String,
    pub updated_at: String,
    pub completed_at: Option<String>,
}

impl Clone for TodoItem {
    fn clone(&self) -> (r: Self)
        ensures
            r == *self,
    {
        TodoItem {
            id: self.id.clone(),
            project_id: self.project_id.clone(),
            content: self.content.clone(),
            completed: self.completed,
            order: self.order,
            indent_level: self.indent_level,
            created_at: self.created_at.clone(),
            updated_at: self.updated_at.clone(),
            completed_at: clone_opt_string(&self.completed_at),
        }
    }
}

/// A positioned, stacked annotation pointing at a filesystem path.
///
/// The UI works with fractional coordinates; the store never interprets
/// them, so they are carried here as the bit patterns of the 64-bit
/// values the UI supplied, and converted back at the application edge.
#[derive(Debug, PartialEq)]
pub struct FileCard {
    pub id: String,
    pub project_id: String,
    pub filename: String,
    pub file_path: String,
    pub position_x: u64,
    pub position_y: u64,
    pub is_expanded: bool,
    pub is_minimized: bool,
    pub z_index: i32,
    pub created_at: String,
    pub updated_at: String,
}

impl Clone for FileCard {
    fn clone(&self) -> (r: Self)
        ensures
            r == *self,
    {
        FileCard {
            id: self.id.clone(),
            project_id: self.project_id.clone(),
            filename: self.filename.clone(),
            file_path: self.file_path.clone(),
            position_x: self.position_x,
            position_y: self.position_y,
            is_expanded: self.is_expanded,
            is_minimized: self.is_minimized,
            z_index: self.z_index,
            created_at: self.created_at.clone(),
            updated_at: self.updated_at.clone(),
        }
    }
}

/// A project as returned to callers: the child items are present only
/// when a single project was fetched by id.
#[derive(Debug, PartialEq)]
pub struct Project {
    pub id: String,
    pub name: String,
    pub description: String,
    pub metadata: ProjectMetadata,
    pub created_at: String,
    pub updated_at: String,
    pub items: Option<Vec<Item>>,
}

/// Completion statistics of a project's checklist.
///
/// The completion percentage shown by the UI is derived from these two
/// counts at the application edge.
#[derive(Clone, Copy, Debug, PartialEq, Eq, Structural)]
pub struct TodoProgress {
    pub total: i32,
    pub completed: i32,
}

/// The flattened wire form of a project in an export envelope.
#[derive(Debug, PartialEq)]
pub struct ProjectRow {
    pub id: String,
    pub name: String,
    pub description: String,
    pub metadata: ProjectMetadata,
    pub created_at: String,
    pub updated_at: String,
}

/// The flattened wire form of a file card in an export envelope: the
/// boolean flags are carried as integers, a nonzero value meaning set.
#[derive(Debug, PartialEq)]
pub struct FileCardRow {
    pub id: String,
    pub project_id: String,
    pub filename: String,
    pub file_path: String,
    pub position_x: u64,
    pub position_y: u64,
    pub is_expanded: i32,
    pub is_minimized: i32,
    pub z_index: i32,
    pub created_at: String,
    pub updated_at: String,
}

impl Clone for FileCardRow {
    fn clone(&self) -> (r: Self)
        ensures
            r == *self,
    {
        FileCardRow {
            id: self.id.clone(),
            project_id: self.project_id.clone(),
            filename: self.filename.clone(),
            file_path: self.file_path.clone(),
            position_x: self.position_x,
            position_y: self.position_y,
            is_expanded: self.is_expanded,
            is_minimized: self.is_minimized,
            z_index: self.z_index,
            created_at: self.created_at.clone(),
            updated_at: self.updated_at.clone(),
        }
    }
}

/// A full export envelope.
#[derive(Debug, PartialEq)]
pub struct ExportData {
    pub version: String,
    pub exported_at: String,
    pub projects: Vec<ProjectRow>,
    pub items: Vec<Item>,
    pub file_cards: Option<Vec<FileCardRow>>,
}

/// The body of an import request: an envelope without the header.
#[derive(Debug, PartialEq)]
pub struct ImportData {
    pub projects: Vec<ProjectRow>,
    pub items: Vec<Item>,
    pub file_cards: Option<Vec<FileCardRow>>,
}

/// What an import did: how many records of each kind were taken in, and
/// how many were skipped because their id already existed or their
/// parent project was absent.
#[derive(Clone, Copy, Debug, PartialEq, Eq, Structural)]
pub struct ImportResult {
    pub projects_imported: i32,
    pub items_imported: i32,
    pub file_cards_imported: i32,
    pub skipped: i32,
}


/// What running a shell command produced; the value shape handed back
/// by the process-launching collaborator.
#[derive(Debug, PartialEq)]
pub struct CommandResult {
    pub stdout: String,
    pub stderr: String,
    pub exit_code: i32,
}

/// One entry of a directory listing.
#[derive(Debug, PartialEq)]
pub struct DirEntry {
    pub name: String,
    pub is_dir: bool,
}

/// A directory listing, as handed back by the remote-listing
/// collaborator.
#[derive(Debug, PartialEq)]
pub struct DirListing {
    pub current_path: String,
    pub entries: Vec<DirEntry>,
}

/// A whole file read for display.
#[derive(Debug, PartialEq)]
pub struct ReadFileResult {
    pub filename: String,
    pub content: String,
    pub file_size: u64,
}

/// Size information about a file, for windowed display.
#[derive(Debug, PartialEq)]
pub struct FileInfo {
    pub filename: String,
    pub file_size: u64,
    pub line_count: usize,
}

/// A window of lines out of a file.
#[derive(Debug, PartialEq)]
pub struct FileLinesResult {
    pub lines: Vec<String>,
    pub start_line: usize,
}

} // verus!
